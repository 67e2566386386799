//! Scans a feed of posts and their comment trees for people asking what the
//! "RR" is, and answers each of them exactly once across runs.
//!
//! * [`matcher`] tells a question from a mention.
//! * [`comment`] flattens a comment tree, so that every comment is looked at.
//! * [`ledger`] remembers what has been answered, in memory and as text.
//! * [`pass`] puts the three together; [`replay`] says what a pass may do and
//!   proves that it answers nothing twice.
//! * [`post`], [`config`] and [`json`] read what the forum and the operator
//!   hand in; [`reddit`] is the forum as the bot sees it.

pub mod comment;
pub mod config;
pub mod json;
pub mod ledger;
pub mod matcher;
pub mod pass;
pub mod post;
pub mod reddit;
pub mod replay;

pub use crate::pass::run;
