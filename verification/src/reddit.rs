//! What the bot needs from the forum, and what it says there.

use crate::comment::Comment;
use crate::config::Config;
use vstd::prelude::*;

verus! {

/// The forum refused or failed a request.
#[derive(Debug)]
pub struct AppError {
    pub message: String,
}

/// The forum, as far as the bot uses it. The bot is written against this
/// trait; a client for the real forum implements it, and so does a stand-in
/// with canned data.
pub trait RedditApp {
    /// The comments on the post `post_id`, as a forest of replies.
    fn get_comment_tree(&self, post_id: &str) -> Result<Vec<Comment>, AppError>;

    /// The posts of the feed in feed order, each as the JSON text of its
    /// data.
    fn get_posts(&self) -> Vec<String>;

    /// Answers the post or comment `id`.
    fn reply(&self, id: &str) -> Result<(), AppError>;
}

/// The answer that the bot gives.
pub const REPLY: &'static str =
    "The RR is the [Recommended Routine](https://www.reddit.com/r/bodyweightfitness/wiki/kb/recommended_routine).\n*****\n^(I am a bot, flex-beep-boop)";

/// The text to send as an answer, or `None` where the bot only monitors: it
/// then counts every answer as given without sending anything.
pub fn reply_text(config: &Config) -> (text: Option<&'static str>)
    ensures
        text == if config.monitor_only {
            None
        } else {
            Some(REPLY)
        },
{
    if config.monitor_only {
        None
    } else {
        Some(REPLY)
    }
}

} // verus!
