//! The rule that tells a live question about the RR from a mere mention of it.
//!
//! The rule is written down once, as [`PATTERN`], and evaluated by the
//! `fancy_regex` engine. Nothing is proved about the engine: what it answers is
//! only given a name, and everything built on top is stated over that name.

use vstd::prelude::*;

verus! {

/// `fancy_regex::Regex`, a compiled expression. Nothing is known of what is
/// inside: it is made by the engine and handed back to the engine.
#[verifier::external_type_specification]
#[verifier::external_body]
pub struct ExRegex(fancy_regex::Regex);

/// `fancy_regex::Error`, what the engine reports when it cannot compile or
/// cannot finish a search. Nothing is known of what is inside.
#[verifier::external_type_specification]
#[verifier::external_body]
pub struct ExRegexError(fancy_regex::Error);

/// The questions that get an answer, in any mix of upper and lower case:
///
/// * `rr?`, where that is the whole text;
/// * `what`, `wat` or `wtf`, optionally followed by `s`, by `'s` (the
///   apostrophe may also be a back-tick or U+2019), by ` is` or by ` does`;
///   then ` rr`, ` a rr`, ` an rr` or ` the rr`; then, optionally, ` mean`,
///   ` stand for` or ` and where do i find it`; then, optionally, `?` or `.`;
/// * `define rr`, optionally followed by `?` or `.`.
///
/// The second and third form may stand anywhere in the text, but not directly
/// behind a double quote. The second form does not count either where it runs
/// on into `outine`, into a blank and a further word, or into a comma, nor
/// where a double quote follows it directly.
pub const PATTERN: &'static str =
    r#"(?i)^rr\?$|(?<!")(wh?at|wtf)([`'\u{2019}]?s| is| does)? (an? rr|the rr|rr)( mean| stand for| and where do i find it)?(?!outine| \w|,)[?.]?(?!")|(?<!")define rr[?.]?"#;

/// The expression that `fancy_regex::Regex::new` builds from `pattern`, or
/// `None` where it rejects the pattern.
pub uninterp spec fn regex_built(pattern: Seq<char>) -> Option<fancy_regex::Regex>;

/// What `fancy_regex::Regex::is_match` answers for `re` on `text`: whether the
/// expression matches somewhere in the text, or `None` where the search is
/// given up (the engine bounds its backtracking).
pub uninterp spec fn regex_verdict(re: fancy_regex::Regex, text: Seq<char>) -> Option<bool>;

/// Calls `fancy_regex::Regex::new`, which parses and compiles `pattern` with
/// the engine's default options. Trusted: the outcome depends on the pattern
/// alone, so it is the one that `regex_built` names.
#[verifier::external_body]
fn compile(pattern: &str) -> (r: Result<fancy_regex::Regex, fancy_regex::Error>)
    ensures
        r matches Ok(re) ==> regex_built(pattern@) == Some(re),
        r is Err ==> regex_built(pattern@) is None,
{
    fancy_regex::Regex::new(pattern)
}

/// Calls `fancy_regex::Regex::is_match`. Trusted: the answer depends on the
/// expression and the text alone, so it is the one that `regex_verdict` names.
#[verifier::external_body]
fn search(re: &fancy_regex::Regex, text: &str) -> (r: Result<bool, fancy_regex::Error>)
    ensures
        r matches Ok(found) ==> regex_verdict(*re, text@) == Some(found),
        r is Err ==> regex_verdict(*re, text@) is None,
{
    re.is_match(text)
}

/// Renders a `fancy_regex::Error` through its `Display` impl. Nothing is
/// claimed about the text.
#[verifier::external_body]
fn describe(error: &fancy_regex::Error) -> String {
    format!("{}", error)
}

/// Whether `PATTERN` is a valid expression for the engine.
pub open spec fn pattern_compiles() -> bool {
    regex_built(PATTERN@) is Some
}

/// Whether `text` asks what the RR is.
///
/// Empty text never does. A search that the engine gives up counts as no
/// match.
pub open spec fn is_question(text: Seq<char>) -> bool {
    &&& text.len() > 0
    &&& regex_built(PATTERN@) matches Some(re)
    &&& regex_verdict(re, text) == Some(true)
}

/// The engine rejected [`PATTERN`].
#[derive(Debug)]
pub struct PatternError {
    pub message: String,
}

/// What a search outcome counts as: a search that failed is no match.
pub fn verdict_of<E>(outcome: Result<bool, E>) -> (matched: bool)
    ensures
        matched == (outcome == Ok::<bool, E>(true)),
{
    match outcome {
        Ok(found) => found,
        Err(_) => false,
    }
}

/// [`PATTERN`], compiled once and reused for every text of a pass.
pub struct Matcher {
    re: fancy_regex::Regex,
}

impl Matcher {
    #[verifier::type_invariant]
    spec fn compiled_from_pattern(self) -> bool {
        regex_built(PATTERN@) == Some(self.re)
    }

    /// Compiles [`PATTERN`].
    pub fn new() -> (r: Result<Matcher, PatternError>)
        ensures
            r is Ok <==> pattern_compiles(),
    {
        match compile(PATTERN) {
            Ok(re) => Ok(Matcher { re }),
            Err(e) => Err(PatternError { message: describe(&e) }),
        }
    }

    /// Whether `text` asks what the RR is. Empty text never does.
    pub fn is_match(&self, text: &str) -> (matched: bool)
        ensures
            matched == is_question(text@),
            text@.len() == 0 ==> !matched,
    {
        proof {
            use_type_invariant(self);
        }
        if text.is_empty() {
            return false;
        }
        verdict_of(search(&self.re, text))
    }
}

/// Whether `text` asks what the RR is, compiling [`PATTERN`] for this one
/// question. Fails only where the engine rejects the pattern.
pub fn is_text_match(text: &str) -> (r: Result<bool, PatternError>)
    ensures
        r is Ok <==> pattern_compiles(),
        r matches Ok(matched) ==> matched == is_question(text@),
        text@.len() == 0 ==> r != Ok::<bool, PatternError>(true),
{
    match Matcher::new() {
        Ok(matcher) => Ok(matcher.is_match(text)),
        Err(e) => Err(e),
    }
}

} // verus!
