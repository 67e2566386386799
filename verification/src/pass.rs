//! One pass over the feed: every post and comment that asks the question and
//! has not been answered gets a reply, and is recorded once the reply went
//! out.

use crate::comment::{flatten, walk};
use crate::config::Config;
use crate::json::{json_text_member, text_of};
use crate::ledger::Ledger;
use crate::matcher::{is_question, pattern_compiles, Matcher, PatternError};
use crate::post::{first_unreadable, Post};
use crate::reddit::{AppError, RedditApp};
use crate::replay::{
    candidates, comment_candidate, comment_candidates, due, lemma_replay_attempt,
    lemma_replay_grows, lemma_replay_pass_over, post_candidates, replay, Candidate, Ledgers,
    Outcome, Target,
};
use vstd::prelude::*;
use vstd::string::StringExecFns;

verus! {

/// A reply that was attempted.
#[derive(Debug)]
pub struct Attempt {
    pub target: Target,
    pub id: String,
    /// Why the reply was not delivered; `None` if it was.
    pub failure: Option<String>,
}

/// A post of the feed that could not be read, and was left out of the pass.
#[derive(Debug)]
pub struct Skipped {
    /// The position of the post in the feed.
    pub index: usize,
    /// The member of the post that could not be read.
    pub field: String,
}

/// What a pass did.
#[derive(Debug)]
pub struct PassReport {
    /// The replies that were attempted, in the order of the attempts.
    pub attempts: Vec<Attempt>,
    /// The posts that were left out.
    pub skipped: Vec<Skipped>,
}

/// An attempt as the model of a pass sees it.
pub open spec fn outcome_of(attempt: Attempt) -> Outcome {
    Outcome { target: attempt.target, id: attempt.id@, replied: attempt.failure is None }
}

/// The attempts of a report as the model of a pass sees them.
pub open spec fn outcomes(attempts: Seq<Attempt>) -> Seq<Outcome> {
    attempts.map_values(|a: Attempt| outcome_of(a))
}

/// The two ledgers side by side.
pub open spec fn ledgers_of(posts: Set<Seq<char>>, comments: Set<Seq<char>>) -> Ledgers {
    Ledgers { posts, comments }
}

/// Takes note of how a reply to `id` went. The attempt is reported either
/// way. A reply that was delivered is recorded in `ledger`, the ledger of its
/// kind; one that failed is reported with the reason the forum gave, and the
/// ledger stays as it is, so that the next pass tries again.
pub fn settle(
    target: Target,
    id: &str,
    reply: Result<(), AppError>,
    ledger: &mut Ledger,
    attempts: &mut Vec<Attempt>,
)
    ensures
        final(attempts)@.len() == old(attempts)@.len() + 1,
        final(attempts)@.drop_last() == old(attempts)@,
        final(attempts)@.last().target == target,
        final(attempts)@.last().id@ == id@,
        text_of(final(attempts)@.last().failure) == match reply {
            Ok(_) => None::<Seq<char>>,
            Err(e) => Some(e.message@),
        },
        final(ledger).entries() == if reply is Ok && !old(ledger)@.contains(id@) {
            old(ledger).entries().push(id@)
        } else {
            old(ledger).entries()
        },
        final(ledger)@ == if reply is Ok {
            old(ledger)@.insert(id@)
        } else {
            old(ledger)@
        },
{
    let failure = match reply {
        Ok(()) => {
            ledger.insert(id);
            None
        },
        Err(e) => Some(e.message),
    };
    attempts.push(Attempt { target, id: String::from_str(id), failure });
}

/// Looks at one post or comment: replies if it is due, and hands the result
/// to [`settle`]. `ledger` is the ledger of its kind.
fn consider<T: RedditApp>(
    target: Target,
    id: &str,
    text: &str,
    ledger: &mut Ledger,
    app: &T,
    matcher: &Matcher,
    attempts: &mut Vec<Attempt>,
)
    ensures
        !(!old(ledger)@.contains(id@) && is_question(text@)) ==> {
            &&& final(ledger)@ == old(ledger)@
            &&& final(attempts)@ == old(attempts)@
        },
        (!old(ledger)@.contains(id@) && is_question(text@)) ==> {
            &&& final(attempts)@.len() == old(attempts)@.len() + 1
            &&& final(attempts)@.drop_last() == old(attempts)@
            &&& final(attempts)@.last().target == target
            &&& final(attempts)@.last().id@ == id@
            &&& final(ledger)@ == if final(attempts)@.last().failure is None {
                old(ledger)@.insert(id@)
            } else {
                old(ledger)@
            }
        },
{
    if ledger.contains(id) || !matcher.is_match(text) {
        return ;
    }
    settle(target, id, app.reply(id), ledger, attempts);
}

/// The pass proper, with the pattern already compiled.
fn scan<T: RedditApp>(
    posts: &Vec<Post>,
    post_ledger: &mut Ledger,
    comment_ledger: &mut Ledger,
    app: &T,
    matcher: &Matcher,
) -> (attempts: Vec<Attempt>)
    ensures
        replay(
            candidates(posts@),
            ledgers_of(old(post_ledger)@, old(comment_ledger)@),
            outcomes(attempts@),
        ) == Some(ledgers_of(final(post_ledger)@, final(comment_ledger)@)),
{
    let ghost start = ledgers_of(post_ledger@, comment_ledger@);
    let mut attempts: Vec<Attempt> = Vec::new();
    let mut i: usize = 0;
    while i < posts.len()
        invariant
            i <= posts.len(),
            replay(candidates(posts@.take(i as int)), start, outcomes(attempts@)) == Some(
                ledgers_of(post_ledger@, comment_ledger@),
            ),
        decreases posts.len() - i,
    {
        let post = &posts[i];
        let ghost before = candidates(posts@.take(i as int));
        let ghost own = Candidate { target: Target::Post, id: post.id@, text: post.selftext@ };
        let ghost tried = attempts@;
        let ghost had = ledgers_of(post_ledger@, comment_ledger@);
        consider(
            Target::Post,
            post.id.as_str(),
            post.selftext.as_str(),
            post_ledger,
            app,
            matcher,
            &mut attempts,
        );
        proof {
            step_done(before, own, start, tried, attempts@, had, post_ledger@, comment_ledger@);
        }
        let entries = flatten(&post.comments);
        let ghost walked = walk(post.comments@);
        let mut j: usize = 0;
        assert(before.push(own) == before + seq![own] + comment_candidates(walked.take(0)));
        while j < entries.len()
            invariant
                j <= entries.len(),
                entries.deep_view() == walked,
                replay(
                    before + seq![own] + comment_candidates(walked.take(j as int)),
                    start,
                    outcomes(attempts@),
                ) == Some(ledgers_of(post_ledger@, comment_ledger@)),
            decreases entries.len() - j,
        {
            let ghost done = before + seq![own] + comment_candidates(walked.take(j as int));
            let ghost c = comment_candidate(walked[j as int]);
            proof {
                assert(done.push(c) == before + seq![own] + comment_candidates(
                    walked.take(j + 1),
                ));
            }
            let ghost tried = attempts@;
            let ghost had = ledgers_of(post_ledger@, comment_ledger@);
            consider(
                Target::Comment,
                entries[j].1.as_str(),
                entries[j].0.as_str(),
                comment_ledger,
                app,
                matcher,
                &mut attempts,
            );
            proof {
                step_done(done, c, start, tried, attempts@, had, post_ledger@, comment_ledger@);
            }
            j += 1;
        }
        proof {
            let next = posts@.take(i + 1);
            assert(walked.take(entries.len() as int) == walked);
            assert(next.drop_last() == posts@.take(i as int));
            assert(before + post_candidates(*post) == before + seq![own] + comment_candidates(
                walked,
            ));
        }
        i += 1;
    }
    assert(posts@.take(posts.len() as int) == posts@);
    attempts
}

/// What one step of a pass amounts to in the model: the candidates seen grow
/// by one, and the attempts and the ledgers change as `replay` says.
proof fn step_done(
    done: Seq<Candidate>,
    c: Candidate,
    start: Ledgers,
    tried: Seq<Attempt>,
    attempts: Seq<Attempt>,
    had: Ledgers,
    posts: Set<Seq<char>>,
    comments: Set<Seq<char>>,
)
    requires
        replay(done, start, outcomes(tried)) == Some(had),
        !due(c, had) ==> attempts == tried && ledgers_of(posts, comments) == had,
        due(c, had) ==> {
            &&& attempts.len() == tried.len() + 1
            &&& attempts.drop_last() == tried
            &&& attempts.last().target == c.target
            &&& attempts.last().id@ == c.id
            &&& ledgers_of(posts, comments) == if attempts.last().failure is None {
                had.record(c.target, c.id)
            } else {
                had
            }
        },
    ensures
        replay(done.push(c), start, outcomes(attempts)) == Some(ledgers_of(posts, comments)),
{
    if due(c, had) {
        let outcome = outcome_of(attempts.last());
        lemma_replay_attempt(done, c, start, outcomes(tried), outcome);
        assert(outcomes(attempts) == outcomes(tried).push(outcome));
    } else {
        lemma_replay_pass_over(done, c, start, outcomes(tried));
    }
}

/// Makes one pass over `posts`, in their order. Each post is looked at
/// first, then its comments in walking order. Whatever asks the question and
/// is not in the ledger of its kind gets a reply through `app`. A reply that
/// was delivered is recorded in the ledger at once; one that failed is
/// reported and left for the next pass, and the pass goes on.
///
/// Fails, with the ledgers untouched, only where the pattern does not
/// compile.
pub fn run_pass<T: RedditApp>(
    posts: &Vec<Post>,
    post_ledger: &mut Ledger,
    comment_ledger: &mut Ledger,
    app: &T,
) -> (r: Result<PassReport, PatternError>)
    ensures
        r is Ok <==> pattern_compiles(),
        r matches Ok(report) ==> {
            &&& report.skipped@.len() == 0
            &&& replay(
                candidates(posts@),
                ledgers_of(old(post_ledger)@, old(comment_ledger)@),
                outcomes(report.attempts@),
            ) == Some(ledgers_of(final(post_ledger)@, final(comment_ledger)@))
        },
        r is Err ==> {
            &&& final(post_ledger).entries() == old(post_ledger).entries()
            &&& final(comment_ledger).entries() == old(comment_ledger).entries()
        },
        old(post_ledger)@.subset_of(final(post_ledger)@),
        old(comment_ledger)@.subset_of(final(comment_ledger)@),
{
    let matcher = match Matcher::new() {
        Ok(matcher) => matcher,
        Err(e) => return Err(e),
    };
    let attempts = scan(posts, post_ledger, comment_ledger, app, &matcher);
    proof {
        lemma_replay_grows(
            candidates(posts@),
            ledgers_of(old(post_ledger)@, old(comment_ledger)@),
            outcomes(attempts@),
        );
    }
    Ok(PassReport { attempts, skipped: Vec::new() })
}

/// The places among the first `n` entries of a feed whose post can be read,
/// in feed order.
pub open spec fn readable(feed: Seq<String>, n: int) -> Seq<int>
    decreases n,
{
    if n <= 0 {
        Seq::empty()
    } else if first_unreadable(feed[n - 1]@) is None {
        readable(feed, n - 1).push(n - 1)
    } else {
        readable(feed, n - 1)
    }
}

/// The places among the first `n` entries of a feed whose post cannot be
/// read, in feed order.
pub open spec fn unreadable(feed: Seq<String>, n: int) -> Seq<int>
    decreases n,
{
    if n <= 0 {
        Seq::empty()
    } else if first_unreadable(feed[n - 1]@) is None {
        unreadable(feed, n - 1)
    } else {
        unreadable(feed, n - 1).push(n - 1)
    }
}

/// Whether `post` has the identifier, title and text that `json` gives.
pub open spec fn read_from(post: Post, json: Seq<char>) -> bool {
    &&& json_text_member(json, "id"@) == Some(post.id@)
    &&& json_text_member(json, "title"@) == Some(post.title@)
    &&& json_text_member(json, "selftext"@) == Some(post.selftext@)
}

/// Every one of the first `n` entries of a feed is either readable or not.
pub proof fn lemma_feed_split(feed: Seq<String>, n: int)
    requires
        0 <= n,
    ensures
        readable(feed, n).len() + unreadable(feed, n).len() == n,
        forall|k: int|
            0 <= k < readable(feed, n).len() ==> 0 <= #[trigger] readable(feed, n)[k] < n,
        forall|k: int|
            0 <= k < unreadable(feed, n).len() ==> 0 <= #[trigger] unreadable(feed, n)[k] < n,
    decreases n,
{
    if n > 0 {
        lemma_feed_split(feed, n - 1);
    }
}

/// Reads the first `limit` posts of a feed, and fetches the comments of
/// each. A post that cannot be read is left out and reported, with its place
/// in the feed and the member that could not be read; the others are kept in
/// feed order.
pub fn read_feed<T: RedditApp>(feed: &Vec<String>, limit: u8, app: &T) -> (r: (
    Vec<Post>,
    Vec<Skipped>,
))
    ensures
        ({
            let n = if feed@.len() < limit {
                feed@.len() as int
            } else {
                limit as int
            };
            &&& r.0@.len() == readable(feed@, n).len()
            &&& forall|k: int|
                0 <= k < r.0@.len() ==> read_from(
                    #[trigger] r.0@[k],
                    feed@[readable(feed@, n)[k]]@,
                )
            &&& r.1@.len() == unreadable(feed@, n).len()
            &&& forall|k: int|
                0 <= k < r.1@.len() ==> {
                    &&& (#[trigger] r.1@[k]).index == unreadable(feed@, n)[k]
                    &&& first_unreadable(feed@[unreadable(feed@, n)[k]]@) == Some(r.1@[k].field@)
                }
        }),
{
    let mut posts: Vec<Post> = Vec::new();
    let mut skipped: Vec<Skipped> = Vec::new();
    let mut i: usize = 0;
    while i < feed.len() && i < limit as usize
        invariant
            i <= feed.len(),
            i <= limit,
            posts@.len() == readable(feed@, i as int).len(),
            forall|k: int|
                0 <= k < posts@.len() ==> read_from(
                    #[trigger] posts@[k],
                    feed@[readable(feed@, i as int)[k]]@,
                ),
            skipped@.len() == unreadable(feed@, i as int).len(),
            forall|k: int|
                0 <= k < skipped@.len() ==> {
                    &&& (#[trigger] skipped@[k]).index == unreadable(feed@, i as int)[k]
                    &&& first_unreadable(feed@[unreadable(feed@, i as int)[k]]@) == Some(
                        skipped@[k].field@,
                    )
                },
        decreases feed.len() - i,
    {
        match Post::new(feed[i].as_str(), app) {
            Ok(post) => posts.push(post),
            Err(e) => skipped.push(Skipped { index: i, field: e.field }),
        }
        i += 1;
    }
    (posts, skipped)
}

/// Whether `report` and the ledgers `after` are those of a pass, started from
/// the ledgers `before`, over some posts that, together with the posts left
/// out, number at most `limit`.
pub open spec fn passed_over_feed(limit: u8, before: Ledgers, report: PassReport, after: Ledgers)
    -> bool {
    exists|posts: Seq<Post>|
        {
            &&& posts.len() + report.skipped@.len() <= limit
            &&& #[trigger] replay(candidates(posts), before, outcomes(report.attempts@)) == Some(
                after,
            )
        }
}

/// One run of the bot: reads at most `config.hot_take` posts from the feed,
/// with their comments, and makes one pass over them.
///
/// What the feed holds is for `app` to say, so the posts are not known
/// beforehand; whatever they were, the replies attempted and the ledgers left
/// behind are those of a pass over them. What is done with each thing that
/// `app` hands back is said where it is taken: the feed by [`read_feed`], the
/// comments of a post by [`Post::with_comments`], the result of a reply by
/// [`settle`].
pub fn run<T: RedditApp>(
    app: &T,
    config: &Config,
    posts_db: &mut Ledger,
    comments_db: &mut Ledger,
) -> (r: Result<PassReport, PatternError>)
    ensures
        r is Ok <==> pattern_compiles(),
        r matches Ok(report) ==> passed_over_feed(
            config.hot_take,
            ledgers_of(old(posts_db)@, old(comments_db)@),
            report,
            ledgers_of(final(posts_db)@, final(comments_db)@),
        ),
        r is Err ==> {
            &&& final(posts_db).entries() == old(posts_db).entries()
            &&& final(comments_db).entries() == old(comments_db).entries()
        },
        old(posts_db)@.subset_of(final(posts_db)@),
        old(comments_db)@.subset_of(final(comments_db)@),
{
    let matcher = match Matcher::new() {
        Ok(matcher) => matcher,
        Err(e) => return Err(e),
    };
    let feed = app.get_posts();
    let (posts, skipped) = read_feed(&feed, config.hot_take, app);
    proof {
        let n = if feed@.len() < config.hot_take {
            feed@.len() as int
        } else {
            config.hot_take as int
        };
        lemma_feed_split(feed@, n);
    }
    let attempts = scan(&posts, posts_db, comments_db, app, &matcher);
    proof {
        lemma_replay_grows(
            candidates(posts@),
            ledgers_of(old(posts_db)@, old(comments_db)@),
            outcomes(attempts@),
        );
    }
    Ok(PassReport { attempts, skipped })
}

} // verus!
