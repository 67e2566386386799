//! What a pass over the feed may do, as a relation between the posts it is
//! given, the ledgers before and after, and the replies it attempted.

use crate::comment::walk;
use crate::matcher::is_question;
use crate::post::Post;
use vstd::prelude::*;

verus! {

/// Whether an identifier names a post or a comment. The two kinds have a
/// ledger each, so that an identifier of one kind is never taken for one of
/// the other.
#[derive(Clone, Copy, Debug, PartialEq, Eq, Structural)]
pub enum Target {
    Post,
    Comment,
}

/// The two ledgers, as sets of identifiers.
pub struct Ledgers {
    pub posts: Set<Seq<char>>,
    pub comments: Set<Seq<char>>,
}

/// A post or a comment that a pass looks at.
pub struct Candidate {
    pub target: Target,
    pub id: Seq<char>,
    pub text: Seq<char>,
}

/// A reply that a pass attempted, and whether it was delivered.
pub struct Outcome {
    pub target: Target,
    pub id: Seq<char>,
    pub replied: bool,
}

impl Ledgers {
    /// The ledger that holds identifiers of the given kind.
    pub open spec fn of(self, target: Target) -> Set<Seq<char>> {
        match target {
            Target::Post => self.posts,
            Target::Comment => self.comments,
        }
    }

    /// The ledgers after an identifier of the given kind was recorded.
    pub open spec fn record(self, target: Target, id: Seq<char>) -> Ledgers {
        match target {
            Target::Post => Ledgers { posts: self.posts.insert(id), comments: self.comments },
            Target::Comment => Ledgers { posts: self.posts, comments: self.comments.insert(id) },
        }
    }

    /// Every identifier of `self` is in `other` too.
    pub open spec fn within(self, other: Ledgers) -> bool {
        self.posts.subset_of(other.posts) && self.comments.subset_of(other.comments)
    }
}

/// The candidate that a walked comment is.
pub open spec fn comment_candidate(entry: (Seq<char>, Seq<char>)) -> Candidate {
    Candidate { target: Target::Comment, id: entry.1, text: entry.0 }
}

/// The candidates that the comments of a post are, in walking order.
pub open spec fn comment_candidates(entries: Seq<(Seq<char>, Seq<char>)>) -> Seq<Candidate> {
    entries.map_values(|e: (Seq<char>, Seq<char>)| comment_candidate(e))
}

/// What a post gives a pass to look at: the post itself, then each of its
/// comments.
pub open spec fn post_candidates(post: Post) -> Seq<Candidate> {
    seq![Candidate { target: Target::Post, id: post.id@, text: post.selftext@ }]
        + comment_candidates(walk(post.comments@))
}

/// What a list of posts gives a pass to look at, post by post.
pub open spec fn candidates(posts: Seq<Post>) -> Seq<Candidate>
    decreases posts.len(),
{
    if posts.len() == 0 {
        Seq::empty()
    } else {
        candidates(posts.drop_last()) + post_candidates(posts.last())
    }
}

/// Whether a candidate is due a reply: it has had none, and it asks the
/// question.
pub open spec fn due(candidate: Candidate, ledgers: Ledgers) -> bool {
    !ledgers.of(candidate.target).contains(candidate.id) && is_question(candidate.text)
}

/// The ledgers that a pass leaves behind, if `outcomes` is what a pass over
/// `candidates` may attempt when it starts from `ledgers`; `None` if it is
/// not.
///
/// A pass takes the candidates in order. One that is not due is passed over.
/// One that is due gets a reply attempted, which is the next outcome; only if
/// the reply was delivered is the candidate recorded, and it is recorded at
/// once, before the next candidate is looked at. Every outcome belongs to a
/// candidate in this way.
pub open spec fn replay(candidates: Seq<Candidate>, ledgers: Ledgers, outcomes: Seq<Outcome>)
    -> Option<Ledgers>
    decreases candidates.len(),
{
    if candidates.len() == 0 {
        if outcomes.len() == 0 {
            Some(ledgers)
        } else {
            None
        }
    } else {
        let c = candidates.first();
        if !due(c, ledgers) {
            replay(candidates.drop_first(), ledgers, outcomes)
        } else if outcomes.len() > 0 && outcomes.first().target == c.target && outcomes.first().id
            == c.id {
            replay(
                candidates.drop_first(),
                if outcomes.first().replied {
                    ledgers.record(c.target, c.id)
                } else {
                    ledgers
                },
                outcomes.drop_first(),
            )
        } else {
            None
        }
    }
}

/// A pass can be taken in two parts: what the first part leaves behind is
/// where the second part starts.
pub proof fn lemma_replay_append(
    first: Seq<Candidate>,
    second: Seq<Candidate>,
    ledgers: Ledgers,
    first_outcomes: Seq<Outcome>,
    second_outcomes: Seq<Outcome>,
)
    requires
        replay(first, ledgers, first_outcomes) is Some,
    ensures
        replay(first + second, ledgers, first_outcomes + second_outcomes) == replay(
            second,
            replay(first, ledgers, first_outcomes)->0,
            second_outcomes,
        ),
    decreases first.len(),
{
    if first.len() > 0 {
        let c = first.first();
        assert((first + second).drop_first() == first.drop_first() + second);
        if !due(c, ledgers) {
            lemma_replay_append(
                first.drop_first(),
                second,
                ledgers,
                first_outcomes,
                second_outcomes,
            );
        } else {
            let o = first_outcomes.first();
            let next = if o.replied {
                ledgers.record(c.target, c.id)
            } else {
                ledgers
            };
            assert((first_outcomes + second_outcomes).drop_first() == first_outcomes.drop_first()
                + second_outcomes);
            lemma_replay_append(
                first.drop_first(),
                second,
                next,
                first_outcomes.drop_first(),
                second_outcomes,
            );
        }
    }
}

/// What a pass does with a single candidate.
pub proof fn lemma_replay_one(c: Candidate, ledgers: Ledgers, outcomes: Seq<Outcome>)
    ensures
        replay(seq![c], ledgers, outcomes) == if !due(c, ledgers) {
            if outcomes.len() == 0 {
                Some(ledgers)
            } else {
                None
            }
        } else if outcomes.len() == 1 && outcomes[0].target == c.target && outcomes[0].id == c.id {
            Some(
                if outcomes[0].replied {
                    ledgers.record(c.target, c.id)
                } else {
                    ledgers
                },
            )
        } else {
            None
        },
{
    reveal_with_fuel(replay, 2);
}

/// A candidate that is not due is passed over.
pub proof fn lemma_replay_pass_over(
    done: Seq<Candidate>,
    c: Candidate,
    ledgers: Ledgers,
    outcomes: Seq<Outcome>,
)
    requires
        replay(done, ledgers, outcomes) is Some,
        !due(c, replay(done, ledgers, outcomes)->0),
    ensures
        replay(done.push(c), ledgers, outcomes) == replay(done, ledgers, outcomes),
{
    let none = Seq::<Outcome>::empty();
    lemma_replay_append(done, seq![c], ledgers, outcomes, none);
    lemma_replay_one(c, replay(done, ledgers, outcomes)->0, none);
    assert(done + seq![c] == done.push(c));
}

/// A candidate that is due gets a reply attempted, and is recorded if the
/// reply was delivered.
pub proof fn lemma_replay_attempt(
    done: Seq<Candidate>,
    c: Candidate,
    ledgers: Ledgers,
    outcomes: Seq<Outcome>,
    outcome: Outcome,
)
    requires
        replay(done, ledgers, outcomes) is Some,
        due(c, replay(done, ledgers, outcomes)->0),
        outcome.target == c.target,
        outcome.id == c.id,
    ensures
        replay(done.push(c), ledgers, outcomes.push(outcome)) == Some(
            if outcome.replied {
                replay(done, ledgers, outcomes)->0.record(c.target, c.id)
            } else {
                replay(done, ledgers, outcomes)->0
            },
        ),
{
    lemma_replay_append(done, seq![c], ledgers, outcomes, seq![outcome]);
    lemma_replay_one(c, replay(done, ledgers, outcomes)->0, seq![outcome]);
    assert(done + seq![c] == done.push(c));
    assert(outcomes + seq![outcome] == outcomes.push(outcome));
}

/// A pass never removes an identifier from a ledger.
pub proof fn lemma_replay_grows(
    candidates: Seq<Candidate>,
    ledgers: Ledgers,
    outcomes: Seq<Outcome>,
)
    requires
        replay(candidates, ledgers, outcomes) is Some,
    ensures
        ledgers.within(replay(candidates, ledgers, outcomes)->0),
    decreases candidates.len(),
{
    if candidates.len() > 0 {
        let c = candidates.first();
        if !due(c, ledgers) {
            lemma_replay_grows(candidates.drop_first(), ledgers, outcomes);
        } else {
            let next = if outcomes.first().replied {
                ledgers.record(c.target, c.id)
            } else {
                ledgers
            };
            lemma_replay_grows(candidates.drop_first(), next, outcomes.drop_first());
        }
    }
}

/// A pass records exactly the identifiers whose reply was delivered: an
/// identifier is in a ledger afterwards if and only if it was there before or
/// is that of a delivered reply of that kind.
pub proof fn lemma_replay_records(
    candidates: Seq<Candidate>,
    ledgers: Ledgers,
    outcomes: Seq<Outcome>,
    target: Target,
    id: Seq<char>,
)
    requires
        replay(candidates, ledgers, outcomes) is Some,
    ensures
        replay(candidates, ledgers, outcomes)->0.of(target).contains(id) <==> (ledgers.of(
            target,
        ).contains(id) || exists|i: int|
            0 <= i < outcomes.len() && #[trigger] outcomes[i].replied && outcomes[i].target
                == target && outcomes[i].id == id),
    decreases candidates.len(),
{
    if candidates.len() > 0 {
        let c = candidates.first();
        if !due(c, ledgers) {
            lemma_replay_records(candidates.drop_first(), ledgers, outcomes, target, id);
        } else {
            let o = outcomes.first();
            let next = if o.replied {
                ledgers.record(c.target, c.id)
            } else {
                ledgers
            };
            let rest = outcomes.drop_first();
            lemma_replay_records(candidates.drop_first(), next, rest, target, id);
            let last = replay(candidates, ledgers, outcomes)->0;
            if last.of(target).contains(id) {
                if next.of(target).contains(id) {
                    if !ledgers.of(target).contains(id) {
                        assert(outcomes[0].replied && outcomes[0].target == target && outcomes[0].id
                            == id);
                    }
                } else {
                    let i = choose|i: int|
                        0 <= i < rest.len() && #[trigger] rest[i].replied && rest[i].target
                            == target && rest[i].id == id;
                    assert(outcomes[i + 1] == rest[i]);
                }
            }
            if exists|i: int|
                0 <= i < outcomes.len() && #[trigger] outcomes[i].replied && outcomes[i].target
                    == target && outcomes[i].id == id {
                let i = choose|i: int|
                    0 <= i < outcomes.len() && #[trigger] outcomes[i].replied && outcomes[i].target
                        == target && outcomes[i].id == id;
                if i > 0 {
                    assert(rest[i - 1].replied);
                }
            }
        }
    }
}

/// Every reply that a pass attempts goes to an identifier that was not in its
/// ledger when the pass began.
pub proof fn lemma_replay_fresh(
    candidates: Seq<Candidate>,
    ledgers: Ledgers,
    outcomes: Seq<Outcome>,
    i: int,
)
    requires
        replay(candidates, ledgers, outcomes) is Some,
        0 <= i < outcomes.len(),
    ensures
        !ledgers.of(outcomes[i].target).contains(outcomes[i].id),
    decreases candidates.len(),
{
    if candidates.len() > 0 {
        let c = candidates.first();
        if !due(c, ledgers) {
            lemma_replay_fresh(candidates.drop_first(), ledgers, outcomes, i);
        } else if i > 0 {
            let next = if outcomes.first().replied {
                ledgers.record(c.target, c.id)
            } else {
                ledgers
            };
            lemma_replay_fresh(candidates.drop_first(), next, outcomes.drop_first(), i - 1);
        }
    }
}

/// At most once: after a reply to an identifier was delivered, the pass
/// attempts no further reply to it.
pub proof fn lemma_replay_at_most_once(
    candidates: Seq<Candidate>,
    ledgers: Ledgers,
    outcomes: Seq<Outcome>,
    i: int,
    j: int,
)
    requires
        replay(candidates, ledgers, outcomes) is Some,
        0 <= i < j < outcomes.len(),
        outcomes[i].replied,
    ensures
        !(outcomes[j].target == outcomes[i].target && outcomes[j].id == outcomes[i].id),
    decreases candidates.len(),
{
    if candidates.len() > 0 {
        let c = candidates.first();
        if !due(c, ledgers) {
            lemma_replay_at_most_once(candidates.drop_first(), ledgers, outcomes, i, j);
        } else {
            let next = if outcomes.first().replied {
                ledgers.record(c.target, c.id)
            } else {
                ledgers
            };
            let rest = outcomes.drop_first();
            if i == 0 {
                lemma_replay_fresh(candidates.drop_first(), next, rest, j - 1);
            } else {
                lemma_replay_at_most_once(candidates.drop_first(), next, rest, i - 1, j - 1);
            }
        }
    }
}

/// After a pass in which every reply was delivered, none of its candidates
/// is due any more, whatever else has been recorded since.
pub proof fn lemma_replay_settles(
    candidates: Seq<Candidate>,
    ledgers: Ledgers,
    outcomes: Seq<Outcome>,
    later: Ledgers,
    k: int,
)
    requires
        replay(candidates, ledgers, outcomes) is Some,
        forall|i: int| 0 <= i < outcomes.len() ==> (#[trigger] outcomes[i]).replied,
        replay(candidates, ledgers, outcomes)->0.within(later),
        0 <= k < candidates.len(),
    ensures
        !due(candidates[k], later),
    decreases candidates.len(),
{
    let c = candidates.first();
    let rest = candidates.drop_first();
    if !due(c, ledgers) {
        if k == 0 {
            lemma_replay_grows(candidates, ledgers, outcomes);
        } else {
            lemma_replay_settles(rest, ledgers, outcomes, later, k - 1);
        }
    } else {
        let next = ledgers.record(c.target, c.id);
        let rest_outcomes = outcomes.drop_first();
        if k == 0 {
            lemma_replay_grows(rest, next, rest_outcomes);
        } else {
            lemma_replay_settles(rest, next, rest_outcomes, later, k - 1);
        }
    }
}

/// A pass over candidates of which none is due attempts nothing and leaves
/// the ledgers as they are.
pub proof fn lemma_replay_quiet(
    candidates: Seq<Candidate>,
    ledgers: Ledgers,
    outcomes: Seq<Outcome>,
)
    requires
        forall|k: int| 0 <= k < candidates.len() ==> !due(#[trigger] candidates[k], ledgers),
        replay(candidates, ledgers, outcomes) is Some,
    ensures
        outcomes.len() == 0,
        replay(candidates, ledgers, outcomes) == Some(ledgers),
    decreases candidates.len(),
{
    if candidates.len() > 0 {
        let rest = candidates.drop_first();
        lemma_replay_quiet(rest, ledgers, outcomes);
    }
}

/// Running a pass again changes nothing: where every reply of a pass was
/// delivered, a second pass over the same candidates, started from the ledgers
/// that the first one left, attempts no reply and leaves the ledgers as they
/// are.
pub proof fn lemma_second_pass_is_quiet(
    candidates: Seq<Candidate>,
    ledgers: Ledgers,
    first: Seq<Outcome>,
    second: Seq<Outcome>,
)
    requires
        replay(candidates, ledgers, first) is Some,
        forall|i: int| 0 <= i < first.len() ==> (#[trigger] first[i]).replied,
        replay(candidates, replay(candidates, ledgers, first)->0, second) is Some,
    ensures
        second.len() == 0,
        replay(candidates, replay(candidates, ledgers, first)->0, second) == replay(
            candidates,
            ledgers,
            first,
        ),
{
    let after = replay(candidates, ledgers, first)->0;
    assert forall|k: int| 0 <= k < candidates.len() implies !due(
        #[trigger] candidates[k],
        after,
    ) by {
        lemma_replay_settles(candidates, ledgers, first, after, k);
    }
    lemma_replay_quiet(candidates, after, second);
}

/// At most once across passes: what got a reply in one pass gets no further
/// attempt in any later pass, as long as the ledgers handed to the later pass
/// still hold what the earlier pass left in them.
pub proof fn lemma_no_second_reply(
    earlier_candidates: Seq<Candidate>,
    ledgers: Ledgers,
    earlier: Seq<Outcome>,
    later_candidates: Seq<Candidate>,
    kept: Ledgers,
    later: Seq<Outcome>,
    i: int,
    j: int,
)
    requires
        replay(earlier_candidates, ledgers, earlier) is Some,
        replay(earlier_candidates, ledgers, earlier)->0.within(kept),
        replay(later_candidates, kept, later) is Some,
        0 <= i < earlier.len(),
        earlier[i].replied,
        0 <= j < later.len(),
    ensures
        !(later[j].target == earlier[i].target && later[j].id == earlier[i].id),
{
    lemma_replay_records(earlier_candidates, ledgers, earlier, earlier[i].target, earlier[i].id);
    lemma_replay_fresh(later_candidates, kept, later, j);
}

} // verus!
