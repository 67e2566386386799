//! Comment trees and the walk that flattens them.

use vstd::prelude::*;

verus! {

/// One comment of a post, with the replies made to it.
#[derive(Debug)]
pub struct Comment {
    pub id: String,
    pub body: String,
    pub replies: Vec<Comment>,
}

/// Whether two comments read the same: the same identifier and text, and as
/// many replies, which read the same one by one.
pub open spec fn same_comment(a: Comment, b: Comment) -> bool
    decreases a,
{
    &&& a.id@ == b.id@
    &&& a.body@ == b.body@
    &&& a.replies@.len() == b.replies@.len()
    &&& forall|i: int|
        0 <= i < a.replies@.len() ==> same_comment(#[trigger] a.replies@[i], b.replies@[i])
}

impl Clone for Comment {
    /// A copy of the comment with copies of all its replies.
    fn clone(&self) -> (copy: Comment)
        ensures
            same_comment(*self, copy),
        decreases self,
    {
        let mut replies: Vec<Comment> = Vec::new();
        let mut i: usize = 0;
        while i < self.replies.len()
            invariant
                i <= self.replies.len(),
                replies@.len() == i,
                forall|k: int|
                    0 <= k < i ==> same_comment(#[trigger] self.replies@[k], replies@[k]),
            decreases self.replies.len() - i,
        {
            let reply = self.replies[i].clone();
            replies.push(reply);
            i += 1;
        }
        Comment { id: self.id.clone(), body: self.body.clone(), replies }
    }
}

/// What the walk reports of a single comment: its text, then its identifier.
pub open spec fn entry_of(c: Comment) -> (Seq<char>, Seq<char>) {
    (c.body@, c.id@)
}

/// The comment itself, then everything below it.
pub open spec fn walk_comment(c: Comment) -> Seq<(Seq<char>, Seq<char>)>
    decreases c, 1int,
{
    seq![entry_of(c)] + walk(c.replies@)
}

/// Depth-first, parent before children, siblings in the order given.
pub open spec fn walk(forest: Seq<Comment>) -> Seq<(Seq<char>, Seq<char>)>
    decreases forest, 0int,
{
    if forest.len() == 0 {
        Seq::empty()
    } else {
        walk(forest.drop_last()) + walk_comment(forest.last())
    }
}

/// The number of comments in a forest, replies at every depth included.
pub open spec fn node_count(forest: Seq<Comment>) -> nat
    decreases forest,
{
    if forest.len() == 0 {
        0
    } else {
        node_count(forest.drop_last()) + 1 + node_count(forest.last().replies@)
    }
}

fn flatten_into(forest: &Vec<Comment>, out: &mut Vec<(String, String)>)
    ensures
        final(out).deep_view() == old(out).deep_view() + walk(forest@),
    decreases forest,
{
    let ghost before = out.deep_view();
    let mut i: usize = 0;
    while i < forest.len()
        invariant
            i <= forest.len(),
            out.deep_view() == before + walk(forest@.take(i as int)),
        decreases forest.len() - i,
    {
        let c = &forest[i];
        let ghost so_far = out.deep_view();
        out.push((c.body.clone(), c.id.clone()));
        assert(out.deep_view() == so_far + seq![entry_of(*c)]);
        flatten_into(&c.replies, out);
        proof {
            let next = forest@.take(i + 1);
            assert(next.drop_last() == forest@.take(i as int));
            assert(walk(next) == walk(forest@.take(i as int)) + walk_comment(*c));
        }
        i += 1;
    }
    assert(forest@.take(forest.len() as int) == forest@);
}

/// Flattens a comment forest into `(text, identifier)` pairs, one per comment
/// and in walking order.
pub fn flatten(forest: &Vec<Comment>) -> (out: Vec<(String, String)>)
    ensures
        out.deep_view() == walk(forest@),
        out@.len() == node_count(forest@),
{
    let mut out: Vec<(String, String)> = Vec::new();
    flatten_into(forest, &mut out);
    proof {
        lemma_walk_len(forest@);
    }
    out
}

/// The comment that a path leads to. A path names a top-level comment by its
/// place among the top-level comments, then a reply to it by its place among
/// the replies, and so on down.
pub open spec fn node_at(forest: Seq<Comment>, path: Seq<int>) -> Option<Comment>
    decreases path.len(),
{
    if path.len() == 0 || !(0 <= path[0] < forest.len()) {
        None
    } else if path.len() == 1 {
        Some(forest[path[0]])
    } else {
        node_at(forest[path[0]].replies@, path.drop_first())
    }
}

/// The place in the walk of the comment that a path leads to: after all that
/// stands before it among its siblings, and after the comments above it.
pub open spec fn position(forest: Seq<Comment>, path: Seq<int>) -> int
    decreases path.len(),
{
    if path.len() == 0 {
        0
    } else if path.len() == 1 {
        node_count(forest.take(path[0])) as int
    } else {
        node_count(forest.take(path[0])) + 1 + position(
            forest[path[0]].replies@,
            path.drop_first(),
        )
    }
}

/// Comments that read the same walk the same.
pub proof fn lemma_same_comment_walk(a: Comment, b: Comment)
    requires
        same_comment(a, b),
    ensures
        walk_comment(a) == walk_comment(b),
    decreases a, 1int,
{
    lemma_same_replies_walk(a.replies@, b.replies@, a.replies@.len() as int);
    assert(a.replies@.take(a.replies@.len() as int) == a.replies@);
    assert(b.replies@.take(a.replies@.len() as int) == b.replies@);
}

/// Forests whose first `n` comments read the same one by one walk the same
/// that far.
proof fn lemma_same_replies_walk(a: Seq<Comment>, b: Seq<Comment>, n: int)
    requires
        0 <= n <= a.len(),
        n <= b.len(),
        forall|i: int| 0 <= i < n ==> same_comment(#[trigger] a[i], b[i]),
    ensures
        walk(a.take(n)) == walk(b.take(n)),
    decreases a, 0int, n,
{
    if n > 0 {
        lemma_same_replies_walk(a, b, n - 1);
        lemma_same_comment_walk(a[n - 1], b[n - 1]);
        assert(a.take(n).drop_last() == a.take(n - 1));
        assert(b.take(n).drop_last() == b.take(n - 1));
    }
}

/// Walking two forests one after the other is walking them as one.
pub proof fn lemma_walk_concat(left: Seq<Comment>, right: Seq<Comment>)
    ensures
        walk(left + right) == walk(left) + walk(right),
        node_count(left + right) == node_count(left) + node_count(right),
    decreases right.len(),
{
    if right.len() > 0 {
        assert((left + right).drop_last() == left + right.drop_last());
        lemma_walk_concat(left, right.drop_last());
    }
}

/// The walk has one entry for each comment of the forest.
pub proof fn lemma_walk_len(forest: Seq<Comment>)
    ensures
        walk(forest).len() == node_count(forest),
    decreases forest,
{
    if forest.len() > 0 {
        lemma_walk_len(forest.drop_last());
        lemma_walk_len(forest.last().replies@);
        assert(walk_comment(forest.last()).len() == 1 + walk(forest.last().replies@).len());
    }
}

/// A forest seen from one of its top-level comments: what stands before it,
/// the comment with all below it, and what stands after it.
proof fn lemma_walk_around(forest: Seq<Comment>, i: int)
    requires
        0 <= i < forest.len(),
    ensures
        walk(forest) == walk(forest.take(i)) + walk_comment(forest[i]) + walk(forest.skip(i + 1)),
        node_count(forest) == node_count(forest.take(i)) + 1 + node_count(forest[i].replies@)
            + node_count(forest.skip(i + 1)),
        node_count(forest.take(i + 1)) == node_count(forest.take(i)) + 1 + node_count(
            forest[i].replies@,
        ),
{
    let upto = forest.take(i + 1);
    assert(upto.drop_last() == forest.take(i));
    assert(forest == upto + forest.skip(i + 1));
    lemma_walk_concat(upto, forest.skip(i + 1));
}

/// The more of a forest is taken, the more comments there are.
proof fn lemma_node_count_take(forest: Seq<Comment>, i: int, j: int)
    requires
        0 <= i <= j <= forest.len(),
    ensures
        node_count(forest.take(i)) <= node_count(forest.take(j)),
{
    assert(forest.take(j) == forest.take(i) + forest.subrange(i, j));
    lemma_walk_concat(forest.take(i), forest.subrange(i, j));
}

/// A comment has its place in the walk within the part that belongs to the
/// top-level comment it stands under.
proof fn lemma_position_bounds(forest: Seq<Comment>, path: Seq<int>)
    requires
        node_at(forest, path) is Some,
    ensures
        node_count(forest.take(path[0])) <= position(forest, path) < node_count(
            forest.take(path[0] + 1),
        ),
        position(forest, path) < node_count(forest),
    decreases path.len(),
{
    let i = path[0];
    lemma_walk_around(forest, i);
    lemma_node_count_take(forest, i + 1, forest.len() as int);
    if path.len() > 1 {
        let below = forest[i].replies@;
        lemma_position_bounds(below, path.drop_first());
    }
}

/// Completeness: every comment of the forest is in the walk, at its place.
pub proof fn lemma_walk_visits(forest: Seq<Comment>, path: Seq<int>)
    requires
        node_at(forest, path) is Some,
    ensures
        0 <= position(forest, path) < walk(forest).len(),
        walk(forest)[position(forest, path)] == entry_of(node_at(forest, path)->0),
    decreases path.len(),
{
    let i = path[0];
    lemma_walk_around(forest, i);
    lemma_walk_len(forest);
    lemma_walk_len(forest.take(i));
    lemma_position_bounds(forest, path);
    if path.len() > 1 {
        let below = forest[i].replies@;
        let inner = position(below, path.drop_first());
        lemma_walk_visits(below, path.drop_first());
        assert(walk(forest)[position(forest, path)] == walk(below)[inner]);
    }
}

/// No comment is visited in the place of another: two comments of the forest
/// have two places in the walk.
pub proof fn lemma_walk_visits_once(forest: Seq<Comment>, first: Seq<int>, second: Seq<int>)
    requires
        node_at(forest, first) is Some,
        node_at(forest, second) is Some,
        first != second,
    ensures
        position(forest, first) != position(forest, second),
    decreases first.len(),
{
    let i = first[0];
    let j = second[0];
    lemma_position_bounds(forest, first);
    lemma_position_bounds(forest, second);
    if i < j {
        lemma_node_count_take(forest, i + 1, j);
    } else if j < i {
        lemma_node_count_take(forest, j + 1, i);
    } else if first.len() == 1 && second.len() == 1 {
        assert(first == second);
    } else if first.len() > 1 && second.len() > 1 {
        assert(first.drop_first() != second.drop_first()) by {
            if first.drop_first() == second.drop_first() {
                assert(first == seq![i] + first.drop_first());
                assert(second == seq![j] + second.drop_first());
            }
        }
        lemma_walk_visits_once(forest[i].replies@, first.drop_first(), second.drop_first());
    } else if first.len() > 1 {
        lemma_position_bounds(forest[i].replies@, first.drop_first());
    } else {
        lemma_position_bounds(forest[i].replies@, second.drop_first());
    }
}

/// Nothing but comments of the forest is visited: every place in the walk is
/// that of a comment.
pub proof fn lemma_walk_visits_only(forest: Seq<Comment>, k: int) -> (path: Seq<int>)
    requires
        0 <= k < walk(forest).len(),
    ensures
        node_at(forest, path) is Some,
        position(forest, path) == k,
    decreases forest,
{
    let last = forest.len() - 1;
    let init = forest.drop_last();
    lemma_walk_len(init);
    if k < walk(init).len() {
        let path = lemma_walk_visits_only(init, k);
        lemma_same_under_take(forest, last, path);
        path
    } else if k == walk(init).len() {
        seq![last]
    } else {
        let below = forest[last].replies@;
        assert(walk_comment(forest[last]).len() == 1 + walk(below).len());
        let inner = lemma_walk_visits_only(below, k - walk(init).len() - 1);
        let path = seq![last] + inner;
        assert(path.drop_first() == inner);
        path
    }
}

/// A path into the first comments of a forest leads to the same comment, at
/// the same place, in the forest as a whole.
proof fn lemma_same_under_take(forest: Seq<Comment>, n: int, path: Seq<int>)
    requires
        0 <= n <= forest.len(),
        node_at(forest.take(n), path) is Some,
    ensures
        node_at(forest, path) == node_at(forest.take(n), path),
        position(forest, path) == position(forest.take(n), path),
{
    let i = path[0];
    assert(forest.take(n).take(i) == forest.take(i));
}

} // verus!
