//! A post of the feed, with the comments made on it.

use crate::comment::{flatten, walk, Comment};
use crate::json::{json_text_member, text_member, text_of};
use crate::matcher::{is_question, is_text_match, pattern_compiles, Matcher, PatternError};
use crate::reddit::{AppError, RedditApp};
use vstd::prelude::*;
use vstd::string::StringExecFns;

verus! {

/// A post of the feed.
#[derive(Debug)]
pub struct Post {
    pub id: String,
    pub title: String,
    pub selftext: String,
    /// The comments on the post, as they were when the post was read.
    pub comments: Vec<Comment>,
}

/// A member is absent from the JSON text of a post, or is not a string.
#[derive(Debug)]
pub struct PostError {
    /// The name of the first such member.
    pub field: String,
}

/// The first of the three members of a post that is absent; `None` when all
/// three are there.
pub open spec fn first_absent(
    id: Option<Seq<char>>,
    title: Option<Seq<char>>,
    selftext: Option<Seq<char>>,
) -> Option<Seq<char>> {
    if id is None {
        Some("id"@)
    } else if title is None {
        Some("title"@)
    } else if selftext is None {
        Some("selftext"@)
    } else {
        None
    }
}

/// The first member of a post that cannot be read from `json`.
pub open spec fn first_unreadable(json: Seq<char>) -> Option<Seq<char>> {
    first_absent(
        json_text_member(json, "id"@),
        json_text_member(json, "title"@),
        json_text_member(json, "selftext"@),
    )
}

/// The identifiers of the entries whose text asks what the RR is, in the
/// order of the entries.
pub open spec fn matching_ids(entries: Seq<(Seq<char>, Seq<char>)>) -> Seq<Seq<char>> {
    entries.filter(|e: (Seq<char>, Seq<char>)| is_question(e.0)).map_values(
        |e: (Seq<char>, Seq<char>)| e.1,
    )
}

/// Taking one more entry into account adds its identifier if its text asks
/// the question, and nothing otherwise.
pub proof fn lemma_matching_ids_push(
    entries: Seq<(Seq<char>, Seq<char>)>,
    entry: (Seq<char>, Seq<char>),
)
    ensures
        matching_ids(entries.push(entry)) == if is_question(entry.0) {
            matching_ids(entries).push(entry.1)
        } else {
            matching_ids(entries)
        },
{
    reveal(Seq::filter);
    let all = entries.push(entry);
    assert(all.drop_last() == entries);
}

fn absent(field: &str) -> (e: PostError)
    ensures
        e.field@ == field@,
{
    PostError { field: String::from_str(field) }
}

impl Post {
    /// Reads a post from the JSON text of its data, and fetches the comments
    /// on it. A post whose comments cannot be fetched is taken to have none.
    pub fn new<T: RedditApp>(json: &str, reddit: &T) -> (r: Result<Post, PostError>)
        ensures
            match r {
                Ok(post) => {
                    &&& first_unreadable(json@) is None
                    &&& json_text_member(json@, "id"@) == Some(post.id@)
                    &&& json_text_member(json@, "title"@) == Some(post.title@)
                    &&& json_text_member(json@, "selftext"@) == Some(post.selftext@)
                },
                Err(e) => first_unreadable(json@) == Some(e.field@),
            },
    {
        let members = Post::from_members(
            text_member(json, "id"),
            text_member(json, "title"),
            text_member(json, "selftext"),
        );
        match members {
            Ok(post) => {
                let tree = reddit.get_comment_tree(post.id.as_str());
                Ok(post.with_comments(tree))
            },
            Err(e) => Err(e),
        }
    }

    /// Puts a post together from what was found of its members. All three
    /// must be there. The post has no comments yet.
    pub fn from_members(id: Option<String>, title: Option<String>, selftext: Option<String>) -> (r:
        Result<Post, PostError>)
        ensures
            match r {
                Ok(post) => {
                    &&& id == Some(post.id)
                    &&& title == Some(post.title)
                    &&& selftext == Some(post.selftext)
                    &&& post.comments@ == Seq::<Comment>::empty()
                },
                Err(e) => first_absent(
                    text_of(id),
                    text_of(title),
                    text_of(selftext),
                ) == Some(e.field@),
            },
    {
        let id = match id {
            Some(v) => v,
            None => return Err(absent("id")),
        };
        let title = match title {
            Some(v) => v,
            None => return Err(absent("title")),
        };
        let selftext = match selftext {
            Some(v) => v,
            None => return Err(absent("selftext")),
        };
        Ok(Post { id, title, selftext, comments: Vec::new() })
    }

    /// The post with the comments that were fetched for it, or with none
    /// where fetching failed.
    pub fn with_comments(self, tree: Result<Vec<Comment>, AppError>) -> (post: Post)
        ensures
            post.id == self.id,
            post.title == self.title,
            post.selftext == self.selftext,
            post.comments@ == match tree {
                Ok(comments) => comments@,
                Err(_) => Seq::<Comment>::empty(),
            },
    {
        let comments = match tree {
            Ok(comments) => comments,
            Err(_) => Vec::new(),
        };
        Post { id: self.id, title: self.title, selftext: self.selftext, comments }
    }

    /// The comments on the post: the top-level ones, each with its replies.
    pub fn comments(&self) -> (comments: &Vec<Comment>)
        ensures
            comments == &self.comments,
    {
        &self.comments
    }

    /// Whether the text of the post asks what the RR is.
    pub fn is_match(&self) -> (r: Result<bool, PatternError>)
        ensures
            r is Ok <==> pattern_compiles(),
            r matches Ok(matched) ==> matched == is_question(self.selftext@),
    {
        is_text_match(self.selftext.as_str())
    }

    /// The identifiers of the comments, at any depth, whose text asks what the
    /// RR is. A comment is judged by its own text alone: whether the comment
    /// it replies to matched makes no difference.
    pub fn get_matching_comments(&self) -> (r: Result<Vec<String>, PatternError>)
        ensures
            r is Ok <==> pattern_compiles(),
            r matches Ok(ids) ==> ids.deep_view() == matching_ids(walk(self.comments@)),
    {
        let matcher = match Matcher::new() {
            Ok(matcher) => matcher,
            Err(e) => return Err(e),
        };
        let entries = flatten(&self.comments);
        let mut ids: Vec<String> = Vec::new();
        let mut i: usize = 0;
        assert(matching_ids(Seq::empty()) == Seq::<Seq<char>>::empty()) by {
            reveal(Seq::filter);
        }
        while i < entries.len()
            invariant
                i <= entries.len(),
                ids.deep_view() == matching_ids(entries.deep_view().take(i as int)),
            decreases entries.len() - i,
        {
            let ghost upto = entries.deep_view().take(i as int);
            let ghost entry = entries.deep_view()[i as int];
            proof {
                lemma_matching_ids_push(upto, entry);
                assert(upto.push(entry) == entries.deep_view().take(i + 1));
            }
            if matcher.is_match(entries[i].0.as_str()) {
                ids.push(entries[i].1.clone());
            }
            i += 1;
        }
        assert(entries.deep_view().take(entries.len() as int) == entries.deep_view());
        Ok(ids)
    }
}

} // verus!
