use rrbot::comment::Comment;
use rrbot::config::Config;
use rrbot::ledger::Ledger;
use rrbot::pass::{read_feed, run_pass, settle, Attempt};
use rrbot::post::Post;
use rrbot::reddit::{reply_text, AppError, RedditApp, REPLY};
use rrbot::replay::Target;
use rrbot::run;
use std::cell::RefCell;

fn comment(id: &str, body: &str, replies: Vec<Comment>) -> Comment {
    Comment { id: id.to_string(), body: body.to_string(), replies }
}

fn post(id: &str, body: &str, comments: Vec<Comment>) -> Post {
    Post::from_members(Some(id.to_string()), Some("title".to_string()), Some(body.to_string()))
        .unwrap()
        .with_comments(Ok(comments))
}

fn post_json(id: &str, body: &str) -> String {
    format!("{{\"id\": \"{}\", \"title\": \"a title\", \"selftext\": \"{}\"}}", id, body)
}

fn config(hot_take: u8, monitor_only: bool) -> Config {
    Config::from_members(
        Some("client_id".to_string()),
        Some("client_secret".to_string()),
        Some("username".to_string()),
        Some("password".to_string()),
        Some(hot_take as u64),
        Some("inbox.db".to_string()),
        Some("posts.db".to_string()),
        Some("comments.db".to_string()),
        Some("sub".to_string()),
        Some(monitor_only),
    )
    .unwrap()
}

/// A forum with canned data that writes down every reply it is asked for.
struct Forum {
    feed: Vec<String>,
    trees: Vec<(String, Vec<Comment>)>,
    failing: Vec<String>,
    replies: RefCell<Vec<String>>,
}

impl Forum {
    fn new() -> Forum {
        Forum { feed: Vec::new(), trees: Vec::new(), failing: Vec::new(), replies: RefCell::new(Vec::new()) }
    }

    fn failing_on(ids: &[&str]) -> Forum {
        let mut forum = Forum::new();
        forum.failing = ids.iter().map(|id| id.to_string()).collect();
        forum
    }

    fn asked(&self) -> Vec<String> {
        self.replies.borrow().clone()
    }
}

impl RedditApp for Forum {
    fn get_comment_tree(&self, post_id: &str) -> Result<Vec<Comment>, AppError> {
        match self.trees.iter().find(|(id, _)| id == post_id) {
            Some((_, tree)) => Ok(tree.clone()),
            None => Err(AppError { message: "no such post".to_string() }),
        }
    }

    fn get_posts(&self) -> Vec<String> {
        self.feed.clone()
    }

    fn reply(&self, id: &str) -> Result<(), AppError> {
        self.replies.borrow_mut().push(id.to_string());
        if self.failing.iter().any(|f| f == id) {
            Err(AppError { message: format!("cannot reach {}", id) })
        } else {
            Ok(())
        }
    }
}

fn summary(attempts: &[Attempt]) -> Vec<(Target, String, bool)> {
    attempts.iter().map(|a| (a.target, a.id.clone(), a.failure.is_none())).collect()
}

#[test]
fn matching_post_is_answered_once_across_passes() {
    let forum = Forum::new();
    let posts = vec![post("post1", "define rr?", Vec::new())];
    let mut post_ledger = Ledger::new();
    let mut comment_ledger = Ledger::new();

    let first = run_pass(&posts, &mut post_ledger, &mut comment_ledger, &forum).unwrap();
    assert_eq!(forum.asked(), vec!["post1"]);
    assert_eq!(summary(&first.attempts), vec![(Target::Post, "post1".to_string(), true)]);
    assert!(post_ledger.contains("post1"));
    assert_eq!(post_ledger.len(), 1);
    assert_eq!(comment_ledger.len(), 0);

    let second = run_pass(&posts, &mut post_ledger, &mut comment_ledger, &forum).unwrap();
    assert!(second.attempts.is_empty());
    assert_eq!(forum.asked(), vec!["post1"]);
    assert_eq!(post_ledger.len(), 1);
}

#[test]
fn second_pass_over_the_same_posts_replies_to_nothing() {
    let forum = Forum::new();
    let posts = vec![
        post("post1", "what is the rr?", vec![comment("c1", "wat rr", vec![comment("c2", "rr?", Vec::new())])]),
        post("post2", "nothing here", vec![comment("c3", "define rr", Vec::new())]),
    ];
    let mut post_ledger = Ledger::new();
    let mut comment_ledger = Ledger::new();

    let first = run_pass(&posts, &mut post_ledger, &mut comment_ledger, &forum).unwrap();
    assert_eq!(first.attempts.len(), 4);
    let after_first = (post_ledger.save(), comment_ledger.save());

    let second = run_pass(&posts, &mut post_ledger, &mut comment_ledger, &forum).unwrap();
    assert!(second.attempts.is_empty());
    assert_eq!(forum.asked().len(), 4);
    assert_eq!((post_ledger.save(), comment_ledger.save()), after_first);
}

#[test]
fn matching_child_of_a_silent_comment_is_the_only_match() {
    let tree = vec![comment("root", "Hello World", vec![comment("child", "but what is the Rr?", Vec::new())])];
    let forum = Forum::new();
    let with_tree = post("post1", "no question", tree);
    assert_eq!(with_tree.get_matching_comments().unwrap(), vec!["child"]);

    let mut post_ledger = Ledger::new();
    let mut comment_ledger = Ledger::new();
    let report = run_pass(&vec![with_tree], &mut post_ledger, &mut comment_ledger, &forum).unwrap();
    assert_eq!(summary(&report.attempts), vec![(Target::Comment, "child".to_string(), true)]);
    assert_eq!(comment_ledger.save(), "child\n");
    assert_eq!(post_ledger.len(), 0);
}

#[test]
fn matching_parent_does_not_hide_matching_children() {
    let tree = vec![comment(
        "a",
        "what is the rr?",
        vec![comment("b", "yes, what is the rr?", vec![comment("c", "define rr", Vec::new())])],
    )];
    let forum = Forum::new();
    let mut post_ledger = Ledger::new();
    let mut comment_ledger = Ledger::new();
    let report =
        run_pass(&vec![post("p", "", tree)], &mut post_ledger, &mut comment_ledger, &forum).unwrap();
    assert_eq!(forum.asked(), vec!["a", "b", "c"]);
    assert_eq!(report.attempts.len(), 3);
}

#[test]
fn pass_takes_posts_in_order_and_each_post_before_its_comments() {
    let forum = Forum::new();
    let posts = vec![
        post("post1", "rr?", vec![comment("c1", "rr?", Vec::new()), comment("c2", "rr?", Vec::new())]),
        post("post2", "rr?", vec![comment("c3", "rr?", Vec::new())]),
    ];
    let mut post_ledger = Ledger::new();
    let mut comment_ledger = Ledger::new();
    run_pass(&posts, &mut post_ledger, &mut comment_ledger, &forum).unwrap();
    assert_eq!(forum.asked(), vec!["post1", "c1", "c2", "post2", "c3"]);
    assert_eq!(post_ledger.save(), "post1\npost2\n");
    assert_eq!(comment_ledger.save(), "c1\nc2\nc3\n");
}

#[test]
fn failed_reply_is_reported_not_recorded_and_tried_again() {
    let forum = Forum::failing_on(&["post1", "c2"]);
    let posts = vec![post(
        "post1",
        "what is the rr?",
        vec![comment("c1", "rr?", Vec::new()), comment("c2", "rr?", Vec::new()), comment("c3", "rr?", Vec::new())],
    )];
    let mut post_ledger = Ledger::new();
    let mut comment_ledger = Ledger::new();

    let report = run_pass(&posts, &mut post_ledger, &mut comment_ledger, &forum).unwrap();
    assert_eq!(
        summary(&report.attempts),
        vec![
            (Target::Post, "post1".to_string(), false),
            (Target::Comment, "c1".to_string(), true),
            (Target::Comment, "c2".to_string(), false),
            (Target::Comment, "c3".to_string(), true),
        ]
    );
    assert_eq!(report.attempts[0].failure.as_deref(), Some("cannot reach post1"));
    assert_eq!(report.attempts[2].failure.as_deref(), Some("cannot reach c2"));
    assert_eq!(post_ledger.len(), 0);
    assert_eq!(comment_ledger.save(), "c1\nc3\n");

    let healthy = Forum::new();
    let again = run_pass(&posts, &mut post_ledger, &mut comment_ledger, &healthy).unwrap();
    assert_eq!(healthy.asked(), vec!["post1", "c2"]);
    assert_eq!(again.attempts.len(), 2);
    assert_eq!(post_ledger.save(), "post1\n");
    assert_eq!(comment_ledger.save(), "c1\nc3\nc2\n");
}

#[test]
fn answered_identifiers_are_passed_over() {
    let forum = Forum::new();
    let posts = vec![post("post1", "rr?", vec![comment("c1", "rr?", Vec::new()), comment("c2", "rr?", Vec::new())])];
    let mut post_ledger = Ledger::load(Some("post1\n"));
    let mut comment_ledger = Ledger::load(Some("c2\n"));
    run_pass(&posts, &mut post_ledger, &mut comment_ledger, &forum).unwrap();
    assert_eq!(forum.asked(), vec!["c1"]);
    assert_eq!(comment_ledger.save(), "c2\nc1\n");
}

#[test]
fn ledger_is_updated_within_the_pass() {
    let forum = Forum::new();
    let posts = vec![
        post("post1", "rr?", vec![comment("c1", "rr?", Vec::new()), comment("c1", "rr?", Vec::new())]),
        post("post1", "rr?", Vec::new()),
    ];
    let mut post_ledger = Ledger::new();
    let mut comment_ledger = Ledger::new();
    run_pass(&posts, &mut post_ledger, &mut comment_ledger, &forum).unwrap();
    assert_eq!(forum.asked(), vec!["post1", "c1"]);
}

#[test]
fn posts_and_comments_have_separate_ledgers() {
    let forum = Forum::new();
    let posts = vec![post("same", "rr?", vec![comment("same", "rr?", Vec::new())])];
    let mut post_ledger = Ledger::new();
    let mut comment_ledger = Ledger::new();
    let report = run_pass(&posts, &mut post_ledger, &mut comment_ledger, &forum).unwrap();
    assert_eq!(
        summary(&report.attempts),
        vec![(Target::Post, "same".to_string(), true), (Target::Comment, "same".to_string(), true)]
    );
    assert!(post_ledger.contains("same") && comment_ledger.contains("same"));
}

#[test]
fn pass_never_removes_from_a_ledger() {
    let forum = Forum::failing_on(&["post1"]);
    let posts = vec![post("post1", "rr?", Vec::new()), post("post2", "no", Vec::new())];
    let mut post_ledger = Ledger::load(Some("old1\nold2\n"));
    let mut comment_ledger = Ledger::load(Some("old3\n"));
    run_pass(&posts, &mut post_ledger, &mut comment_ledger, &forum).unwrap();
    assert_eq!(post_ledger.save(), "old1\nold2\n");
    assert_eq!(comment_ledger.save(), "old3\n");
}

#[test]
fn pass_over_nothing_does_nothing() {
    let forum = Forum::new();
    let mut post_ledger = Ledger::new();
    let mut comment_ledger = Ledger::new();
    let report = run_pass(&Vec::new(), &mut post_ledger, &mut comment_ledger, &forum).unwrap();
    assert!(report.attempts.is_empty() && report.skipped.is_empty());
    assert!(forum.asked().is_empty());
}

#[test]
fn run_reads_the_feed_and_passes_over_it() {
    let mut forum = Forum::new();
    forum.feed = vec![post_json("post1", "what is the rr?"), post_json("post2", "hello")];
    forum.trees = vec![
        ("post1".to_string(), vec![comment("c1", "Hello World", vec![comment("c2", "wtf is the rr", Vec::new())])]),
    ];
    let mut posts_db = Ledger::new();
    let mut comments_db = Ledger::new();
    let report = run(&forum, &config(50, true), &mut posts_db, &mut comments_db).unwrap();
    assert_eq!(forum.asked(), vec!["post1", "c2"]);
    assert_eq!(report.attempts.len(), 2);
    assert!(report.skipped.is_empty());
    assert_eq!(posts_db.save(), "post1\n");
    assert_eq!(comments_db.save(), "c2\n");

    let again = run(&forum, &config(50, true), &mut posts_db, &mut comments_db).unwrap();
    assert!(again.attempts.is_empty());
    assert_eq!(forum.asked().len(), 2);
}

#[test]
fn run_looks_at_no_more_posts_than_configured() {
    let mut forum = Forum::new();
    forum.feed = (0..10).map(|i| post_json(&format!("post{}", i), "rr?")).collect();
    let mut posts_db = Ledger::new();
    let mut comments_db = Ledger::new();
    let report = run(&forum, &config(3, false), &mut posts_db, &mut comments_db).unwrap();
    assert_eq!(forum.asked(), vec!["post0", "post1", "post2"]);
    assert_eq!(report.attempts.len(), 3);

    let none = run(&forum, &config(0, false), &mut posts_db, &mut comments_db).unwrap();
    assert!(none.attempts.is_empty());
    assert_eq!(posts_db.len(), 3);
}

#[test]
fn run_skips_a_post_that_cannot_be_read() {
    let mut forum = Forum::new();
    forum.feed = vec![
        post_json("post0", "rr?"),
        "{\"id\": \"post1\", \"selftext\": \"rr?\"}".to_string(),
        "not json".to_string(),
        post_json("post3", "rr?"),
    ];
    let mut posts_db = Ledger::new();
    let mut comments_db = Ledger::new();
    let report = run(&forum, &config(4, false), &mut posts_db, &mut comments_db).unwrap();
    assert_eq!(forum.asked(), vec!["post0", "post3"]);
    let skipped: Vec<(usize, &str)> = report.skipped.iter().map(|s| (s.index, s.field.as_str())).collect();
    assert_eq!(skipped, vec![(1, "title"), (2, "id")]);
}

#[test]
fn feed_is_read_in_order_up_to_the_limit() {
    let forum = Forum::new();
    let feed = vec![
        post_json("post0", "zero"),
        "{}".to_string(),
        post_json("post2", "two"),
        "[]".to_string(),
        post_json("post4", "four"),
    ];
    let (posts, skipped) = read_feed(&feed, 4, &forum);
    let ids: Vec<&str> = posts.iter().map(|p| p.id.as_str()).collect();
    assert_eq!(ids, vec!["post0", "post2"]);
    assert_eq!(posts[1].selftext, "two");
    assert_eq!(posts[1].title, "a title");
    let left_out: Vec<(usize, &str)> = skipped.iter().map(|s| (s.index, s.field.as_str())).collect();
    assert_eq!(left_out, vec![(1, "id"), (3, "id")]);

    let (posts, skipped) = read_feed(&feed, 0, &forum);
    assert!(posts.is_empty() && skipped.is_empty());
    let (posts, skipped) = read_feed(&feed, 255, &forum);
    assert_eq!((posts.len(), skipped.len()), (3, 2));
}

#[test]
fn feed_takes_a_post_without_reachable_comments_as_bare() {
    let mut forum = Forum::new();
    forum.feed = vec![post_json("post1", "text"), post_json("post2", "text")];
    forum.trees = vec![("post2".to_string(), vec![comment("c1", "hi", Vec::new())])];
    let (posts, skipped) = read_feed(&forum.get_posts(), 255, &forum);
    assert!(skipped.is_empty());
    assert_eq!(posts.len(), 2);
    assert!(posts[0].comments().is_empty());
    assert_eq!(posts[1].comments().len(), 1);
    assert_eq!(posts[1].comments()[0].id, "c1");
}

#[test]
fn monitoring_sends_no_text() {
    assert_eq!(reply_text(&config(1, true)), None);
    assert_eq!(reply_text(&config(1, false)), Some(REPLY));
    assert!(REPLY.starts_with("The RR is the [Recommended Routine]"));
    assert!(REPLY.ends_with("^(I am a bot, flex-beep-boop)"));
}

#[test]
fn delivered_reply_is_recorded_and_reported() {
    let mut ledger = Ledger::load(Some("old\n"));
    let mut attempts = Vec::new();
    settle(Target::Comment, "c1", Ok(()), &mut ledger, &mut attempts);
    assert_eq!(summary(&attempts), vec![(Target::Comment, "c1".to_string(), true)]);
    assert_eq!(attempts[0].failure, None);
    assert_eq!(ledger.save(), "old\nc1\n");

    settle(Target::Comment, "old", Ok(()), &mut ledger, &mut attempts);
    assert_eq!(attempts.len(), 2);
    assert_eq!(ledger.save(), "old\nc1\n");
}

#[test]
fn failed_reply_is_reported_with_its_reason_and_not_recorded() {
    let mut ledger = Ledger::load(Some("old\n"));
    let mut attempts = Vec::new();
    let refused = Err(AppError { message: "rate limited".to_string() });
    settle(Target::Post, "t3_x", refused, &mut ledger, &mut attempts);
    assert_eq!(summary(&attempts), vec![(Target::Post, "t3_x".to_string(), false)]);
    assert_eq!(attempts[0].failure.as_deref(), Some("rate limited"));
    assert!(!ledger.contains("t3_x"));
    assert_eq!(ledger.save(), "old\n");
}
