use rrbot::comment::{flatten, Comment};

fn leaf(id: &str, body: &str) -> Comment {
    Comment { id: id.to_string(), body: body.to_string(), replies: Vec::new() }
}

fn node(id: &str, body: &str, replies: Vec<Comment>) -> Comment {
    Comment { id: id.to_string(), body: body.to_string(), replies }
}

fn pair(body: &str, id: &str) -> (String, String) {
    (body.to_string(), id.to_string())
}

#[test]
fn empty_forest_walks_to_nothing() {
    assert!(flatten(&Vec::new()).is_empty());
}

#[test]
fn single_comment_gives_text_then_identifier() {
    assert_eq!(flatten(&vec![leaf("c1", "hello")]), vec![pair("hello", "c1")]);
}

#[test]
fn walk_is_depth_first_parent_before_children() {
    let forest = vec![
        node(
            "a",
            "A",
            vec![node("a1", "A1", vec![leaf("a1x", "A1X"), leaf("a1y", "A1Y")]), leaf("a2", "A2")],
        ),
        leaf("b", "B"),
        node("c", "C", vec![leaf("c1", "C1")]),
    ];
    let walked = flatten(&forest);
    let ids: Vec<&str> = walked.iter().map(|e| e.1.as_str()).collect();
    assert_eq!(ids, vec!["a", "a1", "a1x", "a1y", "a2", "b", "c", "c1"]);
    let texts: Vec<&str> = walked.iter().map(|e| e.0.as_str()).collect();
    assert_eq!(texts, vec!["A", "A1", "A1X", "A1Y", "A2", "B", "C", "C1"]);
}

#[test]
fn walk_visits_every_node_exactly_once() {
    // Three levels, three children each: 3 + 9 + 27 nodes.
    let mut forest = Vec::new();
    for i in 0..3 {
        let mut middle = Vec::new();
        for j in 0..3 {
            let mut low = Vec::new();
            for k in 0..3 {
                low.push(leaf(&format!("{}{}{}", i, j, k), "low"));
            }
            middle.push(node(&format!("{}{}", i, j), "middle", low));
        }
        forest.push(node(&format!("{}", i), "top", middle));
    }
    let walked = flatten(&forest);
    assert_eq!(walked.len(), 39);
    let mut ids: Vec<String> = walked.into_iter().map(|e| e.1).collect();
    ids.sort();
    ids.dedup();
    assert_eq!(ids.len(), 39);
}

#[test]
fn walk_follows_a_deep_chain() {
    let mut chain = leaf("d199", "bottom");
    for depth in (0..199).rev() {
        chain = node(&format!("d{}", depth), "link", vec![chain]);
    }
    let walked = flatten(&vec![chain]);
    assert_eq!(walked.len(), 200);
    assert_eq!(walked[0].1, "d0");
    assert_eq!(walked[199], pair("bottom", "d199"));
}

#[test]
fn walk_keeps_repeated_identifiers() {
    let forest = vec![leaf("same", "one"), leaf("same", "two")];
    assert_eq!(flatten(&forest), vec![pair("one", "same"), pair("two", "same")]);
}

#[test]
fn clone_copies_the_whole_tree() {
    let tree = node("a", "A", vec![node("b", "B", vec![leaf("c", "C")]), leaf("d", "D")]);
    let copy = tree.clone();
    assert_eq!(copy.id, "a");
    assert_eq!(copy.replies.len(), 2);
    assert_eq!(copy.replies[0].replies[0].body, "C");
    assert_eq!(flatten(&vec![copy]), flatten(&vec![tree]));
}
