use rrbot::matcher::{is_text_match, verdict_of, Matcher, PATTERN};

fn asks(text: &str) -> bool {
    is_text_match(text).unwrap()
}

#[test]
fn question_anywhere_in_the_text_matches() {
    assert!(asks("what is the rr?"));
    assert!(asks("WHAT IS THE RR?"));
    assert!(asks("hello there, what is the rr? thanks"));
    assert!(asks("this is what is the rr?"));
    assert!(asks("so I did what is the rr? twice"));
    assert!(asks("line one\nWhat Is The Rr?\nline three"));
}

#[test]
fn quoted_question_does_not_match() {
    assert!(!asks("\"what is the rr?\""));
    assert!(!asks("he said \"what is the rr?\" again"));
    assert!(!asks("\"wtf is rr\""));
    assert!(!asks("\"define rr\""));
    assert!(!asks("they wrote \"define rr?\" in the title"));
}

#[test]
fn empty_text_does_not_match() {
    assert!(!asks(""));
    assert!(!Matcher::new().unwrap().is_match(""));
}

#[test]
fn wrapping_a_question_in_quotes_silences_it() {
    for question in ["what is the rr?", "rr?", "define rr", "wat rr", "whats an rr mean."] {
        assert!(asks(question), "{}", question);
        let quoted = format!("\"{}\"", question);
        assert!(!asks(&quoted), "{}", quoted);
    }
}

#[test]
fn quoted_scenario_with_and_without_the_quote_characters() {
    assert!(!asks("\"what is the rr?\""));
    assert!(asks("what is the rr?"));
}

#[test]
fn all_openers_and_links_match() {
    for opener in ["what", "wat", "wtf"] {
        for link in ["", "s", "'s", "`s", "\u{2019}s", " is", " does"] {
            for object in [" rr", " a rr", " an rr", " the rr"] {
                let text = format!("{}{}{}", opener, link, object);
                assert!(asks(&text), "{}", text);
            }
        }
    }
}

#[test]
fn all_endings_match() {
    for ending in ["", " mean", " stand for", " and where do i find it"] {
        for mark in ["", "?", "."] {
            let text = format!("what does the rr{}{}", ending, mark);
            assert!(asks(&text), "{}", text);
        }
    }
}

#[test]
fn apostrophe_variants_are_equivalent() {
    assert!(asks("so what's the rr?"));
    assert!(asks("so what`s the rr?"));
    assert!(asks("so what\u{2019}s the rr?"));
}

#[test]
fn question_running_on_does_not_match() {
    assert!(!asks("what is the rroutine"));
    assert!(!asks("what the rr was asking me to do"));
    assert!(!asks("that is what the rr, among others, is for"));
    assert!(!asks("what is the rr\""));
}

#[test]
fn bare_rr_must_be_the_whole_text() {
    assert!(asks("rr?"));
    assert!(asks("Rr?"));
    assert!(!asks("rr"));
    assert!(!asks("the rr?"));
    assert!(!asks("rr? please"));
}

#[test]
fn unrelated_text_does_not_match() {
    assert!(!asks("Hello World"));
    assert!(!asks("I love the recommended routine"));
    assert!(!asks("what is the weather"));
    assert!(!asks("redefine r r"));
}

#[test]
fn matcher_agrees_with_one_off_match() {
    let matcher = Matcher::new().unwrap();
    for text in ["what is the rr?", "\"what is the rr?\"", "", "define rr", "Hello World"] {
        assert_eq!(matcher.is_match(text), asks(text), "{}", text);
    }
}

#[test]
fn matcher_is_deterministic() {
    let first = Matcher::new().unwrap();
    let second = Matcher::new().unwrap();
    for text in ["what is the rr?", "wtf does an rr stand for?", "nothing to see"] {
        assert_eq!(first.is_match(text), first.is_match(text));
        assert_eq!(first.is_match(text), second.is_match(text));
    }
}

#[test]
fn failed_search_counts_as_no_match() {
    assert!(verdict_of::<()>(Ok(true)));
    assert!(!verdict_of::<()>(Ok(false)));
    assert!(!verdict_of(Err(())));
    assert!(!verdict_of(Err("backtrack limit")));
}

#[test]
fn pattern_is_case_insensitive_from_the_start() {
    assert!(PATTERN.starts_with("(?i)"));
    assert!(asks("DEFINE RR"));
    assert!(asks("WTF IS AN RR"));
}
