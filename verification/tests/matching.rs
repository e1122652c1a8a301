//! The prefix matcher: exactly the vocabulary entries starting with the
//! prefix, the whole vocabulary for the empty prefix, and idempotent
//! completion on a unique match.

use ger::matcher::Matcher;

fn vocab(words: &[&str]) -> Vec<String> {
    words.iter().map(|w| w.to_string()).collect()
}

#[test]
fn matches_are_the_entries_with_the_prefix() {
    let m = Matcher::build(vocab(&["change", "help", "exit", "quit", "remote", "reset"]));
    let r = m.collect_matches(&"re".to_string());
    assert_eq!(r, vec!["remote".to_string(), "reset".to_string()]);
    let r2 = m.collect_matches(&"h".to_string());
    assert_eq!(r2, vec!["help".to_string()]);
    let r3 = m.collect_matches(&"zzz".to_string());
    assert!(r3.is_empty());
}

#[test]
fn empty_prefix_matches_everything() {
    let words = vocab(&["change", "help", "exit"]);
    let m = Matcher::build(words.clone());
    let r = m.collect_matches(&String::new());
    assert_eq!(r, words);
}

#[test]
fn whole_word_prefix_matches_itself() {
    let m = Matcher::build(vocab(&["show"]));
    let once = m.collect_matches(&"sh".to_string());
    assert_eq!(once, vec!["show".to_string()]);
    // completing to the unique match and matching again changes nothing
    let twice = m.collect_matches(&"show".to_string());
    assert_eq!(twice, once);
}

#[test]
fn longer_prefix_than_entry_does_not_match() {
    let m = Matcher::build(vocab(&["show"]));
    let r = m.collect_matches(&"shows".to_string());
    assert!(r.is_empty());
}
