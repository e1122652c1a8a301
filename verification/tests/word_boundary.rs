//! Word-boundary search used by word-wise deletion.

use ger::util::str_rfind_last_word_separator;

#[test]
fn test1() {
    assert_eq!(str_rfind_last_word_separator("he.."), 3);
}

#[test]
fn test2() {
    assert_eq!(str_rfind_last_word_separator("he.he"), 3);
}

#[test]
fn test3() {
    assert_eq!(str_rfind_last_word_separator("he.he     "), 6);
}

#[test]
fn test4() {
    assert_eq!(str_rfind_last_word_separator("he.he   fsdfs"), 6);
}

#[test]
fn test5() {
    assert_eq!(str_rfind_last_word_separator(""), 0);
}

#[test]
fn test6() {
    assert_eq!(str_rfind_last_word_separator("hello"), 0);
}

#[test]
fn test7() {
    assert_eq!(str_rfind_last_word_separator("  "), 0);
}

#[test]
fn test8() {
    assert_eq!(str_rfind_last_word_separator("???"), 0);
}

#[test]
fn single_word_then_space_collapses() {
    assert_eq!(str_rfind_last_word_separator("c "), 0);
}

#[test]
fn word_after_separator_is_deleted_alone() {
    assert_eq!(str_rfind_last_word_separator("a.b cc"), 4);
}
