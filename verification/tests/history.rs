//! The history store: adjacent duplicates are suppressed, and the scroll
//! cursor walks the log up and down.

use ger::history::HistoryHandle;

#[test]
fn adjacent_duplicates_are_suppressed() {
    let mut h = HistoryHandle::get();
    h.add("x".to_string());
    assert_eq!(h.len(), 1);
    h.add("x".to_string());
    assert_eq!(h.len(), 1);
    h.add("y".to_string());
    assert_eq!(h.len(), 2);
    h.add("x".to_string());
    assert_eq!(h.len(), 3);
}

#[test]
fn round_trip_through_two_entries() {
    let mut h = HistoryHandle::get();
    h.add("a".to_string());
    h.add("b".to_string());
    h.reset_cursor();
    assert_eq!(h.up_next(), Some("b".to_string()));
    assert_eq!(h.up_next(), Some("a".to_string()));
    assert_eq!(h.up_next(), None);
    assert_eq!(h.down_next(), Some("b".to_string()));
    assert_eq!(h.down_next(), None);
}

#[test]
fn down_at_bottom_is_a_no_op() {
    let mut h = HistoryHandle::get();
    h.add("a".to_string());
    h.reset_cursor();
    assert_eq!(h.down_next(), None);
    assert_eq!(h.down_next(), None);
}

#[test]
fn up_on_empty_history_is_a_no_op() {
    let mut h = HistoryHandle::get();
    assert_eq!(h.up_next(), None);
}

#[test]
fn stored_lines_are_readable_in_order() {
    let mut h = HistoryHandle::get();
    h.add("first".to_string());
    h.add("second".to_string());
    assert_eq!(h.at(0).as_str(), "first");
    assert_eq!(h.at(1).as_str(), "second");
}
