//! Rendering fetched changes: listing rows and commit-message lines.

use ger::change::{change_row, message_lines, u64_to_dec};

#[test]
fn numbers_render_in_decimal() {
    assert_eq!(u64_to_dec(0).as_str(), "0");
    assert_eq!(u64_to_dec(7).as_str(), "7");
    assert_eq!(u64_to_dec(139924).as_str(), "139924");
    assert_eq!(u64_to_dec(u64::MAX).as_str(), "18446744073709551615");
}

#[test]
fn rows_pad_the_status_column() {
    let row = change_row(1, 139924, &"NEW".to_string(), &"Changing header color".to_string());
    assert_eq!(row.index_text.as_str(), "1");
    assert_eq!(row.number_text.as_str(), "139924");
    assert_eq!(row.status_text.as_str(), "NEW");
    assert_eq!(row.subject.as_str(), "Changing header color");
    let short = change_row(2, 5, &"OK".to_string(), &"x".to_string());
    assert_eq!(short.status_text.as_str(), "OK ");
}

#[test]
fn message_lines_split_at_newlines() {
    let msg = "Subject line\r\n\nBody text\n".to_string();
    let lines = message_lines(&msg);
    assert_eq!(lines, vec!["Subject line".to_string(), "".to_string(), "Body text".to_string()]);
    assert!(message_lines(&String::new()).is_empty());
    assert_eq!(message_lines(&"one".to_string()), vec!["one".to_string()]);
}
