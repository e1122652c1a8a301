//! Planned rendering: the scroll-safe newline arithmetic and the prebuilt
//! message lines.

use ger::render::{completion_line, invalid_input_line, missing_argument_line, SmartNewLine};

#[test]
fn newline_in_the_middle_moves_down_without_scrolling() {
    let p = SmartNewLine(1).plan(5, 24);
    assert_eq!(p.scroll_up, 0);
    assert_eq!(p.final_row, 6);
}

#[test]
fn newline_on_the_last_row_scrolls_first() {
    let p = SmartNewLine(1).plan(23, 24);
    assert_eq!(p.scroll_up, 1);
    assert_eq!(p.final_row, 23);
}

#[test]
fn resulting_row_is_clamped_to_the_screen() {
    let p = SmartNewLine(5).plan(21, 24);
    assert_eq!(p.scroll_up, 0);
    assert_eq!(p.final_row, 23);
}

#[test]
fn single_row_terminal_always_scrolls() {
    let p = SmartNewLine(1).plan(0, 1);
    assert_eq!(p.scroll_up, 1);
    assert_eq!(p.final_row, 0);
}

#[test]
fn completion_line_separates_words_with_two_spaces() {
    let words = vec!["remote".to_string(), "reset".to_string()];
    assert_eq!(completion_line(&words).as_str(), "remote  reset  ");
    let none: Vec<String> = Vec::new();
    assert_eq!(completion_line(&none).as_str(), "");
}

#[test]
fn message_lines_have_the_exact_text() {
    assert_eq!(invalid_input_line(&"zap".to_string()).as_str(), "x Invalid input: zap");
    assert_eq!(missing_argument_line().as_str(), "Missing argument");
}
