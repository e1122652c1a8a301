//! The line editor driven key by key: typing, completion, ambiguity,
//! resolution, history browsing and the control keys.

use ger::commands;
use ger::editor::{EditorStep, KeyEvent, Prompt};
use ger::render::RenderCmd;
use ger::tree::CommandNode;

fn type_text(p: &mut Prompt, tree: &CommandNode, text: &str) {
    for c in text.chars() {
        let (step, _) = p.key_event(tree, KeyEvent::Character(c));
        assert!(matches!(step, EditorStep::Continue));
    }
}

fn texts_printed(cmds: &[RenderCmd]) -> Vec<String> {
    let mut out = Vec::new();
    for c in cmds {
        match c {
            RenderCmd::Text(s) => out.push(s.clone()),
            RenderCmd::LineBelow(s) => out.push(s.clone()),
            _ => {},
        }
    }
    out
}

#[test]
fn typing_echoes_and_grows_the_buffer() {
    let tree = commands::command();
    let mut p = Prompt::new();
    p.start_prompt();
    type_text(&mut p, &tree, "he");
    assert_eq!(p.buffer_string().as_str(), "he");
}

#[test]
fn unique_prefix_plus_tab_completes_the_word() {
    // vocabulary: change, remote, reset, help (?), exit, quit
    let tree = commands::command();
    let mut p = Prompt::new();
    p.start_prompt();
    type_text(&mut p, &tree, "h");
    let (step, _) = p.key_event(&tree, KeyEvent::Tab);
    assert!(matches!(step, EditorStep::Continue));
    assert_eq!(p.buffer_string().as_str(), "help ");
}

#[test]
fn unique_prefix_plus_enter_resolves_to_the_full_word() {
    let tree = commands::command();
    let mut p = Prompt::new();
    p.start_prompt();
    type_text(&mut p, &tree, "c");
    let (step, _) = p.key_event(&tree, KeyEvent::Enter);
    match step {
        EditorStep::Resolved(tokens) => assert_eq!(tokens, vec!["change".to_string()]),
        EditorStep::Continue => panic!("expected the line to resolve"),
    }
    assert_eq!(p.buffer_string().as_str(), "");
}

#[test]
fn ambiguous_prefix_plus_enter_suggests_and_keeps_the_buffer() {
    let tree = commands::command();
    let mut p = Prompt::new();
    p.start_prompt();
    type_text(&mut p, &tree, "r");
    let (step, cmds) = p.key_event(&tree, KeyEvent::Enter);
    assert!(matches!(step, EditorStep::Continue));
    assert_eq!(p.buffer_string().as_str(), "r");
    let printed = texts_printed(&cmds);
    assert!(printed.iter().any(|s| s == "remote  reset  "));
    assert_eq!(p.history().len(), 0);
}

#[test]
fn ctrl_d_on_empty_buffer_resolves_to_exit() {
    let tree = commands::command();
    let mut p = Prompt::new();
    p.start_prompt();
    let (step, _) = p.key_event(&tree, KeyEvent::CtrlD);
    match step {
        EditorStep::Resolved(tokens) => assert_eq!(tokens, vec!["exit".to_string()]),
        EditorStep::Continue => panic!("expected the exit directive"),
    }
    assert_eq!(p.history().len(), 0);
}

#[test]
fn ctrl_d_with_text_is_ignored() {
    let tree = commands::command();
    let mut p = Prompt::new();
    p.start_prompt();
    type_text(&mut p, &tree, "x");
    let (step, cmds) = p.key_event(&tree, KeyEvent::CtrlD);
    assert!(matches!(step, EditorStep::Continue));
    assert!(cmds.is_empty());
    assert_eq!(p.buffer_string().as_str(), "x");
}

#[test]
fn missing_required_argument_reprompts_and_records_the_line() {
    // inside the change family, `show` requires an ID
    let tree = ger::change::command();
    let mut p = Prompt::new();
    p.start_prompt();
    type_text(&mut p, &tree, "show");
    let (step, cmds) = p.key_event(&tree, KeyEvent::Enter);
    assert!(matches!(step, EditorStep::Continue));
    assert_eq!(p.buffer_string().as_str(), "");
    let printed = texts_printed(&cmds);
    assert!(printed.iter().any(|s| s == "Missing argument"));
    assert_eq!(p.history().len(), 1);
    assert_eq!(p.history().at(0).as_str(), "show");
}

#[test]
fn show_with_its_argument_resolves() {
    let tree = ger::change::command();
    let mut p = Prompt::new();
    p.start_prompt();
    type_text(&mut p, &tree, "sh 1234");
    let (step, _) = p.key_event(&tree, KeyEvent::Enter);
    match step {
        EditorStep::Resolved(tokens) => {
            assert_eq!(tokens, vec!["show".to_string(), "1234".to_string()])
        },
        EditorStep::Continue => panic!("expected the line to resolve"),
    }
    assert_eq!(p.history().at(0).as_str(), "show 1234");
}

#[test]
fn completion_is_idempotent_on_a_singleton_vocabulary() {
    let tree = CommandNode::new("root").subcommand(CommandNode::new("show"));
    let mut p = Prompt::new();
    p.start_prompt();
    type_text(&mut p, &tree, "sh");
    p.key_event(&tree, KeyEvent::Tab);
    assert_eq!(p.buffer_string().as_str(), "show ");
    // resolving the completed buffer again is a no-op
    p.key_event(&tree, KeyEvent::Tab);
    assert_eq!(p.buffer_string().as_str(), "show ");
    let (step, _) = p.key_event(&tree, KeyEvent::Enter);
    match step {
        EditorStep::Resolved(tokens) => assert_eq!(tokens, vec!["show".to_string()]),
        EditorStep::Continue => panic!("expected the same canonical token"),
    }
}

#[test]
fn unknown_word_plus_enter_complains_and_clears() {
    let tree = commands::command();
    let mut p = Prompt::new();
    p.start_prompt();
    type_text(&mut p, &tree, "zap");
    let (step, cmds) = p.key_event(&tree, KeyEvent::Enter);
    assert!(matches!(step, EditorStep::Continue));
    assert_eq!(p.buffer_string().as_str(), "");
    let printed = texts_printed(&cmds);
    assert!(printed.iter().any(|s| s == "x Invalid input: zap"));
    // the rejected line is still recorded for arrow-up editing
    assert_eq!(p.history().at(0).as_str(), "zap");
}

#[test]
fn plain_backspace_removes_one_character() {
    let tree = commands::command();
    let mut p = Prompt::new();
    p.start_prompt();
    type_text(&mut p, &tree, "help");
    p.key_event(&tree, KeyEvent::Backspace { word: false });
    assert_eq!(p.buffer_string().as_str(), "hel");
}

#[test]
fn word_backspace_removes_the_trailing_word() {
    let tree = commands::command();
    let mut p = Prompt::new();
    p.start_prompt();
    type_text(&mut p, &tree, "he.he   fsdfs");
    p.key_event(&tree, KeyEvent::Backspace { word: true });
    assert_eq!(p.buffer_string().as_str(), "he.he ");
}

#[test]
fn arrows_browse_history_and_restore_the_live_edit() {
    let tree = commands::command();
    let mut p = Prompt::new();
    p.start_prompt();
    type_text(&mut p, &tree, "help");
    p.key_event(&tree, KeyEvent::Enter);
    p.start_prompt();
    type_text(&mut p, &tree, "re");
    p.key_event(&tree, KeyEvent::ArrowUp);
    assert_eq!(p.buffer_string().as_str(), "help");
    p.key_event(&tree, KeyEvent::ArrowDown);
    assert_eq!(p.buffer_string().as_str(), "re");
}

#[test]
fn ctrl_c_clears_the_buffer_and_stays() {
    let tree = commands::command();
    let mut p = Prompt::new();
    p.start_prompt();
    type_text(&mut p, &tree, "abc");
    let (step, _) = p.key_event(&tree, KeyEvent::CtrlC);
    assert!(matches!(step, EditorStep::Continue));
    assert_eq!(p.buffer_string().as_str(), "");
}

#[test]
fn enter_on_empty_buffer_only_reprompts() {
    let tree = commands::command();
    let mut p = Prompt::new();
    p.start_prompt();
    let (step, cmds) = p.key_event(&tree, KeyEvent::Enter);
    assert!(matches!(step, EditorStep::Continue));
    assert!(matches!(cmds.as_slice(), [RenderCmd::Prompt { .. }]));
    assert_eq!(p.history().len(), 0);
}

#[test]
fn query_values_complete_after_the_command() {
    let tree = ger::change::command();
    let mut p = Prompt::new();
    p.start_prompt();
    type_text(&mut p, &tree, "query is:o");
    let (step, _) = p.key_event(&tree, KeyEvent::Enter);
    match step {
        EditorStep::Resolved(tokens) => {
            assert_eq!(tokens, vec!["query".to_string(), "is:open".to_string()])
        },
        EditorStep::Continue => panic!("expected the query to resolve"),
    }
}

#[test]
fn trailing_space_browses_the_next_level() {
    let tree = commands::command();
    let mut p = Prompt::new();
    p.start_prompt();
    type_text(&mut p, &tree, "change ");
    let (step, cmds) = p.key_event(&tree, KeyEvent::Tab);
    assert!(matches!(step, EditorStep::Continue));
    assert_eq!(p.buffer_string().as_str(), "change ");
    let printed = texts_printed(&cmds);
    assert!(printed.iter().any(|s| s == "show  query  help  exit  quit  "));
}

#[test]
fn tab_on_empty_buffer_does_nothing() {
    let tree = commands::command();
    let mut p = Prompt::new();
    p.start_prompt();
    let (step, cmds) = p.key_event(&tree, KeyEvent::Tab);
    assert!(matches!(step, EditorStep::Continue));
    assert!(cmds.is_empty());
    assert_eq!(p.buffer_string().as_str(), "");
}

#[test]
fn ctrl_l_clears_the_screen_above_only() {
    let tree = commands::command();
    let mut p = Prompt::new();
    p.start_prompt();
    type_text(&mut p, &tree, "abc");
    let (step, cmds) = p.key_event(&tree, KeyEvent::CtrlL);
    assert!(matches!(step, EditorStep::Continue));
    assert!(matches!(cmds.as_slice(), [RenderCmd::ClearAbove]));
    assert_eq!(p.buffer_string().as_str(), "abc");
}

#[test]
fn backspace_clears_a_pending_suggestion_line() {
    let tree = commands::command();
    let mut p = Prompt::new();
    p.start_prompt();
    type_text(&mut p, &tree, "r");
    p.key_event(&tree, KeyEvent::Tab);  // two candidates shown below
    let (_, cmds) = p.key_event(&tree, KeyEvent::Backspace { word: false });
    assert!(cmds.iter().any(|c| matches!(c, RenderCmd::ClearLineBelow)));
    assert_eq!(p.buffer_string().as_str(), "");
}

#[test]
fn tab_on_an_unknown_word_changes_nothing() {
    let tree = commands::command();
    let mut p = Prompt::new();
    p.start_prompt();
    type_text(&mut p, &tree, "zap");
    let (step, cmds) = p.key_event(&tree, KeyEvent::Tab);
    assert!(matches!(step, EditorStep::Continue));
    assert!(cmds.is_empty());
    assert_eq!(p.buffer_string().as_str(), "zap");
    assert_eq!(p.history().len(), 0);
}
