//! The command schemas, the main-loop decisions, and the pure parts of the
//! `change` command family.

use ger::change::{self, ChangeDecision, ShowTarget};
use ger::commands::{self, exception_line, help_lines, loop_decision, pad_right,
    remote_status_line, run_subcommand, ShellDecision, SubcommandDecision};
use ger::tree::{find_command, get_arg_values_vector, get_command_vocabulary,
    get_visible_command_vector, try_find_command};
use ger::util::CmdAction;

fn strs(words: &[&str]) -> Vec<String> {
    words.iter().map(|w| w.to_string()).collect()
}

#[test]
fn root_vocabulary_lists_every_command_and_alias() {
    let root = commands::command();
    let vocab = get_command_vocabulary(&root);
    assert_eq!(vocab, strs(&["change", "remote", "reset", "help", "?", "exit", "quit"]));
    let visible = get_visible_command_vector(&root);
    assert_eq!(visible, strs(&["change", "remote", "reset", "help", "exit", "quit"]));
}

#[test]
fn query_argument_offers_the_search_operators() {
    let change_cmd = change::command();
    let query = try_find_command(&change_cmd, &strs(&["query"])).expect("query exists");
    let arg = query.arg.as_ref().expect("query takes an argument");
    assert_eq!(
        get_arg_values_vector(arg),
        strs(&["owner:self", "is:open", "is:wip", "-owner:self", "-is:open", "-is:wip"])
    );
    assert!(!arg.required);
}

#[test]
fn find_command_walks_by_exact_names() {
    let root = commands::command();
    let show = find_command(&root, &strs(&["change", "show"]));
    assert_eq!(show.name.as_str(), "show");
    assert!(show.arg.as_ref().expect("show requires an ID").required);
    assert!(try_find_command(&root, &strs(&["bogus"])).is_none());
}

#[test]
fn help_lines_pad_the_name_column() {
    let root = commands::command();
    let lines = help_lines(&root);
    assert_eq!(lines[0].as_str(), " change       Change commands");
    assert_eq!(lines[1].as_str(), " remote       Remote commands");
    assert_eq!(lines.len(), 6);
}

#[test]
fn padding_keeps_longer_names_whole() {
    assert_eq!(pad_right(&"ab".to_string(), 6).as_str(), "ab    ");
    assert_eq!(pad_right(&"abcdefgh".to_string(), 6).as_str(), "abcdefgh");
}

#[test]
fn loop_decisions_cover_quit_exit_and_dispatch() {
    let none: Vec<String> = Vec::new();
    assert!(matches!(loop_decision(&none, &none), ShellDecision::Idle));
    assert!(matches!(loop_decision(&none, &strs(&["quit"])), ShellDecision::Quit));
    assert!(matches!(loop_decision(&none, &strs(&["exit"])), ShellDecision::Quit));
    assert!(matches!(
        loop_decision(&strs(&["change"]), &strs(&["exit"])),
        ShellDecision::LeaveMode
    ));
    match loop_decision(&strs(&["change"]), &strs(&["show", "7"])) {
        ShellDecision::Run(all) => assert_eq!(all, strs(&["change", "show", "7"])),
        _ => panic!("expected a dispatch"),
    }
}

#[test]
fn subcommand_dispatch_names_the_handler() {
    let none: Vec<String> = Vec::new();
    assert!(matches!(run_subcommand(&none), SubcommandDecision::NoOp));
    assert!(matches!(run_subcommand(&strs(&["remote"])), SubcommandDecision::Remote));
    assert!(matches!(run_subcommand(&strs(&["help"])), SubcommandDecision::Help));
    assert!(matches!(run_subcommand(&strs(&["?"])), SubcommandDecision::Help));
    assert!(matches!(run_subcommand(&strs(&["nope"])), SubcommandDecision::Unknown));
    match run_subcommand(&strs(&["change", "query"])) {
        SubcommandDecision::Change(rest) => assert_eq!(rest, strs(&["query"])),
        _ => panic!("expected the change handler"),
    }
}

#[test]
fn change_dispatch_enters_the_mode_without_arguments() {
    let none: Vec<String> = Vec::new();
    match change::run_command(&none) {
        ChangeDecision::Act(CmdAction::EnterMode(m)) => assert_eq!(m.as_str(), "gerrit change"),
        _ => panic!("expected to enter the change mode"),
    }
    assert!(matches!(change::run_command(&strs(&["exit"])), ChangeDecision::Act(CmdAction::Done)));
    assert!(matches!(change::run_command(&strs(&["help"])), ChangeDecision::Help));
    assert!(matches!(change::run_command(&strs(&["wat"])), ChangeDecision::Invalid));
    match change::run_command(&strs(&["show", "$1"])) {
        ChangeDecision::Show(rest) => assert_eq!(rest, strs(&["$1"])),
        _ => panic!("expected a show"),
    }
    match change::run_command(&strs(&["query", "is:open"])) {
        ChangeDecision::Query(rest) => assert_eq!(rest, strs(&["is:open"])),
        _ => panic!("expected a query"),
    }
}

#[test]
fn show_targets_cover_every_outcome() {
    let none: Vec<String> = Vec::new();
    assert!(matches!(change::resolve_show_id(&none, 3), ShowTarget::MissingId));
    assert!(matches!(change::resolve_show_id(&strs(&["1", "2"]), 3), ShowTarget::MissingId));
    assert!(matches!(change::resolve_show_id(&strs(&["abc"]), 3), ShowTarget::NotANumber));
    assert!(matches!(change::resolve_show_id(&strs(&["$x"]), 3), ShowTarget::NotANumber));
    assert!(matches!(change::resolve_show_id(&strs(&["$0"]), 3), ShowTarget::OutOfBounds));
    assert!(matches!(change::resolve_show_id(&strs(&["$4"]), 3), ShowTarget::OutOfBounds));
    assert!(matches!(change::resolve_show_id(&strs(&["$2"]), 3), ShowTarget::Cached(1)));
    assert!(matches!(change::resolve_show_id(&strs(&["139924"]), 0), ShowTarget::Number(139924)));
    assert!(matches!(change::resolve_show_id(&strs(&["+7"]), 0), ShowTarget::Number(7)));
    assert!(matches!(
        change::resolve_show_id(&strs(&["4294967295"]), 0),
        ShowTarget::Number(4294967295)
    ));
    assert!(matches!(
        change::resolve_show_id(&strs(&["4294967296"]), 0),
        ShowTarget::NotANumber
    ));
    assert!(matches!(change::resolve_show_id(&strs(&[""]), 0), ShowTarget::NotANumber));
    assert!(matches!(change::resolve_show_id(&strs(&["+"]), 0), ShowTarget::NotANumber));
}

#[test]
fn query_filter_joins_the_operators() {
    let none: Vec<String> = Vec::new();
    assert!(change::query_filter(&none).is_none());
    let joined = change::query_filter(&strs(&["is:open", "owner:self"])).expect("non-empty");
    assert_eq!(joined.as_str(), "is:open owner:self");
}

#[test]
fn status_and_exception_lines_have_the_exact_text() {
    assert_eq!(
        remote_status_line(&Some("https://example.test/r".to_string())).as_str(),
        "remote url: https://example.test/r"
    );
    assert_eq!(remote_status_line(&None).as_str(), "no remotes configured");
    assert_eq!(exception_line(&"unhandled".to_string()).as_str(), "Exception: unhandled");
}
