//! Tests of the interactive prompt's decisions.

use mini_lang::repl::{count_unmatched_braces, Action, Input, Repl};

fn line(s: &str) -> Input {
    Input::Line(s.to_string())
}

#[test]
fn counts_braces_outside_strings_and_comments() {
    assert_eq!(count_unmatched_braces("fn f() {"), 1);
    assert_eq!(count_unmatched_braces("{ { }"), 1);
    assert_eq!(count_unmatched_braces("}"), -1);
    assert_eq!(count_unmatched_braces("let s = \"{\";"), 0);
    assert_eq!(count_unmatched_braces("let s = \"\\\"{\";"), 0);
    assert_eq!(count_unmatched_braces("x; // {\n{"), 1);
    assert_eq!(count_unmatched_braces(""), 0);
}

#[test]
fn commands_on_fresh_prompt() {
    let mut r = Repl::new();
    assert_eq!(r.prompt(), ">> ");
    assert!(matches!(r.step(line("  exit ")), Action::Quit));
    assert!(matches!(r.step(line("quit")), Action::Quit));
    assert!(matches!(r.step(line("\u{3000}help\t")), Action::Help));
    assert_eq!(r.pending(), "");
}

#[test]
fn gathers_open_blocks() {
    let mut r = Repl::new();
    assert!(matches!(r.step(line("fn f() {")), Action::More));
    assert_eq!(r.prompt(), ".. ");
    assert!(matches!(r.step(line("exit")), Action::More));
    match r.step(line("}")) {
        Action::Run(s) => assert_eq!(s, "fn f() {\nexit\n}\n"),
        other => panic!("unexpected {:?}", other),
    }
    assert_eq!(r.prompt(), ">> ");
    assert_eq!(r.pending(), "");
}

#[test]
fn balanced_line_runs_at_once() {
    let mut r = Repl::new();
    match r.step(line("1 + 2;")) {
        Action::Run(s) => assert_eq!(s, "1 + 2;\n"),
        other => panic!("unexpected {:?}", other),
    }
}

#[test]
fn interrupt_cancels_open_block() {
    let mut r = Repl::new();
    assert!(matches!(r.step(Input::Interrupted), Action::Interrupted));
    assert!(matches!(r.step(line("while (true) {")), Action::More));
    assert!(matches!(r.step(Input::Interrupted), Action::Cancelled));
    assert_eq!(r.pending(), "");
    assert_eq!(r.prompt(), ">> ");
}

#[test]
fn end_of_input_and_failures() {
    let mut r = Repl::new();
    assert!(matches!(r.step(Input::Eof), Action::Bye));
    assert!(matches!(r.step(Input::Failed), Action::Stop));
}

#[test]
fn escaped_quote_does_not_end_string() {
    assert_eq!(count_unmatched_braces(r#""a\"{" {"#), 1);
    assert_eq!(count_unmatched_braces("{ }"), 0);
    assert_eq!(count_unmatched_braces("x; // {\n"), 0);
}
