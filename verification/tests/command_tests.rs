use kuku::ask::{answer_report, AskCommand};
use kuku::assist::{parse_suggestion, AssistCommand, Suggestion};
use kuku::cli::{Launch, Opt, SubCommand};
use kuku::config_cmd::choose_editor;
use kuku::text::{decimal_i32, decimal_usize, trim_str};

#[test]
fn user_message_with_stderr() {
    let c = AssistCommand {
        command: "gti status".to_string(),
        exit_code: -1,
        stderr: Some("not found".to_string()),
    };
    assert_eq!(c.user_message(), "Failed command: gti status\nExit code: -1\nstderr:\nnot found");
}

#[test]
fn user_message_without_stderr() {
    let c = AssistCommand { command: "ls x".to_string(), exit_code: 2, stderr: None };
    assert_eq!(c.user_message(), "Failed command: ls x\nExit code: 2\n");
}

#[test]
fn suggestion_from_reply() {
    let s = parse_suggestion("  git status  \n\nThe command was misspelled.\n").unwrap();
    assert_eq!(s.fix, "git status");
    assert_eq!(s.explanation, "The command was misspelled.");
    assert!(parse_suggestion("").is_none());
    assert!(parse_suggestion("   \nexplanation").is_none());
    let t = parse_suggestion("dir").unwrap();
    assert_eq!(t.explanation, "");
}

#[test]
fn suggestion_report_text() {
    let s = Suggestion { fix: "git status".to_string(), explanation: "typo".to_string() };
    assert_eq!(
        s.report(),
        "\x1b[1;35m[kaku]\x1b[0m Suggested fix:\n  \x1b[1;32mgit status\x1b[0m\n  \x1b[90mtypo\x1b[0m\n  \x1b[90mPress Ctrl+Shift+E to apply\x1b[0m\n"
    );
    let t = Suggestion { fix: "dir".to_string(), explanation: String::new() };
    assert_eq!(
        t.report(),
        "\x1b[1;35m[kaku]\x1b[0m Suggested fix:\n  \x1b[1;32mdir\x1b[0m\n  \x1b[90mPress Ctrl+Shift+E to apply\x1b[0m\n"
    );
}

#[test]
fn question_words_joined() {
    let q = AskCommand { question: vec!["how".to_string(), "to".to_string(), "rename".to_string()] };
    assert_eq!(q.question_text(), "how to rename");
    let one = AskCommand { question: vec!["hi".to_string()] };
    assert_eq!(one.question_text(), "hi");
}

#[test]
fn answer_report_trims_reply() {
    assert_eq!(answer_report("  Get-ChildItem \n"), "\n\x1b[1;35m[kuku]\x1b[0m 想到了！曼波！\n\nGet-ChildItem\n\n");
}

#[test]
fn decimal_formatting() {
    assert_eq!(decimal_i32(0), "0");
    assert_eq!(decimal_i32(-42), "-42");
    assert_eq!(decimal_i32(i32::MIN), "-2147483648");
    assert_eq!(decimal_i32(i32::MAX), "2147483647");
    assert_eq!(decimal_usize(1200), "1200");
}

#[test]
fn trimming_unicode_whitespace() {
    assert_eq!(trim_str("\u{3000}\t x y \u{A0}\n"), "x y");
    assert_eq!(trim_str("   "), "");
}

#[test]
fn launch_choice() {
    assert!(matches!(Opt { cmd: None }.launch(true), Launch::Menu));
    assert!(matches!(Opt { cmd: None }.launch(false), Launch::Run(SubCommand::Doctor)));
    assert!(matches!(Opt { cmd: Some(SubCommand::Reset) }.launch(true), Launch::Run(SubCommand::Reset)));
}

#[test]
fn editor_choice() {
    assert_eq!(choose_editor(Some("vim".to_string()), Some("code".to_string())), "vim");
    assert_eq!(choose_editor(None, Some("code".to_string())), "code");
    assert_eq!(choose_editor(None, None), "notepad");
}
