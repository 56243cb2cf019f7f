use notevault::commands::{interpret_line, is_quit, parse_command, Command, LineAction};

#[test]
fn select_with_title_and_message() {
    match parse_command(b"/select foo bar") {
        Command::Select { title, message } => {
            assert_eq!(title, b"foo".to_vec());
            assert_eq!(message, b"bar".to_vec());
        },
        _ => panic!("expected a select"),
    }
}

#[test]
fn select_aliases_and_missing_slash() {
    assert!(matches!(parse_command(b"/sel x"), Command::Select { .. }));
    assert!(matches!(parse_command(b"select x"), Command::Select { .. }));
    assert!(matches!(parse_command(b"sel"), Command::Select { .. }));
}

#[test]
fn select_without_title_leaves_it_empty() {
    match parse_command(b"/select") {
        Command::Select { title, message } => {
            assert!(title.is_empty());
            assert!(message.is_empty());
        },
        _ => panic!("expected a select"),
    }
}

#[test]
fn files_and_dir_alias() {
    assert!(matches!(parse_command(b"/files"), Command::Files));
    assert!(matches!(parse_command(b"/dir"), Command::Files));
    assert!(matches!(parse_command(b"dir"), Command::Files));
}

#[test]
fn delete_and_alias() {
    match parse_command(b"/delete todo") {
        Command::Delete { title } => assert_eq!(title, b"todo".to_vec()),
        _ => panic!("expected a delete"),
    }
    assert!(matches!(parse_command(b"/del x"), Command::Delete { .. }));
}

#[test]
fn new_and_passwords_and_misc() {
    match parse_command(b"/new todo") {
        Command::New { title } => assert_eq!(title, b"todo".to_vec()),
        _ => panic!("expected a new"),
    }
    assert!(matches!(parse_command(b"/newpassword"), Command::NewPassword));
    assert!(matches!(parse_command(b"/pass"), Command::NewPassword));
    assert!(matches!(parse_command(b"/clear"), Command::Clear));
    assert!(matches!(parse_command(b"/help"), Command::Help));
}

#[test]
fn unknown_commands_are_invalid() {
    assert!(matches!(parse_command(b"/bogus"), Command::Invalid));
    assert!(matches!(parse_command(b"//select x"), Command::Invalid));
    assert!(matches!(parse_command(b""), Command::Invalid));
}

#[test]
fn quit_line_ends_the_loop() {
    assert!(matches!(interpret_line(b"/quit"), LineAction::Quit));
    assert!(is_quit(b"/quit"));
    assert!(!is_quit(b"quit"));
}

#[test]
fn plain_lines_go_to_the_landing_note() {
    match interpret_line(b"hello world") {
        LineAction::WriteToMain(m) => assert_eq!(m, b"hello world".to_vec()),
        _ => panic!("expected a write"),
    }
    assert!(matches!(interpret_line(b""), LineAction::WriteToMain(_)));
}

#[test]
fn slash_lines_run_commands() {
    match interpret_line(b"/files") {
        LineAction::Run(c) => assert!(matches!(c, Command::Files)),
        _ => panic!("expected a command"),
    }
    match interpret_line(b"/bogus") {
        LineAction::Run(c) => assert!(matches!(c, Command::Invalid)),
        _ => panic!("expected a command"),
    }
}
