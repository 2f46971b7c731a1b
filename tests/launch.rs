use command_line_worker::command::{
    launch_result, parse_command_line, spawn_failure_message, ExecutionOutcome, MISSING_EXECUTABLE,
};

#[test]
fn command_is_split_into_program_and_arguments() {
    let line = parse_command_line("ls -l .").ok().unwrap();
    assert_eq!("ls", line.program);
    assert_eq!(vec!["-l".to_string(), ".".to_string()], line.arguments);
}

#[test]
fn command_without_arguments() {
    let line = parse_command_line("pwd").ok().unwrap();
    assert_eq!("pwd", line.program);
    assert!(line.arguments.is_empty());
}

#[test]
fn single_spaces_separate_tokens() {
    let line = parse_command_line("ls  a ").ok().unwrap();
    assert_eq!("ls", line.program);
    assert_eq!(
        vec!["".to_string(), "a".to_string(), "".to_string()],
        line.arguments
    );
}

#[test]
fn empty_command_is_missing_its_executable() {
    let err = parse_command_line("").err().unwrap();
    assert_eq!(MISSING_EXECUTABLE, err);
    assert_eq!("missing executable in the command line template", err);
}

#[test]
fn blank_command_is_missing_its_executable() {
    let err = parse_command_line("  \t ").err().unwrap();
    assert_eq!(MISSING_EXECUTABLE, err);
}

#[test]
fn any_whitespace_only_command_is_missing_its_executable() {
    for blank in ["\u{000C}", "\u{000B}", " \n\r", "\u{00A0}", "\u{2003}\u{3000}", "\u{0085}"] {
        assert_eq!("", blank.trim());
        let err = parse_command_line(blank).err().unwrap();
        assert_eq!(MISSING_EXECUTABLE, err);
    }
}

#[test]
fn leading_space_is_not_blank() {
    let line = parse_command_line(" ls").ok().unwrap();
    assert_eq!("", line.program);
    assert_eq!(vec!["ls".to_string()], line.arguments);
}

#[test]
fn spawn_failure_names_command_and_error() {
    let message = spawn_failure_message("nosuchprogram -x", "No such file or directory");
    assert_eq!(
        "An error occurred process command: nosuchprogram -x.\nNo such file or directory",
        message
    );
}

#[test]
fn successful_exit_returns_stdout() {
    let outcome = ExecutionOutcome {
        exited_successfully: true,
        stdout: b"Cargo.toml\nsrc\n".to_vec(),
        stderr: b"warning".to_vec(),
    };
    assert_eq!(Ok("Cargo.toml\nsrc\n".to_string()), launch_result(outcome));
}

#[test]
fn failed_exit_returns_stderr_then_stdout() {
    let outcome = ExecutionOutcome {
        exited_successfully: false,
        stdout: b"partial".to_vec(),
        stderr: b"ls: sdjqenfdcnekbnbsdvjhqr: No such file\n".to_vec(),
    };
    assert_eq!(
        Err("ls: sdjqenfdcnekbnbsdvjhqr: No such file\npartial".to_string()),
        launch_result(outcome)
    );
}

#[test]
fn invalid_utf8_is_replaced_not_rejected() {
    let outcome = ExecutionOutcome {
        exited_successfully: true,
        stdout: vec![b'a', 0xff, b'b'],
        stderr: Vec::new(),
    };
    assert_eq!(Ok("a\u{FFFD}b".to_string()), launch_result(outcome));
}

#[test]
fn multibyte_output_decodes() {
    let outcome = ExecutionOutcome {
        exited_successfully: false,
        stdout: "é".as_bytes().to_vec(),
        stderr: "✓ ".as_bytes().to_vec(),
    };
    assert_eq!(Err("✓ é".to_string()), launch_result(outcome));
}
