use command_line_worker::command::MISSING_EXECUTABLE;
use command_line_worker::job::{
    prepare, report, truncate_message, CommandLineWorkerParameters, JobStatus, MESSAGE_SIZE_LIMIT,
    MISSING_TEMPLATE,
};

fn parameters(template: Option<&str>, pairs: &[(&str, &str)]) -> CommandLineWorkerParameters {
    CommandLineWorkerParameters {
        command_template: template.map(|t| t.to_string()),
        exec_dir: Some("./src".to_string()),
        parameters: pairs
            .iter()
            .map(|(k, v)| (k.to_string(), v.to_string()))
            .collect(),
        requirements: None,
    }
}

#[test]
fn missing_template_ends_in_error_before_launch() {
    let result = prepare(parameters(None, &[("option", "-l")]));
    let job = result.err().unwrap();
    assert_eq!(JobStatus::Error, job.status);
    assert_eq!(MISSING_TEMPLATE, job.message);
    assert!(job.message.contains("command_template"));
}

#[test]
fn blank_compiled_command_ends_in_error() {
    let result = prepare(parameters(Some("{empty}"), &[("empty", " ")]));
    let job = result.err().unwrap();
    assert_eq!(JobStatus::Error, job.status);
    assert_eq!(MISSING_EXECUTABLE, job.message);
}

#[test]
fn form_feed_compiled_command_ends_in_error() {
    let result = prepare(parameters(Some("{sep}"), &[("sep", "\u{000C}")]));
    let job = result.err().unwrap();
    assert_eq!(JobStatus::Error, job.status);
    assert_eq!(MISSING_EXECUTABLE, job.message);
}

#[test]
fn prepared_launch_carries_command_and_directory() {
    let request = prepare(parameters(
        Some("ls {option} {path}"),
        &[("option", "-lh"), ("path", "."), ("exec_dir", "./src")],
    ))
    .ok()
    .unwrap();
    assert_eq!("ls -lh .", request.command);
    assert_eq!("ls", request.command_line.program);
    assert_eq!(
        vec!["-lh".to_string(), ".".to_string()],
        request.command_line.arguments
    );
    assert_eq!(Some("./src".to_string()), request.exec_dir);
}

#[test]
fn successful_launch_completes_with_output() {
    let job = report(Ok("main.rs\nmessage.rs\n".to_string()));
    assert_eq!(JobStatus::Completed, job.status);
    assert_eq!("main.rs\nmessage.rs\n", job.message);
}

#[test]
fn failed_launch_errs_with_full_diagnostic() {
    let long = "e".repeat(MESSAGE_SIZE_LIMIT + 5);
    let job = report(Err(long.clone()));
    assert_eq!(JobStatus::Error, job.status);
    assert_eq!(long, job.message);
}

#[test]
fn output_over_the_limit_is_cut_to_exactly_the_limit() {
    assert_eq!(1048576, MESSAGE_SIZE_LIMIT);
    let output = "x".repeat(MESSAGE_SIZE_LIMIT + 100);
    let job = report(Ok(output.clone()));
    assert_eq!(JobStatus::Completed, job.status);
    assert_eq!(MESSAGE_SIZE_LIMIT, job.message.len());
    assert_eq!(&output[..MESSAGE_SIZE_LIMIT], job.message.as_str());
}

#[test]
fn output_at_the_limit_is_kept_whole() {
    let output = "y".repeat(MESSAGE_SIZE_LIMIT);
    assert_eq!(output, truncate_message(output.clone()));
}

#[test]
fn short_output_is_kept_whole() {
    assert_eq!("abc", truncate_message("abc".to_string()));
    assert_eq!("", truncate_message(String::new()));
}

#[test]
fn cut_falls_back_to_a_character_boundary() {
    // One ASCII byte, then two-byte characters: byte 1048576 is the middle
    // of a character, so the cut keeps one byte less.
    let output = format!("a{}", "é".repeat(MESSAGE_SIZE_LIMIT / 2 + 10));
    let cut = truncate_message(output.clone());
    assert_eq!(MESSAGE_SIZE_LIMIT - 1, cut.len());
    assert!(output.starts_with(cut.as_str()));
}
