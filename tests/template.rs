use command_line_worker::template::{
    compile_command_template, is_reserved, COMMAND_TEMPLATE_IDENTIFIER,
    EXECUTION_DIRECTORY_PARAMETER,
};

fn params(pairs: &[(&str, &str)]) -> Vec<(String, String)> {
    pairs.iter().map(|(k, v)| (k.to_string(), v.to_string())).collect()
}

#[test]
fn test_compile_command_template() {
    let command_template = "ls {option} {path}".to_string();
    let parameters = params(&[("option", "-l"), ("path", ".")]);

    let command = compile_command_template(command_template, parameters);
    assert_eq!("ls -l .", command.as_str());
}

#[test]
fn test_compile_command_template_with_doubles() {
    let command_template = "ls {option} {path} {option}".to_string();
    let parameters = params(&[("option", "-l"), ("path", ".")]);

    let command = compile_command_template(command_template, parameters);
    assert_eq!("ls -l . -l", command.as_str());
}

#[test]
fn test_compile_command_template_with_fixed_params() {
    let command_template = "ls {option} {path}".to_string();
    let mut parameters = params(&[("option", "-l"), ("path", ".")]);
    parameters.push((
        COMMAND_TEMPLATE_IDENTIFIER.to_string(),
        command_template.clone(),
    ));
    parameters.push((
        EXECUTION_DIRECTORY_PARAMETER.to_string(),
        "/path/to/somewhere".to_string(),
    ));

    let command = compile_command_template(command_template, parameters);
    assert_eq!("ls -l .", command.as_str());
}

#[test]
fn reserved_placeholders_stay_literal() {
    let template = "run {command_template} in {exec_dir} with {x}".to_string();
    let parameters = params(&[
        ("command_template", "oops"),
        ("exec_dir", "/tmp"),
        ("x", "1"),
    ]);
    let command = compile_command_template(template, parameters);
    assert_eq!("run {command_template} in {exec_dir} with 1", command.as_str());
}

#[test]
fn unknown_placeholder_stays_literal() {
    let template = "echo {known} {unknown}".to_string();
    let command = compile_command_template(template, params(&[("known", "k")]));
    assert_eq!("echo k {unknown}", command.as_str());
}

#[test]
fn unused_parameter_is_ignored() {
    let template = "echo hello".to_string();
    let command = compile_command_template(template, params(&[("name", "world")]));
    assert_eq!("echo hello", command.as_str());
}

#[test]
fn empty_template_and_parameters() {
    let command = compile_command_template(String::new(), Vec::new());
    assert_eq!("", command.as_str());
}

#[test]
fn placeholder_repeated_three_times() {
    let template = "{a}-{a}-{a}".to_string();
    let command = compile_command_template(template, params(&[("a", "xy")]));
    assert_eq!("xy-xy-xy", command.as_str());
}

#[test]
fn inserted_values_are_never_substituted_again() {
    let template = "{a} {b}".to_string();
    let command = compile_command_template(template.clone(), params(&[("a", "{b}"), ("b", "x")]));
    assert_eq!("{b} x", command.as_str());
    let command = compile_command_template(template, params(&[("b", "x"), ("a", "{b}")]));
    assert_eq!("{b} x", command.as_str());
}

#[test]
fn first_of_two_equal_names_wins() {
    let command = compile_command_template("{a}".to_string(), params(&[("a", "1"), ("a", "2")]));
    assert_eq!("1", command.as_str());
}

#[test]
fn nested_braces_are_not_a_placeholder_name() {
    let template = "{{a}} {a{b}".to_string();
    let command = compile_command_template(template, params(&[("a", "A"), ("b", "B")]));
    assert_eq!("{A} {aB", command.as_str());
}

#[test]
fn empty_name_placeholder() {
    let command = compile_command_template("x{}y".to_string(), params(&[("", "-")]));
    assert_eq!("x-y", command.as_str());
}

#[test]
fn non_ascii_values_and_template() {
    let template = "écho {mot} ✓".to_string();
    let command = compile_command_template(template, params(&[("mot", "café")]));
    assert_eq!("écho café ✓", command.as_str());
}

#[test]
fn reserved_keys_are_recognized() {
    assert!(is_reserved("command_template"));
    assert!(is_reserved("exec_dir"));
    assert!(!is_reserved("exec_dirs"));
    assert!(!is_reserved("option"));
    assert!(!is_reserved(""));
}
