use baeru::highlight::{
    copy_texts, evaluate_lines, fingerprint, HighlightTrigger,
};
use baeru::model::{HighlightRule, Rgb};
use baeru::triggers::{
    capture_kind, filter_new_triggers, format_output_filename, render_output_prefix,
    sanitize_key, sanitize_segment, trigger_command, writes_capture, TriggerState, VariableValue,
};
use regex::Regex;
use std::collections::hash_map::DefaultHasher;
use std::hash::{Hash, Hasher};

fn rule(pattern: &str) -> HighlightRule {
    HighlightRule {
        key: pattern.to_string(),
        pattern: pattern.to_string(),
        regex: Regex::new(pattern).unwrap(),
        color: Rgb(255, 255, 0),
        command: None,
        capture_tui_screenshot: false,
        capture_cli_text: false,
        output_dir: None,
        output_prefix: None,
    }
}

fn trigger(key: &str, prefix: Option<&str>) -> HighlightTrigger {
    HighlightTrigger {
        key: key.to_string(),
        pattern: "error".to_string(),
        matched_texts: vec!["error".to_string()],
        command: None,
        capture_cli_text: true,
        capture_tui_screenshot: false,
        output_dir: None,
        output_prefix: prefix.map(|text| text.to_string()),
        fingerprint: 1,
    }
}

#[test]
fn format_output_filename_keeps_default_when_prefix_is_missing() {
    let trigger = trigger("error", None);

    assert_eq!(
        format_output_filename(&trigger, "cli", "cli_text", "txt", 1234, &vec![]),
        "error-1234.txt"
    );
    assert_eq!(
        format_output_filename(&trigger, "cli", "event", "json", 1234, &vec![]),
        "error-1234-event.json"
    );
}

#[test]
fn format_output_filename_renders_template_variables_in_prefix() {
    let trigger = trigger(
        "error/fatal",
        Some("run-{backend}-{capture_kind}-{key}-{timestamp}-"),
    );

    assert_eq!(
        format_output_filename(&trigger, "cli", "cli_text", "txt", 1234, &vec![]),
        "run-cli-cli_text-error_fatal-1234-error_fatal-1234.txt"
    );
}

#[test]
fn files_stay_in_their_directory() {
    let trigger = trigger("../../etc/error", Some("/tmp/{env:PLACE}/"));
    let vars = vec![("PLACE".to_string(), "a/b".to_string())];
    let name = format_output_filename(&trigger, "tui", "event", "json", 7, &vars);
    assert!(!name.contains('/'));
    assert!(name.ends_with("etc_error-7-event.json"));
}

#[test]
fn render_output_prefix_supports_env_variables() {
    let trigger = trigger("warn", Some("job-{env:BAERU_TEST_PREFIX}-"));

    let vars = vec![("BAERU_TEST_PREFIX".to_string(), "nightly build".to_string())];
    let rendered = render_output_prefix(&trigger, "cli", "cli_text", "txt", 1234, &vars);

    assert_eq!(rendered, "job-nightly_build-");
}

#[test]
fn evaluate_lines_marks_matching_chars() {
    let lines = vec!["alpha beta".to_string()];
    let evaluation = evaluate_lines(&lines, &[rule("beta")]);
    assert!(evaluation.colors[0][6].is_some());
    assert!(evaluation.colors[0][9].is_some());
    assert_eq!(evaluation.triggers.len(), 1);
}

#[test]
fn only_matching_chars_are_marked() {
    let lines = vec!["ä beta ä".to_string(), "none".to_string()];
    let evaluation = evaluate_lines(&lines, &[rule("beta")]);
    let yellow = Some(Rgb(255, 255, 0));
    assert_eq!(
        evaluation.colors[0],
        vec![None, None, yellow, yellow, yellow, yellow, None, None]
    );
    assert_eq!(evaluation.colors[1], vec![None; 4]);
    assert_eq!(evaluation.triggers[0].matched_texts, vec!["beta".to_string()]);
    assert!(evaluate_lines(&lines, &[rule("gamma")]).triggers.is_empty());
}

#[test]
fn filter_new_triggers_suppresses_same_fingerprint() {
    let lines = vec!["warn warn".to_string()];
    let evaluation = evaluate_lines(&lines, &[rule("warn")]);
    let again = evaluate_lines(&lines, &[rule("warn")]);
    let mut state = TriggerState::new();
    assert_eq!(filter_new_triggers(&mut state, evaluation.triggers).len(), 1);
    assert_eq!(filter_new_triggers(&mut state, again.triggers).len(), 0);
}

#[test]
fn a_changed_match_triggers_again() {
    let mut state = TriggerState::new();
    let first = evaluate_lines(&[String::from("warn 1")], &[rule(r"warn \d")]);
    let second = evaluate_lines(&[String::from("warn 2")], &[rule(r"warn \d")]);
    assert_eq!(filter_new_triggers(&mut state, first.triggers).len(), 1);
    assert_eq!(filter_new_triggers(&mut state, second.triggers).len(), 1);
}

#[test]
fn fingerprints_hash_the_key_and_the_matches() {
    let matches = vec!["a".to_string(), "bc".to_string()];
    let mut hasher = DefaultHasher::new();
    "key".hash(&mut hasher);
    for found in &matches {
        found.hash(&mut hasher);
    }
    assert_eq!(fingerprint("key", &matches), hasher.finish());
    assert_ne!(fingerprint("key", &matches), fingerprint("kay", &matches));
    assert_eq!(copy_texts(&matches), matches);
}

#[test]
fn names_are_made_safe_and_stay_so() {
    assert_eq!(sanitize_segment("a b/c.d-e_f"), "a_b_c_d-e_f");
    assert_eq!(sanitize_segment("a_b_c_d-e_f"), "a_b_c_d-e_f");
    assert_eq!(sanitize_key("ä:1"), sanitize_segment("ä:1"));
}

#[test]
fn unknown_tokens_and_open_braces_are_kept_readable() {
    let rendered = render_output_prefix(
        &trigger("k", Some("{ext}-{nope}-{")),
        "tui",
        "tui_svg",
        "svg",
        7,
        &vec![],
    );
    assert!(rendered.starts_with("svg-"));
}

#[test]
fn captures_are_written_where_they_are_asked_for() {
    assert!(writes_capture(&trigger("k", None), "cli", false));
    assert!(!writes_capture(&trigger("k", None), "tui", true));
    let mut screenshot = trigger("k", None);
    screenshot.capture_tui_screenshot = true;
    assert!(writes_capture(&screenshot, "tui", true));
    assert!(!writes_capture(&screenshot, "tui", false));
    assert_eq!(capture_kind("cli"), "cli_text");
    assert_eq!(capture_kind("tui"), "tui_svg");
}

#[test]
fn commands_get_what_matched() {
    assert!(trigger_command(&trigger("k", None), "cli", true).is_none());
    let mut with_command = trigger("k", None);
    with_command.matched_texts = vec!["a\"b".to_string(), "c\n".to_string()];
    with_command.command = Some(vec!["echo".to_string(), "hi".to_string()]);
    let command = trigger_command(&with_command, "cli", true).expect("there is a command");
    assert_eq!(command.program, "echo");
    assert_eq!(command.args, vec!["hi".to_string()]);
    let json = VariableValue::Text(r#"["a\"b","c\n"]"#.to_string());
    assert!(command.variables.iter().any(|(_, value)| *value == json));
    assert!(command.variables.iter().any(|(_, value)| *value == VariableValue::CapturePath));
    let without = trigger_command(&with_command, "cli", false).expect("there is a command");
    assert!(!without.variables.iter().any(|(_, value)| *value == VariableValue::CapturePath));
}
