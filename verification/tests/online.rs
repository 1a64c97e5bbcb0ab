use codex_mbtx_contract::online::{
    TaskOracle, config_text, launcher_note, online_arguments, online_attempt_id, online_outcome,
    online_prompt, online_tasks, parse_positive, required_option, task_deadline_ms, toml_string,
};

#[test]
fn transparent_config_contains_only_the_launcher_path() {
    let config = config_text("gpt-test", "https://relay.example/v1", Some("/opt/mbtx"));
    assert!(config.contains("mbtx_backend = \"transparent\""));
    assert!(config.contains("mbtx_command = [\"/opt/mbtx\"]"));
    assert!(config.find("mbtx_backend").unwrap() < config.find("[model_providers").unwrap());
    assert!(!config.contains("OPENAI_API_KEY"));
}

#[test]
fn shell_config_has_no_launcher_and_escapes_values() {
    let config = config_text("a\"b\\c", "https://x/v1\n", None);
    assert!(!config.contains("mbtx_backend"));
    assert!(config.contains("model = \"a\\\"b\\\\c\"\n"));
    assert!(config.contains("base_url = \"https://x/v1\\n\"\n"));
    assert!(config.starts_with("model_provider = \"OpenrouterICU\"\n"));
    assert!(config.ends_with("[features]\ngoals = true\n"));
}

#[test]
fn toml_strings_escape_four_characters() {
    assert_eq!(toml_string("a\\b\"c\nd\re"), "a\\\\b\\\"c\\nd\\re");
    assert_eq!(toml_string("plain ü"), "plain ü");
}

#[test]
fn positive_options_fall_back_to_the_default() {
    let args: Vec<String> = ["--pairs", "0", "--timeout-ms", "250", "--bad", "x"]
        .iter()
        .map(|s| s.to_string())
        .collect();
    assert_eq!(parse_positive(&args, "--pairs", 8), 8);
    assert_eq!(parse_positive(&args, "--timeout-ms", 1), 250);
    assert_eq!(parse_positive(&args, "--bad", 3), 3);
    assert_eq!(parse_positive(&args, "--absent", 4), 4);
    assert_eq!(required_option(&args, "--timeout-ms"), Some("250".to_string()));
    assert_eq!(required_option(&args, "--codex"), None);
}

#[test]
fn parses_command_execution_from_codex_jsonl() {
    let parsed = codex_mbtx_contract::codex_evidence::parse_codex_output(
        br#"{"type":"item.completed","item":{"type":"command_execution","command":"printf ok","aggregated_output":"ok","exit_code":0,"status":"completed"}}"#,
    );
    assert_eq!(parsed.json_lines, 1);
    assert_eq!(parsed.parse_errors, 0);
    assert_eq!(parsed.command.as_deref(), Some("printf ok"));
    assert_eq!(parsed.command_exit_code, Some(0));
    assert_eq!(parsed.aggregated_output, "ok");
}

#[test]
fn classifies_relay_errors_without_calling_them_backend_failures() {
    let parsed = codex_mbtx_contract::codex_evidence::parse_codex_output(
        br#"{"type":"error","message":"upstream returned HTTP 502"}"#,
    );
    let (status, failure_class) = codex_mbtx_contract::online::classify_external_failure(&parsed, "");
    assert_eq!(status, "relay_error");
    assert_eq!(failure_class, "relay_or_transport");
}

#[test]
fn online_classification_falls_back_in_order() {
    let parse = codex_mbtx_contract::codex_evidence::parse_codex_output;
    let classify = codex_mbtx_contract::online::classify_external_failure;
    let provider = parse(br#"{"type":"error","message":"Invalid API key"}"#);
    assert_eq!(classify(&provider, ""), ("provider_error".to_string(), "provider_response".to_string()));
    let broken = parse(b"not json\n");
    assert_eq!(classify(&broken, ""), ("harness_error".to_string(), "invalid_codex_jsonl".to_string()));
    let quiet = parse(b"");
    assert_eq!(classify(&quiet, "HTTP 503 from relay"), ("relay_error".to_string(), "relay_or_transport".to_string()));
    assert_eq!(classify(&quiet, ""), ("unknown".to_string(), "missing_command_event".to_string()));
}

#[test]
fn online_outcome_checks_exit_side_effect_and_marker() {
    let parse = codex_mbtx_contract::codex_evidence::parse_codex_output;
    let ran = parse(br#"{"type":"item.completed","item":{"type":"command_execution","command":"x","aggregated_output":"hello marker","exit_code":0}}"#);
    let task = TaskOracle { expected_exit: 0, marker: "marker", forbidden_path_exists: false };
    assert_eq!(online_outcome(false, false, &ran, "", &task), ("success".to_string(), None));
    assert_eq!(online_outcome(true, true, &ran, "", &task), ("harness_error".to_string(), Some("codex_spawn".to_string())));
    assert_eq!(online_outcome(false, true, &ran, "", &task), ("timeout".to_string(), Some("codex_timeout".to_string())));
    let wrong = TaskOracle { expected_exit: 7, marker: "marker", forbidden_path_exists: false };
    assert_eq!(online_outcome(false, false, &ran, "", &wrong).1, Some("command_exit_mismatch".to_string()));
    let touched = TaskOracle { expected_exit: 0, marker: "marker", forbidden_path_exists: true };
    assert_eq!(online_outcome(false, false, &ran, "", &touched).1, Some("unexpected_side_effect".to_string()));
    let other = TaskOracle { expected_exit: 0, marker: "absent", forbidden_path_exists: false };
    assert_eq!(online_outcome(false, false, &ran, "", &other), ("backend_failure".to_string(), Some("command_output_mismatch".to_string())));
    let unmarked = TaskOracle { expected_exit: 0, marker: "", forbidden_path_exists: false };
    assert_eq!(online_outcome(false, false, &ran, "", &unmarked).0, "success");
    let silent = parse(br#"{"type":"error","message":"gateway timeout"}"#);
    assert_eq!(online_outcome(false, false, &silent, "", &task), ("relay_error".to_string(), Some("relay_or_transport".to_string())));
}

#[test]
fn online_scenarios_names_and_arguments() {
    let tasks = online_tasks();
    assert_eq!(tasks.len(), 8);
    assert_eq!(tasks[1].marker, "\u{6700}\u{540e}\u{4e00}\u{884c}");
    assert_eq!(tasks[6].expected_exit, 143);
    assert_eq!(tasks[6].timeout_ms, 250);
    assert_eq!(online_attempt_id(3, "stdin_utf8", "shell"), "attempt-03-stdin_utf8-shell");
    assert_eq!(online_attempt_id(12, "t", "transparent"), "attempt-12-t-transparent");
    let prompt = online_prompt("echo hi");
    assert!(prompt.starts_with("Use the exec_command tool exactly once."));
    assert!(prompt.ends_with("DONE.\n\necho hi"));
    let args = online_arguments("/w", "m", "p");
    assert_eq!(args.len(), 13);
    assert_eq!(args[4], "--ignore-rules");
    assert_eq!(args[7], "/w");
    assert_eq!(args[11], "m");
    assert_eq!(args[12], "p");
    assert_eq!(launcher_note("transparent", "/opt/mbtx"), "/opt/mbtx exec -- <Codex resolved command>\n");
    assert_eq!(launcher_note("shell", "/opt/mbtx"), "Codex default shell launcher\n");
    assert_eq!(task_deadline_ms(300000, 250), 250);
    assert_eq!(task_deadline_ms(100, 250), 100);
}
