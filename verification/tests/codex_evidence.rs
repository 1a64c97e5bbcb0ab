use codex_mbtx_contract::codex_evidence::{
    Assessment, CommandOracle, ProcessEvidence, assess, classify_external_failure,
    http_error_status, parse_codex_output,
};

fn command_line(exit: i32, command: Option<&str>, output: &str) -> String {
    match command {
        Some(command) => format!(
            r#"{{"item":{{"aggregated_output":"{output}","command":"{command}","exit_code":{exit},"type":"command_execution"}},"type":"item.completed"}}"#
        ),
        None => format!(
            r#"{{"item":{{"aggregated_output":"{output}","exit_code":{exit},"type":"command_execution"}},"type":"item.completed"}}"#
        ),
    }
}

fn assessment(exit: i32, codex_exit: Option<i32>, terminal: &str, timed_out: bool) -> Assessment {
    let command = command_line(exit, Some("fixture"), "expected marker");
    let parsed = parse_codex_output(format!("{command}\n{terminal}\n").as_bytes());
    assess(
        &parsed,
        "",
        ProcessEvidence {
            exit_code: codex_exit,
            timed_out,
            spawn_failed: false,
        },
        CommandOracle {
            expected_exit: Some(exit),
            expected_marker: Some("expected marker"),
            forbidden_path_exists: Some(false),
        },
    )
}

#[test]
fn expected_nonzero_and_signal_exits_are_command_successes() {
    for exit in [0, 7, 143, 137] {
        let result = assessment(exit, Some(0), r#"{"type":"turn.completed"}"#, false);
        assert_eq!(result.status, "success");
        assert_eq!(result.command_outcome, "success");
    }
}

#[test]
fn request_timeout_after_command_is_external_and_preserves_oracle_result() {
    for exit in [0, 7, 143] {
        let result = assessment(
            exit,
            Some(1),
            r#"{"type":"turn.failed","error":{"message":"request timed out"}}"#,
            false,
        );
        assert_eq!(result.status, "relay_error");
        assert_eq!(result.failure_class.as_deref(), Some("relay_request_timeout"));
        assert_eq!(result.command_outcome, "success");
    }
}

#[test]
fn missing_terminal_evidence_and_collector_deadline_cannot_be_success() {
    assert_eq!(assessment(0, Some(0), "", false).status, "unknown");
    assert_eq!(assessment(0, None, "", false).status, "unknown");
    let result = assessment(0, None, "", true);
    assert_eq!(result.status, "timeout");
    assert_eq!(result.failure_class.as_deref(), Some("codex_timeout"));
    assert_eq!(result.command_outcome, "success");
    assert!(parse_codex_output(b"").usage.is_none());
}

#[test]
fn multiple_commands_do_not_pass_by_selecting_the_last_success() {
    let command = command_line(0, None, "ok");
    let parsed = parse_codex_output(
        format!("{command}\n{command}\n{{\"type\":\"turn.completed\"}}").as_bytes(),
    );
    let result = assess(
        &parsed,
        "",
        ProcessEvidence {
            exit_code: Some(0),
            timed_out: false,
            spawn_failed: false,
        },
        CommandOracle {
            expected_exit: Some(0),
            expected_marker: Some("ok"),
            forbidden_path_exists: Some(false),
        },
    );
    assert_eq!(result.status, "harness_error");
    assert_eq!(
        result.failure_class.as_deref(),
        Some("unexpected_command_count")
    );
}

#[test]
fn completed_turn_without_a_working_tool_preserves_configuration_failure() {
    let parsed = parse_codex_output(br#"{"type":"item.completed","item":{"type":"error","message":"Code Mode is unavailable: host executable was not found"}}
{"type":"turn.completed"}"#);
    let result = assess(
        &parsed,
        "",
        ProcessEvidence {
            exit_code: Some(0),
            timed_out: false,
            spawn_failed: false,
        },
        CommandOracle {
            expected_exit: Some(0),
            expected_marker: Some("ok"),
            forbidden_path_exists: Some(false),
        },
    );
    assert_eq!(result.status, "harness_error");
    assert_eq!(
        result.failure_class.as_deref(),
        Some("codex_tool_configuration")
    );
    assert_eq!(result.command_outcome, "unknown");
}

#[test]
fn parse_counts_lines_and_keeps_the_last_command() {
    let first = command_line(3, Some("first"), "one");
    let second = r#"{"type":"item.completed","item":{"type":"commandExecution","command":"second","exitCode":4,"aggregatedOutput":"two","status":"completed"}}"#;
    let input = format!("{first}\r\n\n  \nnot json\n{second}\n{{\"type\":\"error\",\"message\":\"boom\"}}\n{{\"type\":\"turn.completed\",\"usage\":{{\"input_tokens\":5}}}}");
    let parsed = parse_codex_output(input.as_bytes());
    assert_eq!(parsed.json_lines, 4);
    assert_eq!(parsed.parse_errors, 1);
    assert_eq!(parsed.command_events, 2);
    assert_eq!(parsed.command.as_deref(), Some("second"));
    assert_eq!(parsed.aggregated_output, "two");
    assert_eq!(parsed.command_exit_code, Some(4));
    assert_eq!(parsed.command_status.as_deref(), Some("completed"));
    assert_eq!(parsed.messages, vec!["boom".to_string()]);
    assert!(parsed.turn_completed);
    assert!(parsed.usage.is_some());
}

#[test]
fn exit_codes_outside_i32_are_dropped_and_null_usage_is_none() {
    let input = "{\"type\":\"item.completed\",\"item\":{\"type\":\"command_execution\",\"exit_code\":4294967296}}\n{\"type\":\"turn.completed\",\"usage\":null}\n{\"type\":\"turn.failed\",\"error\":{\"message\":\"late\"}}";
    let parsed = parse_codex_output(input.as_bytes());
    assert_eq!(parsed.command_events, 1);
    assert_eq!(parsed.command_exit_code, None);
    assert_eq!(parsed.aggregated_output, "");
    assert!(!parsed.turn_completed);
    assert!(parsed.usage.is_none());
    assert_eq!(parsed.messages, vec!["late".to_string()]);
}

#[test]
fn invalid_utf8_is_replaced_not_rejected() {
    let parsed = parse_codex_output(b"\xff\xfe\n{\"type\":\"error\",\"message\":\"x\"}");
    assert_eq!(parsed.parse_errors, 1);
    assert_eq!(parsed.json_lines, 1);
}

#[test]
fn http_status_needs_an_explicit_prefix_and_an_error_range() {
    let parsed = parse_codex_output(
        b"{\"type\":\"error\",\"message\":\"see https://x/404 then HTTP 302 found\"}\n{\"type\":\"error\",\"message\":\"last status:   503 upstream\"}",
    );
    assert_eq!(http_error_status(&parsed, "unexpected status 401"), Some(503));
    let empty = parse_codex_output(b"");
    assert_eq!(http_error_status(&empty, "unexpected status +429 Too Many"), Some(429));
    assert_eq!(http_error_status(&empty, "HTTP 700"), None);
    assert_eq!(http_error_status(&empty, "HTTP"), None);
    assert_eq!(http_error_status(&empty, "HTTP 302 then HTTP 404"), None);
}

#[test]
fn external_failures_are_classified_by_status_then_words() {
    let empty = parse_codex_output(b"");
    let class = |stderr: &str| classify_external_failure(&empty, stderr);
    assert_eq!(class("HTTP 401"), ("provider_error".to_string(), "provider_authentication".to_string()));
    assert_eq!(class("HTTP 429"), ("relay_error".to_string(), "relay_or_transport".to_string()));
    assert_eq!(class("HTTP 404"), ("provider_error".to_string(), "provider_response".to_string()));
    assert_eq!(class("Invalid API key"), ("provider_error".to_string(), "provider_authentication".to_string()));
    assert_eq!(class("Request Timeout"), ("relay_error".to_string(), "relay_request_timeout".to_string()));
    assert_eq!(class("Connection reset by peer"), ("relay_error".to_string(), "relay_or_transport".to_string()));
    assert_eq!(class("quota exceeded"), ("provider_error".to_string(), "provider_response".to_string()));
    assert_eq!(class(""), ("unknown".to_string(), "missing_command_event".to_string()));
    let broken = parse_codex_output(b"nope");
    assert_eq!(
        classify_external_failure(&broken, ""),
        ("harness_error".to_string(), "invalid_codex_jsonl".to_string())
    );
    let ran = parse_codex_output(command_line(0, None, "").as_bytes());
    assert_eq!(
        classify_external_failure(&ran, ""),
        ("unknown".to_string(), "codex_incomplete".to_string())
    );
}

#[test]
fn oracle_mismatches_are_backend_failures() {
    let parsed = parse_codex_output(
        format!("{}\n{{\"type\":\"turn.completed\"}}", command_line(0, None, "done")).as_bytes(),
    );
    let run = |exit: Option<i32>, marker: Option<&str>, side: Option<bool>| {
        assess(
            &parsed,
            "",
            ProcessEvidence { exit_code: Some(0), timed_out: false, spawn_failed: false },
            CommandOracle { expected_exit: exit, expected_marker: marker, forbidden_path_exists: side },
        )
    };
    assert_eq!(run(Some(1), Some("done"), Some(false)).command_failure_class.as_deref(), Some("command_exit_mismatch"));
    assert_eq!(run(Some(0), Some("done"), Some(true)).command_failure_class.as_deref(), Some("unexpected_side_effect"));
    assert_eq!(run(Some(0), Some("gone"), Some(false)).command_failure_class.as_deref(), Some("command_output_mismatch"));
    let missing = run(None, Some("done"), Some(false));
    assert_eq!(missing.status, "unknown");
    assert_eq!(missing.command_failure_class.as_deref(), Some("missing_command_oracle"));
    let spawn = assess(
        &parsed,
        "",
        ProcessEvidence { exit_code: None, timed_out: true, spawn_failed: true },
        CommandOracle { expected_exit: Some(0), expected_marker: Some("done"), forbidden_path_exists: Some(false) },
    );
    assert_eq!(spawn.status, "harness_error");
    assert_eq!(spawn.failure_class.as_deref(), Some("codex_spawn"));
    assert_eq!(spawn.command_outcome, "success");
}
