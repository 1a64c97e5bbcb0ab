use codex_mbtx_contract::arm_verdict::{
    approval_original_command, backend_compliant, backend_observation, base_run,
    counted_responses, failure_category, helper_exit, inputs_preserved, observability,
    output_checks, replacement_receipt, unavailable_run, usage_complete,
    workspace_diff_flags_clean,
};
use codex_mbtx_contract::events::parse_events;
use codex_mbtx_contract::m5_runner::{AttemptRecord, HelperStreams, TaskSpec, TraceSummary};
use codex_mbtx_contract::{parse_json, to_json_text, JsonValue};

fn json(text: &str) -> JsonValue {
    parse_json(text.as_bytes()).expect("test JSON")
}

fn task(id: &str) -> TaskSpec {
    TaskSpec {
        id: id.to_string(),
        cohort: "core".to_string(),
        prompt: "do it".to_string(),
        inputs: vec![
            ("data.txt".to_string(), "1 2 3".to_string()),
            ("src/main.mbt".to_string(), "fn helper {}\nasync fn main {\n  ()\n}\n".to_string()),
        ],
        expected: json(r#"{"sum":6}"#),
        expected_stdout: "ok\n".to_string(),
        expected_stderr: String::new(),
        expected_exit_code: 0,
        expected_manifest: vec!["data.txt".to_string()],
        editable: Some("src/main.mbt".to_string()),
        background: false,
        fixture_nonce: "n-1".to_string(),
        receipt_path: "receipt.json".to_string(),
        oracle: "exact".to_string(),
    }
}

fn attempt(successful: bool, usage: bool) -> AttemptRecord {
    AttemptRecord {
        value: json("{}"),
        provider_error: false,
        transport_error: false,
        successful,
        usage_complete: usage,
    }
}

fn events(parts: &[&str]) -> codex_mbtx_contract::events::EventSummary {
    let mut text = String::new();
    for part in parts {
        text.push_str(part);
        text.push('\n');
    }
    parse_events(&text)
}

#[test]
fn compliance_needs_exec_command_and_no_forbidden_tool() {
    let good = events(&[r#"{"type":"function_call","name":"exec_command","call_id":"a"}"#]);
    assert!(backend_compliant(false, &good, true));
    assert!(!backend_compliant(false, &good, false));
    assert!(!backend_compliant(true, &good, true));
    let bad = events(&[
        r#"{"type":"function_call","name":"exec_command","call_id":"a"}"#,
        r#"{"type":"function_call","name":"shell_command","call_id":"b"}"#,
    ]);
    assert!(!backend_compliant(false, &bad, true));
    let background = events(&[
        r#"{"type":"function_call","name":"exec_command","call_id":"a"}"#,
        r#"{"type":"function_call","name":"write_stdin","call_id":"b"}"#,
    ]);
    assert!(backend_compliant(true, &background, true));
}

#[test]
fn approved_commands_must_be_the_originals() {
    let ok = events(&[r#"{"type":"item.completed","item":{"id":"1","type":"command_execution","command":"python3 run.py"}}"#]);
    assert!(approval_original_command(&ok, "/opt/launcher", "/opt/mbtx", "/work"));
    let wrapped = events(&[r#"{"type":"item.completed","item":{"id":"1","type":"command_execution","command":"/opt/launcher python3 run.py"}}"#]);
    assert!(!approval_original_command(&wrapped, "/opt/launcher", "/opt/mbtx", "/work"));
    let none = events(&[]);
    assert!(!approval_original_command(&none, "/opt/launcher", "/opt/mbtx", "/work"));
}

#[test]
fn captured_attempts_stand_in_for_missing_responses() {
    let attempts = vec![attempt(false, false), attempt(true, true)];
    assert_eq!(counted_responses(0, false, &attempts), (2, true));
    assert_eq!(counted_responses(3, false, &attempts), (3, false));
    assert_eq!(counted_responses(0, false, &[]), (0, false));
}

#[test]
fn observability_levels() {
    assert_eq!(observability(0, 0, true, false, true, false), "unobserved");
    assert_eq!(observability(1, 0, true, false, true, false), "complete");
    assert_eq!(observability(1, 0, true, true, true, false), "partial");
    assert_eq!(observability(0, 2, true, false, true, true), "partial");
}

#[test]
fn backend_observation_levels() {
    assert_eq!(backend_observation("transparent", true, 2, 2, true), "compliant");
    assert_eq!(backend_observation("transparent", true, 2, 1, true), "unknown");
    assert_eq!(backend_observation("shell", true, 0, 0, false), "violation");
    assert_eq!(backend_observation("shell", true, 1, 1, true), "unknown");
}

#[test]
fn usage_is_complete_only_with_a_successful_attempt() {
    assert!(usage_complete(&[attempt(true, true), attempt(false, false)]));
    assert!(!usage_complete(&[attempt(true, false)]));
    assert!(!usage_complete(&[attempt(false, true)]));
}

#[test]
fn evidence_tool_category_wins_over_local_one() {
    let answer = br#"{"failure_category":"agent_error"}"#;
    let local = |a: Option<&[u8]>| {
        failure_category(a, "clean", "complete", "compliant", true, true, true, true, true, true, true, true, true, true, false)
    };
    assert_eq!(local(Some(answer)), "agent_error");
    assert_eq!(local(None), "none");
    assert_eq!(local(Some(b"not json")), "none");
    assert_eq!(local(Some(br#"{"other":1}"#)), "none");
}

#[test]
fn base_run_starts_unobserved() {
    let run = base_run("b1", "t1", "shell");
    let text = to_json_text(&run);
    assert!(text.starts_with(r#"{"approval_original_command":false,"argv_cwd_valid":false,"attempts":[],"backend":"shell""#));
    assert!(text.contains(r#""run_id":"b1-shell""#));
    assert!(text.contains(r#""exit_code":-1"#));
    assert!(text.contains(r#""failure_category":"infrastructure_unavailable""#));
    assert!(text.contains(r#""workspace_diff":{"entries":[],"permissions_unchanged":false,"symlinks_unchanged":false}"#));
}

#[test]
fn unavailable_run_records_the_reason() {
    let run = unavailable_run("b1", "t1", "transparent", "relay down", "provider_error");
    let text = to_json_text(&run);
    assert!(text.contains(r#""relay_status":"provider_error""#));
    assert!(text.contains(r#""infrastructure_reason":"relay down""#));
    assert!(text.contains(r#""stderr":"relay down""#));
    assert!(!text.contains("transport_error"));
}

#[test]
fn helper_exit_is_the_last_traced_exit() {
    let trace = TraceSummary {
        command_starts: vec![],
        command_exits: vec![json(r#"{"exit_code":3}"#), json(r#"{"exit_code":0}"#), json("{}")],
        launcher_starts: 0,
        launcher_exits: 0,
        labels: vec![],
    };
    assert_eq!(helper_exit(&trace, "sum", true), 0);
    assert_eq!(helper_exit(&trace, "host_cancel_timeout", false), -1);
    assert_eq!(helper_exit(&trace, "host_cancel_timeout", true), 0);
    let empty = TraceSummary { command_starts: vec![], command_exits: vec![], launcher_starts: 0, launcher_exits: 0, labels: vec![] };
    assert_eq!(helper_exit(&empty, "sum", true), -1);
}

#[test]
fn cancelled_run_gets_a_stopped_receipt() {
    let cancel = task("host_cancel_timeout");
    let stopped = json(r#"{"helper":"h","nonce":"n-1","status":"stopped","task":"host_cancel_timeout"}"#);
    assert!(replacement_receipt(&cancel, &stopped, false).is_none());
    let running = json(r#"{"helper":"h","nonce":"n-1","status":"completed","task":"host_cancel_timeout"}"#);
    let replaced = replacement_receipt(&cancel, &running, false).expect("replaced");
    assert_eq!(
        to_json_text(&replaced),
        r#"{"helper":"cancelled-child","nonce":"n-1","status":"stopped","task":"host_cancel_timeout"}"#
    );
    assert!(replacement_receipt(&cancel, &running, true).is_none());
    assert!(replacement_receipt(&task("sum"), &running, false).is_none());
}

#[test]
fn output_checks_of_a_normal_and_a_cancelled_task() {
    let streams = HelperStreams { stdout: "ok\n".to_string(), stderr: String::new() };
    let sum = task("sum");
    assert_eq!(output_checks(&sum, &json(r#"{"sum":6}"#), true, true, &streams, 0), (true, true, true));
    assert_eq!(output_checks(&sum, &json(r#"{"sum":7}"#), true, true, &streams, 2), (false, false, false));
    let cancel = task("host_cancel_timeout");
    assert_eq!(output_checks(&cancel, &json("null"), false, true, &streams, 9), (true, true, true));
    assert_eq!(output_checks(&cancel, &json("null"), true, true, &streams, 9), (false, true, true));
}

#[test]
fn workspace_diff_flags() {
    assert!(workspace_diff_flags_clean(&json(r#"{"permissions_unchanged":true,"symlinks_unchanged":true}"#)));
    assert!(!workspace_diff_flags_clean(&json(r#"{"permissions_unchanged":true,"symlinks_unchanged":false}"#)));
    assert!(!workspace_diff_flags_clean(&json(r#"{"permissions_unchanged":true}"#)));
}

#[test]
fn inputs_are_preserved_outside_main() {
    let t = task("sum");
    let kept = vec![
        Some("1 2 3".to_string()),
        Some("fn helper {}\nfn added {}\nasync fn main {\n  ()\n}\n".to_string()),
    ];
    assert!(inputs_preserved(&t, &kept));
    let changed = vec![
        Some("1 2 4".to_string()),
        Some("fn helper {}\nasync fn main {\n  ()\n}\n".to_string()),
    ];
    assert!(!inputs_preserved(&t, &changed));
    let helper_edited = vec![
        Some("1 2 3".to_string()),
        Some("fn other {}\nasync fn main {\n  ()\n}\n".to_string()),
    ];
    assert!(!inputs_preserved(&t, &helper_edited));
    assert!(!inputs_preserved(&t, &vec![None, Some(String::new())]));
}
