use codex_mbtx_contract::codex_evidence::ParsedCodex;
use codex_mbtx_contract::online::{
    attempt_metadata, finish_rows, online_counts, online_markdown, online_summary, start_row, AttemptFacts,
    FinishClock, OnlineRecord, OnlineWatch,
};
use codex_mbtx_contract::to_json_text;

fn facts(status: &str, failure: Option<&str>) -> AttemptFacts {
    AttemptFacts {
        pair_id: "pair-01".into(),
        attempt_id: "attempt-01-literal_argv-shell".into(),
        task_id: "literal_argv".into(),
        backend: "shell".into(),
        command: "printf ok".into(),
        expected_exit: 0,
        marker: "ok".into(),
        forbidden_path: None,
        forbidden_path_exists: false,
        timeout_ms: 300000,
        model: "m".into(),
        codex_home: "/h".into(),
        workspace: "/w".into(),
        artifact_dir: "attempts/pair-01/shell".into(),
        codex_exit_code: Some(0),
        codex_signal: None,
        stdout_bytes: 10,
        stderr_bytes: 2,
        elapsed_ms: 7,
        status: status.into(),
        failure_class: failure.map(String::from),
    }
}

fn parsed(command: Option<&str>) -> ParsedCodex {
    ParsedCodex {
        command: command.map(String::from),
        aggregated_output: "ök".into(),
        command_exit_code: command.map(|_| 0),
        command_status: None,
        command_events: 0,
        turn_completed: true,
        usage: None,
        messages: vec!["bad gateway".into()],
        json_lines: 3,
        parse_errors: 0,
    }
}

fn clock() -> FinishClock {
    FinishClock { exit: 11, reap: 12, drain: 13, child: 14, relay: 15 }
}

#[test]
fn start_row_names_the_arm_and_its_command() {
    let text = to_json_text(&start_row(&facts("success", None), 5));
    assert!(text.contains("\"phase\":\"codex\""));
    assert!(text.contains("\"event\":\"start\""));
    assert!(text.contains("\"monotonic_ns\":5"));
    assert!(text.contains("\"command\":\"printf ok\""));
    assert!(text.contains("\"artifact_dir\":\"attempts/pair-01/shell\""));
    assert!(text.contains("\"experiment_id\":\"codex-relay-online-v1\""));
}

#[test]
fn a_run_with_a_command_gets_a_child_row() {
    let rows = finish_rows(&facts("success", None), &parsed(Some("printf ok")), &clock());
    assert_eq!(rows.len(), 4);
    let exit = to_json_text(&rows[0]);
    assert!(exit.contains("\"event\":\"exit\""));
    assert!(exit.contains("\"aggregated_output_bytes\":3"));
    assert!(exit.contains("\"stdout_bytes\":10"));
    assert!(exit.contains("\"failure_class\":null"));
    assert!(to_json_text(&rows[1]).contains("\"event\":\"reap\""));
    assert!(to_json_text(&rows[2]).contains("\"phase\":\"io\""));
    let child = to_json_text(&rows[3]);
    assert!(child.contains("\"phase\":\"child\""));
    assert!(child.contains("\"stdout_bytes\":3"));
    assert!(child.contains("\"monotonic_ns\":14"));
}

#[test]
fn a_relay_error_gets_a_relay_row() {
    let rows = finish_rows(&facts("relay_error", Some("relay_unavailable")), &parsed(None), &clock());
    assert_eq!(rows.len(), 4);
    let relay = to_json_text(&rows[3]);
    assert!(relay.contains("\"phase\":\"relay\""));
    assert!(relay.contains("\"error_messages\":[\"bad gateway\"]"));
    assert!(relay.contains("\"failure_class\":\"relay_unavailable\""));
}

#[test]
fn metadata_records_the_expectations_and_the_outcome() {
    let text = to_json_text(&attempt_metadata(&facts("success", None), &parsed(Some("printf ok"))));
    assert!(text.starts_with("{\"aggregated_output\":\"ök\",\"artifact_dir\":"));
    assert!(text.contains("\"expected_command_exit\":0"));
    assert!(text.contains("\"forbidden_path\":null"));
    assert!(text.ends_with("\"timeout_ms\":300000,\"workspace\":\"/w\"}"));
}

fn record(pair: &str, backend: &str, status: &str, exit: Option<i32>) -> OnlineRecord {
    OnlineRecord {
        pair_id: pair.into(),
        attempt_id: format!("{pair}-{backend}"),
        task_id: "literal_argv".into(),
        backend: backend.into(),
        status: status.into(),
        failure_class: if status == "success" { None } else { Some("relay_unavailable".into()) },
        codex_exit_code: Some(0),
        codex_signal: None,
        command_exit_code: exit,
        command_status: None,
        elapsed_ms: 1,
        stdout_bytes: 2,
        stderr_bytes: 3,
        json_lines: 4,
        parse_errors: 0,
        artifact_dir: format!("attempts/{pair}/{backend}"),
    }
}

#[test]
fn five_infrastructure_failures_in_a_row_stop_the_online_run() {
    let mut watch = OnlineWatch::new();
    for _ in 0..4 {
        assert_eq!(watch.observe("timeout"), None);
    }
    assert_eq!(watch.observe("success"), None);
    assert_eq!(watch.consecutive, 0);
    for _ in 0..4 {
        assert_eq!(watch.observe("relay_error"), None);
    }
    assert_eq!(watch.observe("harness_error").as_deref(), Some("five consecutive infrastructure failures"));
}

#[test]
fn half_of_sixteen_external_failures_stop_the_online_run() {
    let mut watch = OnlineWatch::new();
    let mut stop = None;
    for i in 0..16 {
        stop = watch.observe(if i % 2 == 0 { "provider_error" } else { "success" });
        if i < 15 {
            assert_eq!(stop, None);
        }
    }
    assert_eq!(stop.as_deref(), Some("at least half of the latest 16 arms are external or harness failures"));
    assert_eq!(watch.recent.len(), 16);
    watch.observe("success");
    assert_eq!(watch.recent.len(), 16);
}

#[test]
fn online_summary_counts_complete_pairs() {
    let records = vec![
        record("p0", "shell", "success", Some(0)),
        record("p0", "transparent", "success", Some(0)),
        record("p1", "transparent", "relay_error", None),
        record("p1", "shell", "success", Some(-1)),
        record("p2", "shell", "success", Some(0)),
    ];
    assert_eq!(online_counts(&records), (4, 1));
    let summary = to_json_text(&online_summary(&records, 3, Some("stopped")));
    assert!(summary.starts_with("{\"attempts\":5,\"complete_pairs\":1,\"experiment_id\":\"codex-relay-online-v1\",\"partial\":true,\"planned_pairs\":3,\"records\":["));
    assert!(summary.ends_with("],\"schema_version\":1,\"stop_reason\":\"stopped\",\"successful_arms\":4}"));
    let markdown = online_markdown(&records, 3, Some("stopped"));
    assert!(markdown.starts_with(
        "# Codex relay online collection\n\n- Planned pairs: 3\n- Recorded arms: 5\n- Successful arms: 4\n- Complete pairs: 1\n- Partial: true\n- Stop reason: `stopped`\n\n| Pair |"
    ));
    assert!(markdown.contains("| `p1` | `literal_argv` | `transparent` | `relay_error` | `relay_unavailable` | `` | `attempts/p1/transparent` |\n"));
    assert!(markdown.contains("| `p1` | `literal_argv` | `shell` | `success` | `` | `-1` | `attempts/p1/shell` |\n"));
}
