use codex_mbtx_contract::metrics::{launches, metrics, metrics_fit_exec};
use codex_mbtx_contract::{JsonValue, parse_json, to_json_text};

fn json(text: &str) -> JsonValue {
    parse_json(text.as_bytes()).unwrap()
}

fn rows(lines: &[&str]) -> Vec<JsonValue> {
    lines.iter().map(|l| json(l)).collect()
}

#[test]
fn null_metrics_are_not_zero() {
    let m = metrics(&[], &json("{}"));
    assert!(m.field("external_response_ns").is_null());
    assert!(m.field("unexplained_ns").is_null());
}

fn at(phase: &str, event: &str, t: u64, extra: &str) -> String {
    format!(r#"{{"clock_domain":"os-monotonic","phase":"{phase}","event":"{event}","monotonic_ns":{t}{extra}}}"#)
}

#[test]
fn metrics_sum_stages_and_explain_the_codex_interval() {
    let lines = vec![
        at("external", "request_send", 10, r#","request_id":1"#),
        at("external", "stream_eof", 30, r#","request_id":1"#),
        at("tool", "arguments", 20, r#","call_id":"c""#),
        at("tool", "result_ready", 50, r#","call_id":"c""#),
        r#"{"phase":"artifact","duration_ns":7}"#.to_string(),
        r#"{"event":"fd_snapshot","call_id":"c","monotonic_ns":5,"open_fds":3}"#.to_string(),
    ];
    let refs: Vec<&str> = lines.iter().map(|s| s.as_str()).collect();
    let trace = rows(&refs);
    assert!(metrics_fit_exec(&trace));
    let m = metrics(&trace, &json(r#"{"begin_ns":0,"end_ns":100}"#));
    assert_eq!(to_json_text(&m.field("external_response_ns")), "20");
    assert_eq!(to_json_text(&m.field("tool_call_ns")), "30");
    assert_eq!(to_json_text(&m.field("codex_total_ns")), "100");
    assert_eq!(to_json_text(&m.field("unexplained_ns")), "60");
    assert_eq!(to_json_text(&m.field("artifact_write_ns")), "7");
    assert_eq!(to_json_text(&m.field("fd_snapshots")), r#"[{"call_id":"c","monotonic_ns":5,"open_fds":3}]"#);
    assert_eq!(to_json_text(&m.field("approval_ns")), "null");
    let backwards = metrics(&trace, &json(r#"{"begin_ns":100,"end_ns":0}"#));
    assert!(backwards.field("codex_total_ns").is_null());
}

#[test]
fn launches_follow_spawn_to_ready_wait_and_eof() {
    let lines = vec![
        at("spawn", "begin", 100, r#","pid":1,"stream_id":"s""#),
        at("spawn", "return", 110, r#","pid":1,"stream_id":"s","child_pid":42"#),
        at("child", "ready", 150, r#","pid":42"#),
        at("child", "ready", 140, r#","pgid":42"#),
        at("child", "wait_return", 200, r#","pid":1,"stream_id":"s""#),
        at("io", "eof", 190, r#","pid":1,"stream_id":"s""#),
        at("io", "eof", 230, r#","pid":1,"stream_id":"s""#),
        at("spawn", "begin", 300, r#","pid":2,"stream_id":"t""#),
    ];
    let refs: Vec<&str> = lines.iter().map(|s| s.as_str()).collect();
    let (ready, waits, drains) = launches(&rows(&refs));
    assert_eq!(ready, vec![(100, 140)]);
    assert_eq!(waits, vec![(140, 200)]);
    assert_eq!(drains, vec![(200, 230)]);
}
