use codex_mbtx_contract::trace_summary::summarize_traces;
use codex_mbtx_contract::{parse_json, JsonValue};

fn json(text: &str) -> JsonValue {
    parse_json(text.as_bytes()).expect("test JSON")
}

#[test]
fn trace_events_are_ordered_by_timestamp_then_reading_order() {
    let commands = vec![
        json(r#"{"event":"command_start","started_unix_ns":30}"#),
        json(r#"{"event":"command_exit","exit_code":0,"finished_unix_ns":50}"#),
        json(r#"{"event":"other","started_unix_ns":10}"#),
        json(r#"{"event":"command_start"}"#),
    ];
    let launcher = vec![
        json(r#"{"event":"launcher_start","started_unix_ns":20}"#),
        json(r#"{"event":"launcher_exit","finished_unix_ns":50}"#),
        json(r#"{"event":"command_start","started_unix_ns":5}"#),
    ];
    let summary = summarize_traces(&commands, &launcher);
    assert_eq!(
        summary.labels,
        vec![
            "trace_unknown",
            "trace_unknown",
            "launcher_start",
            "command_start",
            "command_exit",
            "launcher_exit",
            "command_start",
        ]
    );
    assert_eq!(summary.command_starts.len(), 2);
    assert_eq!(summary.command_exits.len(), 1);
    assert_eq!(summary.launcher_starts, 1);
    assert_eq!(summary.launcher_exits, 1);
}

#[test]
fn empty_traces_give_an_empty_summary() {
    let summary = summarize_traces(&vec![], &vec![]);
    assert!(summary.labels.is_empty());
    assert_eq!(summary.launcher_starts, 0);
}
