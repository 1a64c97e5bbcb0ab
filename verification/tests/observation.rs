use codex_mbtx_contract::observation::{ObservedBody, Observer};
use codex_mbtx_contract::{JsonValue, parse_json, to_json_text};

#[test]
fn requests_are_numbered_from_one_and_rows_carry_context() {
    let mut observer = Observer::new("/tmp/dumps".to_string());
    assert_eq!(observer.directory(), "/tmp/dumps");
    let mut first = observer.request(Some(br#"{"pair_id":"p1","phase":"override"}"#));
    let second = observer.request(None);
    assert_eq!(first.id(), 1);
    assert_eq!(second.id(), 2);
    assert_eq!(first.file_name(), "request-000001.jsonl");
    let detail = parse_json(br#"{"bytes":3}"#).unwrap();
    let row = first.emit("stream_chunk", detail, Some(77), 12);
    assert_eq!(row.field_str("pair_id"), Some("p1"));
    assert_eq!(row.field_str("phase"), Some("override"));
    assert_eq!(row.field("sequence").as_u64(), Some(1));
    assert_eq!(row.field("monotonic_ns").as_u64(), Some(77));
    let again = first.emit("stream_eof", JsonValue::Null, None, 12);
    assert_eq!(again.field("sequence").as_u64(), Some(2));
    assert!(again.field("monotonic_ns").is_null());
    let text = to_json_text(&again);
    assert!(text.contains("\"clock_domain\":\"os-monotonic\""));
}

#[test]
fn broken_context_becomes_empty() {
    let mut observer = Observer::new("d".to_string());
    let mut trace = observer.request(Some(b"not json"));
    let row = trace.emit("first_byte", JsonValue::Null, Some(1), 1);
    assert_eq!(row.field_str("phase"), Some("external"));
}

#[test]
fn sse_lines_yield_tool_and_completion_events_across_chunks() {
    let mut body = ObservedBody::new();
    let part1 = b"event: x\ndata: {\"type\":\"response.output_item.done\",\"item\":{\"type\":\"function_call\",\"call_id\":\"c1\",\"name\":\"exec\"}}\ndata: {\"type\":\"resp";
    let events = body.on_read(part1);
    let names: Vec<&str> = events.iter().map(|e| e.0.as_str()).collect();
    assert_eq!(names, vec!["first_byte", "stream_chunk", "tool_arguments_complete"]);
    assert_eq!(events[2].1.field_str("call_id"), Some("c1"));
    assert_eq!(events[2].1.field_str("tool"), Some("exec"));
    let events = body.on_read(b"onse.completed\",\"response\":{\"id\":\"r9\",\"usage\":{\"t\":1}}}\n");
    let names: Vec<&str> = events.iter().map(|e| e.0.as_str()).collect();
    assert_eq!(names, vec!["stream_chunk", "response_completed"]);
    assert_eq!(events[1].1.field_str("response_id"), Some("r9"));
    assert!(body.pending.is_empty());
    assert!(body.on_drop().is_some());
    let events = body.on_read(b"");
    assert_eq!(events.len(), 1);
    assert_eq!(events[0].0, "stream_eof");
    assert!(body.finished);
    assert!(body.on_drop().is_none());
    assert_eq!(body.on_error("boom").0, "stream_error");
}

#[test]
fn overlong_lines_are_dropped_with_an_event() {
    let mut body = ObservedBody::new();
    let big = vec![b'x'; 4 * 1024 * 1024 + 1];
    let events = body.observe_sse(&big);
    assert_eq!(events.len(), 1);
    assert_eq!(events[0].0, "sse_observation_censored");
    assert!(body.pending.is_empty());
    let events = body.observe_sse(b"data: {\"type\":\"response.output_item.done\",\"item\":{\"type\":\"message\"}}\n");
    assert!(events.is_empty());
}
