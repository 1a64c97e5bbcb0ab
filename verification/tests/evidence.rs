use codex_mbtx_contract::evidence::{Trace, digest, hex, lines, normalize_trace};
use codex_mbtx_contract::parse_json;

#[test]
fn digests_are_lower_case_sha256() {
    assert_eq!(
        digest(b"abc"),
        "ba7816bf8f01cfea414140de5dae2223b00361a396177a9cb410ff61f20015ad"
    );
    assert_eq!(hex(&[0, 15, 16, 255]), "000f10ff");
}

#[test]
fn json_lines_report_completeness() {
    let (values, complete) = lines(b"{\"a\":1}\n\n{\"b\":2}\n");
    assert_eq!(values.len(), 2);
    assert!(complete);
    let (values, complete) = lines(b"{\"a\":1}\n{\"b\":");
    assert_eq!(values.len(), 1);
    assert!(!complete);
    let (values, complete) = lines(b"{\"a\":1}\nnot json\n{\"c\":3}\n");
    assert_eq!(values.len(), 1);
    assert!(!complete);
    let (values, complete) = lines(b"");
    assert!(values.is_empty());
    assert!(complete);
}

#[test]
fn trace_detail_is_lifted_with_status_renamed() {
    let row = parse_json(br#"{"phase":"external","status":"unknown","detail":{"status":503,"bytes":7}}"#).unwrap();
    let n = normalize_trace(row);
    assert_eq!(n.field("http_status").as_u64(), Some(503));
    assert_eq!(n.field_str("status"), Some("unknown"));
    assert_eq!(n.field("bytes").as_u64(), Some(7));
    let plain = parse_json(br#"{"detail":"text"}"#).unwrap();
    assert_eq!(normalize_trace(plain).field_str("detail"), Some("text"));
}

#[test]
fn trace_rows_are_numbered_and_carry_context_then_detail() {
    let context = parse_json(br#"{"experiment_id":"e1","phase":"context"}"#).unwrap();
    let mut trace = Trace::create("/tmp/events.jsonl", context);
    let detail = parse_json(br#"{"pair_id":"p","event":"overridden"}"#).unwrap();
    let row = trace.at(99, "codex", "exit", &detail, 10, -3);
    assert_eq!(row.field("sequence").as_u64(), Some(1));
    assert_eq!(row.field_str("experiment_id"), Some("e1"));
    assert_eq!(row.field_str("phase"), Some("context"));
    assert_eq!(row.field_str("event"), Some("overridden"));
    assert_eq!(row.field("pgid").as_i64(), Some(-3));
    let id = format!("10:{}:1", digest(b"/tmp/events.jsonl"));
    assert_eq!(row.field_str("event_id"), Some(id.as_str()));
    let row = trace.at(100, "codex", "exit", &parse_json(b"null").unwrap(), 10, 1);
    assert_eq!(row.field("sequence").as_u64(), Some(2));
}
