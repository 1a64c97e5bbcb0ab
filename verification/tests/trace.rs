use codex_mbtx_contract::trace::{
    TraceContext, escape_json, json_string, next_id, resources_detail, span, stream_file,
    stream_row, trace_row,
};

#[test]
fn ids_are_consecutive_and_wrap() {
    let mut sequence = 1u64;
    assert_eq!(next_id(&mut sequence), 1);
    assert_eq!(next_id(&mut sequence), 2);
    assert_eq!(sequence, 3);
    let mut last = u64::MAX;
    assert_eq!(next_id(&mut last), u64::MAX);
    assert_eq!(last, 0);
}

#[test]
fn spans_keep_phase_and_detail() {
    let s = span("spawn", "{\"x\":1}".to_string());
    assert_eq!(s.phase(), "spawn");
    assert_eq!(s.detail(), "{\"x\":1}");
}

#[test]
fn json_strings_escape_controls() {
    assert_eq!(escape_json("a\"b\\c\n\r\t\u{1}\u{7f}\u{9f}é"), "\"a\\\"b\\\\c\\n\\r\\t\\u0001\\u007f\\u009fé\"");
    assert_eq!(json_string(None), "null");
    assert_eq!(json_string(Some("x")), "\"x\"");
}

#[test]
fn trace_rows_are_exact_json_lines() {
    let context = TraceContext {
        experiment_id: Some("e".into()),
        pair_id: None,
        attempt_id: Some("a\"1".into()),
        task_id: None,
        backend: Some("shell".into()),
    };
    let row = trace_row(&context, "io", "read", "{}", 42, 7, 3);
    assert_eq!(
        row,
        "{\"schema_version\":2,\"experiment_id\":\"e\",\"pair_id\":null,\"attempt_id\":\"a\\\"1\",\"task_id\":null,\"backend\":\"shell\",\"phase\":\"io\",\"event\":\"read\",\"parent_id\":null,\"monotonic_ns\":42,\"clock_domain\":\"os-monotonic\",\"pid\":7,\"sequence\":3,\"exit_code\":null,\"signal\":null,\"stdout_bytes\":null,\"stderr_bytes\":null,\"status\":\"unknown\",\"failure_class\":null,\"confidence\":\"observed\",\"detail\":{}}\n"
    );
    let parsed = codex_mbtx_contract::parse_json(row.trim_end().as_bytes());
    assert!(parsed.is_some());
}

#[test]
fn resource_and_stream_details() {
    assert_eq!(resources_detail("c1", Some(12)), "{\"call_id\":\"c1\",\"open_fds\":12}");
    assert_eq!(resources_detail("c1", None), "{\"call_id\":\"c1\",\"open_fds\":null}");
    let file = stream_file(9, 4, "stdout");
    assert_eq!(file, "stream-9-4-stdout.bin");
    let (event, detail) = stream_row(4, "stdout", 0, &file);
    assert_eq!(event, "eof");
    assert_eq!(detail, "{\"stream_id\":4,\"stream\":\"stdout\",\"bytes\":0,\"file\":\"stream-9-4-stdout.bin\"}");
    assert_eq!(stream_row(4, "stdout", 5, &file).0, "read");
}

#[test]
fn escaped_text_reads_back_as_the_same_string() {
    for text in ["plain", "quote \" and \\ backslash", "line\nbreak\ttab\r", "\u{1}\u{1f}\u{7f}", "中文 ü", ""] {
        let literal = escape_json(text);
        assert!(literal.starts_with('"') && literal.ends_with('"'));
        assert!(!literal.chars().any(|c| (c as u32) < 0x20));
        assert_eq!(serde_json::from_str::<String>(&literal).unwrap(), text);
    }
}
