use codex_mbtx_contract::capture::{
    capture_step, concatenate_streams, helper_stream_files, keep_chunk, new_capture_meta,
    MAX_CAPTURE_BYTES,
};

#[test]
fn stdout_markers_are_taken_from_the_captured_text() {
    let mut meta = new_capture_meta();
    let mut kept = Vec::new();
    keep_chunk(&mut kept, br#"{"type":"thread.started"}"#);
    capture_step(&mut meta, &kept, true, true, 5, 6);
    assert_eq!(meta.first_stdout_ms, Some(5));
    assert_eq!(meta.first_response_ms, None);
    keep_chunk(&mut kept, b"\n{\"type\": \"item.started\",\"item\":{\"type\":\"command_execution\"}}\n");
    capture_step(&mut meta, &kept, true, false, 10, 11);
    assert_eq!(meta.first_stdout_ms, Some(5));
    assert_eq!(meta.first_response_ms, Some(11));
    assert_eq!(meta.first_tool_ms, Some(11));
    assert_eq!(meta.last_tool_ms, Some(11));
    keep_chunk(&mut kept, br#"{"type":"turn.completed"}"#);
    capture_step(&mut meta, &kept, true, false, 20, 21);
    assert_eq!(meta.first_response_ms, Some(11));
    assert_eq!(meta.first_tool_ms, Some(11));
    assert_eq!(meta.last_tool_ms, Some(21));
    assert_eq!(meta.turn_completed_ms, Some(21));
}

#[test]
fn stderr_only_marks_its_first_output() {
    let mut meta = new_capture_meta();
    capture_step(&mut meta, br#"{"type":"turn.completed"}"#, false, true, 3, 4);
    assert_eq!(meta.first_stderr_ms, Some(3));
    assert_eq!(meta.turn_completed_ms, None);
    assert_eq!(meta.first_stdout_ms, None);
}

#[test]
fn chunks_beyond_the_limit_are_dropped() {
    let mut kept = vec![0u8; MAX_CAPTURE_BYTES - 2];
    keep_chunk(&mut kept, b"abcd");
    assert_eq!(kept.len(), MAX_CAPTURE_BYTES);
    assert_eq!(&kept[MAX_CAPTURE_BYTES - 2..], b"ab");
    keep_chunk(&mut kept, b"ef");
    assert_eq!(kept.len(), MAX_CAPTURE_BYTES);
}

#[test]
fn helper_files_are_picked_and_sorted() {
    let names = vec![
        "command-output-2.stdout".to_string(),
        "command-output-1.stderr".to_string(),
        "command-output-1.stdout".to_string(),
        "events.jsonl".to_string(),
        "other-1.stdout".to_string(),
    ];
    assert_eq!(
        helper_stream_files(&names, ".stdout"),
        vec!["command-output-1.stdout".to_string(), "command-output-2.stdout".to_string()]
    );
    assert_eq!(helper_stream_files(&names, ".stderr"), vec!["command-output-1.stderr".to_string()]);
}

#[test]
fn helper_outputs_are_concatenated_and_unreadable_ones_skipped() {
    let chunks = vec![Some(b"one\n".to_vec()), None, Some(b"two\n".to_vec())];
    assert_eq!(concatenate_streams(&chunks), "one\ntwo\n");
    assert_eq!(concatenate_streams(&vec![]), "");
    let big = vec![Some(vec![b'a'; MAX_CAPTURE_BYTES - 1]), Some(b"bcd".to_vec())];
    let text = concatenate_streams(&big);
    assert_eq!(text.len(), MAX_CAPTURE_BYTES);
    assert!(text.ends_with("ab"));
}
