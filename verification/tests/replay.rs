use codex_mbtx_contract::parse_json;
use codex_mbtx_contract::replay::{is_model_request, response, session_id};

#[test]
fn replay_requires_real_session_and_preserves_arguments() {
    let active = parse_json(
        "{\"task\":{\"steps\":[{\"tool\":\"write_stdin\",\"arguments\":{\"session_id\":\"$session\",\"chars\":\"\\u0003\"}}]},\"tool_mode\":\"direct\"}".as_bytes(),
    )
    .unwrap();
    assert!(response(&parse_json(br#"{"input":[]}"#).unwrap(), &active, 1).is_err());
    assert_eq!(
        session_id(&parse_json(br#"{"output":"{\"session_id\":42}"}"#).unwrap()),
        Some(42)
    );
}

#[test]
fn housekeeping_requests_are_not_model_turns() {
    assert!(!is_model_request(&parse_json(br#"{"turn_ids":["turn-1"]}"#).unwrap()));
    assert!(is_model_request(&parse_json(br#"{"input":[]}"#).unwrap()));
}

#[test]
fn session_ids_come_from_the_latest_output() {
    let value = parse_json(br#"[{"session_id":1},{"x":"Process running with session ID 77 now"}]"#).unwrap();
    assert_eq!(session_id(&value), Some(77));
    let value = parse_json(br#"{"a":{"session_id":3},"b":{"session_id":-4}}"#).unwrap();
    assert_eq!(session_id(&value), Some(-4));
    assert_eq!(session_id(&parse_json(br#""no session here""#).unwrap()), None);
    assert_eq!(session_id(&parse_json(br#"{"session_id":"9"}"#).unwrap()), None);
}

#[test]
fn replay_fills_the_session_and_counts_outputs() {
    let active = parse_json(
        br#"{"task":{"steps":[{"tool":"exec_command","arguments":{"cmd":"x"}},{"tool":"write_stdin","arguments":{"session_id":"$session","chars":""}}]},"tool_mode":"direct"}"#,
    )
    .unwrap();
    let body = parse_json(
        br#"{"input":[{"type":"function_call_output","output":"Process running with session ID 5"}]}"#,
    )
    .unwrap();
    let text = response(&body, &active, 3).unwrap();
    assert!(text.starts_with("event: response.created\ndata: "));
    assert!(text.contains("\"id\":\"fc-3\""));
    assert!(text.contains("\"name\":\"write_stdin\""));
    assert!(text.contains("session_id\\\":5"));
    assert!(text.ends_with("\n\n"));
    let done = parse_json(br#"{"input":[{"type":"function_call_output"},{"type":"custom_tool_call_output"}]}"#).unwrap();
    let text = response(&done, &active, 4).unwrap();
    assert!(text.contains("\"DONE\""));
    assert!(text.contains("replay-4"));
    let code = parse_json(br#"{"task":{"steps":[{}],"code_mode_program":"print(1)"},"tool_mode":"code"}"#).unwrap();
    let text = response(&parse_json(br#"{"input":[]}"#).unwrap(), &code, 1).unwrap();
    assert!(text.contains("\"name\":\"exec\""));
    assert_eq!(response(&parse_json(b"{}").unwrap(), &code, 1), Err("missing Responses input".to_string()));
    let no_steps = parse_json(br#"{"tool_mode":"code"}"#).unwrap();
    assert_eq!(response(&parse_json(br#"{"input":[]}"#).unwrap(), &no_steps, 1), Err("missing replay steps".to_string()));
}
