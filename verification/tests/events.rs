use codex_mbtx_contract::events::{parse_events, EventSummary};

fn lines(parts: &[&str]) -> String {
    let mut text = String::new();
    for part in parts {
        text.push_str(part);
        text.push('\n');
    }
    text
}

#[test]
fn command_lifecycle_counts_once() {
    let text = lines(&[
        r#"{"type":"item.started","item":{"id":"i1","type":"command_execution","command":"python3 solve.py"}}"#,
        r#"{"type":"item.completed","item":{"id":"i1","type":"command_execution","command":"python3 solve.py"}}"#,
        r#"{"type":"turn.completed"}"#,
    ]);
    let summary = parse_events(&text);
    assert_eq!(summary.commands, vec!["python3 solve.py".to_string()]);
    assert_eq!(summary.tool_count("exec_command"), 1);
    assert!(summary.turn_completed);
    assert!(!summary.parse_errors);
    assert!(!summary.response_completed);
}

#[test]
fn usage_of_completed_responses_is_summed() {
    let text = lines(&[
        r#"{"type":"response.completed","response":{"usage":{"input_tokens":10,"output_tokens":5,"input_tokens_details":{"cached_tokens":3}}}}"#,
        r#"{"type":"response.completed","response":{"usage":{"input_tokens":7,"output_tokens":2}}}"#,
        r#"{"type":"response.completed","response":{}}"#,
    ]);
    let summary = parse_events(&text);
    assert!(summary.response_completed);
    assert_eq!(summary.response_count, 3);
    assert_eq!(summary.usage_responses, 2);
    assert_eq!(summary.input_tokens, 17);
    assert_eq!(summary.output_tokens, 7);
    assert_eq!(summary.cached_input_tokens, 3);
}

#[test]
fn broken_lines_and_error_events_mark_parse_errors() {
    let summary = parse_events(&lines(&["", "not json", "  "]));
    assert!(summary.parse_errors);
    let summary = parse_events(&lines(&[r#"{"type":"turn.failed"}"#]));
    assert!(summary.parse_errors);
    let summary = parse_events(&lines(&["", "   "]));
    assert!(!summary.parse_errors);
}

#[test]
fn nested_tool_calls_count_once_per_call_id() {
    let text = lines(&[
        r#"{"type":"request","body":{"type":"function_call","name":"shell","call_id":"c1"}}"#,
        r#"{"type":"function_call","name":"shell","call_id":"c1"}"#,
        r#"{"type":"custom_tool_call","name":"apply_patch"}"#,
        r#"{"type":"custom_tool_call","name":"apply_patch"}"#,
    ]);
    let summary = parse_events(&text);
    assert_eq!(summary.tool_count("shell"), 1);
    assert_eq!(summary.tool_count("apply_patch"), 2);
    assert_eq!(summary.tool_count("write_stdin"), 0);
    let table = summary.tool_table();
    assert_eq!(
        table,
        vec![("apply_patch".to_string(), 2), ("shell".to_string(), 1)]
    );
}

#[test]
fn item_and_response_members_are_not_walked_twice() {
    let text = lines(&[
        r#"{"type":"item.completed","item":{"type":"function_call","name":"write_stdin","call_id":"w1"}}"#,
        r#"{"type":"response.completed","response":{"output":[{"type":"function_call","name":"js","call_id":"j1"}]}}"#,
    ]);
    let summary = parse_events(&text);
    assert_eq!(summary.tool_count("write_stdin"), 1);
    assert_eq!(summary.tool_count("js"), 0);
}

#[test]
fn empty_summary_has_nothing() {
    let summary = EventSummary::new();
    assert_eq!(summary.response_count, 0);
    assert!(summary.commands.is_empty());
    assert_eq!(summary.tool_count("exec_command"), 0);
}
