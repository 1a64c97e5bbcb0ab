use codex_mbtx_contract::fixture_task::{task_from_fixture, trim_line_breaks};
use codex_mbtx_contract::{parse_json, to_json_text};

#[test]
fn fixture_and_prompt_make_the_task() {
    let value = parse_json(br#"{"cohort":"core","expected":{"sum":6},"expected_exit_code":3,"expected_manifest":["a.txt"],"fixture_nonce":"n1","id":"sum","inputs":{"a.txt":"1 2 3"}}"#).unwrap();
    let task = task_from_fixture(&value, b"Add the numbers.\r\n\n").unwrap();
    assert_eq!(task.id, "sum");
    assert_eq!(task.cohort, "core");
    assert_eq!(task.prompt, "Add the numbers.");
    assert_eq!(task.inputs, vec![("a.txt".to_string(), "1 2 3".to_string())]);
    assert_eq!(to_json_text(&task.expected), r#"{"sum":6}"#);
    assert_eq!(task.expected_exit_code, 3);
    assert_eq!(task.expected_manifest, vec!["a.txt".to_string()]);
    assert_eq!(task.expected_stdout, "");
    assert_eq!(task.editable, None);
    assert!(!task.background);
    assert_eq!(task.receipt_path, ".m5/receipt.json");
    assert_eq!(task.oracle, "result_json+workspace_manifest+process_trace");
}

#[test]
fn fixture_errors_come_in_order() {
    let err = |text: &str| task_from_fixture(&parse_json(text.as_bytes()).unwrap(), b"").err().unwrap();
    assert_eq!(err("[]"), "fixture output is not an object");
    assert_eq!(err(r#"{"inputs":{"x":1}}"#), "fixture input x is not a string");
    assert_eq!(err(r#"{"inputs":{}}"#), "fixture expected_manifest is missing");
    assert_eq!(err(r#"{"expected_manifest":[1]}"#), "expected_manifest contains a non-string");
    assert_eq!(err(r#"{"expected_manifest":[]}"#), "missing string field id");
    assert_eq!(err(r#"{"expected_manifest":[],"id":"x"}"#), "missing string field cohort");
    assert_eq!(err(r#"{"cohort":"c","expected_manifest":[],"id":"x"}"#), "missing string field fixture_nonce");
}

#[test]
fn trailing_line_breaks_are_trimmed() {
    assert_eq!(trim_line_breaks("a\n\r\n"), "a");
    assert_eq!(trim_line_breaks("a\nb"), "a\nb");
    assert_eq!(trim_line_breaks("\n"), "");
}
