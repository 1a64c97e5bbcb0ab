use codex_mbtx_contract::sanitize::{
    artifact_cut_is_clean, redact_text, redact_value, sanitize_output, truncate_artifact,
    value_cuts_cleanly, MAX_ARTIFACT_BYTES,
};
use codex_mbtx_contract::text::replace_all;
use codex_mbtx_contract::{parse_json, to_json_text};

#[test]
fn replace_scans_left_to_right_without_overlap() {
    assert_eq!(replace_all("aaa", "aa", "b"), "ba");
    assert_eq!(replace_all("abcabc", "bc", "X"), "aXaX");
    assert_eq!(replace_all("none here", "zz", "X"), "none here");
    assert_eq!(replace_all("", "a", "X"), "");
}

#[test]
fn runner_paths_and_key_are_redacted() {
    let paths = vec!["/tmp/root".to_string(), String::new(), "/opt/codex".to_string()];
    let text = "ran /opt/codex in /tmp/root/workspace with sk-123";
    assert_eq!(
        redact_text(text, &paths, Some("sk-123")),
        "ran <redacted-path> in <redacted-path>/workspace with [REDACTED]"
    );
    assert_eq!(redact_text("sk-123", &paths, Some("")), "sk-123");
    assert_eq!(sanitize_output("at /tmp/root", &paths, None), "at <redacted-path>");
}

#[test]
fn long_output_is_cut_to_the_artifact_limit() {
    let long = "x".repeat(MAX_ARTIFACT_BYTES + 10);
    assert!(artifact_cut_is_clean(&long));
    assert_eq!(truncate_artifact(long).len(), MAX_ARTIFACT_BYTES);
    let mut odd = "x".repeat(MAX_ARTIFACT_BYTES - 1);
    odd.push('é');
    assert!(!artifact_cut_is_clean(&odd));
    assert!(artifact_cut_is_clean("short"));
}

#[test]
fn values_are_redacted_string_by_string() {
    let value = parse_json(br#"{"a":["/tmp/root/x",1,{"/tmp/root":"/tmp/root"}],"b":null}"#).unwrap();
    let paths = vec!["/tmp/root".to_string()];
    assert!(value_cuts_cleanly(&value, &paths, None));
    assert_eq!(
        to_json_text(&redact_value(&value, &paths, None)),
        r#"{"a":["<redacted-path>/x",1,{"/tmp/root":"<redacted-path>"}],"b":null}"#
    );
}
