use codex_mbtx_contract::m5_runner::{
    editable_source_valid, local_classify, manifest_equal, proxy_timestamp_ms, safe_join,
    sanitize_component,
};

#[test]
fn unsafe_paths_are_rejected() {
    let root = "/tmp/work";
    assert!(safe_join(root, "a/b.txt").is_ok());
    assert!(safe_join(root, "../answer.txt").is_err());
    assert!(safe_join(root, "/etc/passwd").is_err());
}

#[test]
fn classification_keeps_unknown_observation_separate() {
    assert_eq!(
        local_classify(
            "clean", "complete", "unknown", true, true, true, true, true, true, true, true, true,
            false, false
        ),
        "backend_observation_unknown"
    );
}

#[test]
fn manifest_comparison_is_set_exact() {
    assert!(manifest_equal(&["a".to_owned()], &["a".to_owned()]));
    assert!(!manifest_equal(&["a".to_owned()], &["b".to_owned()]));
}

#[test]
fn proxy_dump_timestamp_is_read_from_exchange_name() {
    assert_eq!(
        proxy_timestamp_ms("000042-1700000000123-request.json"),
        Some(1_700_000_000_123)
    );
    assert_eq!(proxy_timestamp_ms("response.json"), None);
}

#[test]
fn safe_join_places_one_separator_and_keeps_inner_dots() {
    assert_eq!(safe_join("/tmp/work", "a/./b.txt"), Ok("/tmp/work/a/./b.txt".to_string()));
    assert_eq!(safe_join("/tmp/work/", "a.txt"), Ok("/tmp/work/a.txt".to_string()));
    assert_eq!(
        safe_join("/tmp/work", "./a.txt"),
        Err("unsafe fixture path: ./a.txt".to_string())
    );
    assert!(safe_join("/tmp/work", "a/../../b").is_err());
    assert!(safe_join("/tmp/work", "a/..b").is_ok());
}

#[test]
fn classification_order_puts_infrastructure_first() {
    let all_good = |relay: &str, obs: &str, backend: &str| {
        local_classify(relay, obs, backend, true, true, true, true, true, true, true, true, true, true, false)
    };
    assert_eq!(all_good("clean", "complete", "compliant"), "none");
    assert_eq!(all_good("transport_error", "unobserved", "violation"), "infrastructure_unavailable");
    assert_eq!(all_good("clean", "partial", "compliant"), "evidence_partial");
    assert_eq!(all_good("clean", "complete", "violation"), "backend_violation");
    assert_eq!(
        local_classify("clean", "complete", "compliant", true, true, false, true, false, true, true, true, true, true, false),
        "workspace_dirty"
    );
    assert_eq!(
        local_classify("clean", "unobserved", "compliant", true, true, true, true, true, true, true, true, true, true, true),
        "timeout"
    );
}

#[test]
fn manifests_ignore_order_and_repetition() {
    let a = vec!["x".to_owned(), "y".to_owned(), "x".to_owned()];
    let b = vec!["y".to_owned(), "x".to_owned()];
    assert!(manifest_equal(&a, &b));
    assert!(!manifest_equal(&a, &["y".to_owned()]));
    assert!(manifest_equal(&[], &[]));
}

#[test]
fn dump_names_follow_the_last_component() {
    assert_eq!(proxy_timestamp_ms("/dumps/000001-42-response.json"), Some(42));
    assert_eq!(proxy_timestamp_ms("/dumps/000001-42-response.json/."), Some(42));
    assert_eq!(proxy_timestamp_ms("/dumps/.."), None);
    assert_eq!(proxy_timestamp_ms("1-x-request.json"), None);
    assert_eq!(proxy_timestamp_ms(""), None);
}

#[test]
fn components_are_sanitized() {
    assert_eq!(sanitize_component("a b/c.d-e_f"), "a_b_c.d-e_f");
    assert_eq!(sanitize_component(""), "unknown");
    assert_eq!(sanitize_component("é"), "_");
}

#[test]
fn editable_sources_keep_their_frame() {
    let original = "use x;\nasync fn main {\n  old()\n}\n";
    assert!(editable_source_valid(original, "use x;\nasync fn main {\n  old()\n}\n"));
    assert!(editable_source_valid(original, "use x;\nnew();\nasync fn main {\n  old()\n}\n"));
    assert!(!editable_source_valid(original, "use y;\nasync fn main {\n  old()\n}\n"));
    assert!(!editable_source_valid("fn main {}", "fn main {}"));
}

use codex_mbtx_contract::json_object::json_subset;
use codex_mbtx_contract::m5_runner::{
    AttemptRecord, HelperStreams, TaskSpec, TraceSummary, argv_cwd_valid, attempt_cached_tokens,
    attempt_input_tokens, attempt_output_tokens, attempt_record, body_text, contains_completed,
    contains_failure, correct_result, elapsed_from_name, final_helper_exit, helper_streams_valid,
    mark_recovered, parse_block, receipt_valid, relay_status, trace_complete, trace_timestamp,
    usage_from_body,
};
use codex_mbtx_contract::{JsonValue, parse_json};

fn j(text: &str) -> JsonValue {
    parse_json(text.as_bytes()).unwrap()
}

fn task(id: &str, cohort: &str) -> TaskSpec {
    TaskSpec {
        id: id.to_owned(),
        cohort: cohort.to_owned(),
        prompt: String::new(),
        inputs: Vec::new(),
        expected: JsonValue::Null,
        expected_stdout: "started\ncomplete\n".to_owned(),
        expected_stderr: String::new(),
        expected_exit_code: 0,
        expected_manifest: Vec::new(),
        editable: None,
        background: true,
        fixture_nonce: "nonce".to_owned(),
        receipt_path: ".m5/receipt.json".to_owned(),
        oracle: String::new(),
    }
}

#[test]
fn subset_oracle_accepts_host_fields() {
    assert!(json_subset(&j(r#"{"nonce":"n"}"#), &j(r#"{"nonce":"n", "cwd":"/private"}"#)));
    assert!(!json_subset(&j(r#"{"nonce":"n"}"#), &j(r#"{"nonce":"x"}"#)));
}

#[test]
fn retry_recovery_marks_only_failures_before_success() {
    let mut records = vec![
        AttemptRecord {
            value: j(r#"{"recovered":false}"#),
            provider_error: true,
            transport_error: false,
            successful: false,
            usage_complete: false,
        },
        AttemptRecord {
            value: j(r#"{"recovered":false}"#),
            provider_error: false,
            transport_error: false,
            successful: true,
            usage_complete: true,
        },
        AttemptRecord {
            value: j(r#"{"recovered":false}"#),
            provider_error: true,
            transport_error: false,
            successful: false,
            usage_complete: false,
        },
    ];
    mark_recovered(&mut records);
    assert_eq!(records[0].value.field("recovered").as_bool(), Some(true));
    assert_eq!(records[1].value.field("recovered").as_bool(), Some(false));
    assert_eq!(records[2].value.field("recovered").as_bool(), Some(false));
    assert_eq!(relay_status(&records), "provider_error");
}

#[test]
fn helper_streams_are_checked_against_fixture_contract() {
    let t = task("host_background", "process");
    let streams = HelperStreams { stdout: "started\ncomplete\n".to_owned(), stderr: String::new() };
    assert!(helper_streams_valid(&t, &streams, 0));
    assert!(!helper_streams_valid(&t, &streams, 1));
    let cancel = task("host_cancel_timeout", "process");
    assert!(helper_streams_valid(&cancel, &streams, 9));
}

#[test]
fn dumps_become_attempt_records() {
    let ok = j(r#"{"status":200,"body":"data: {\"type\":\"response.completed\",\"response\":{\"usage\":{\"input_tokens\":10,\"output_tokens\":3,\"input_tokens_details\":{\"cached_tokens\":4}}}}\n\ndata: [DONE]\n"}"#);
    let record = attempt_record("000001-5", 0, 12, Some(40), Some(&ok));
    assert!(record.successful);
    assert!(!record.provider_error && !record.transport_error);
    assert!(record.usage_complete);
    assert_eq!(record.value.field("input_tokens").as_i64(), Some(10));
    assert_eq!(record.value.field("cached_input_tokens").as_i64(), Some(4));
    assert_eq!(record.value.field("output_tokens").as_i64(), Some(3));
    assert_eq!(record.value.field("http_status").as_i64(), Some(200));
    assert!(record.value.get("error_class").is_none());
    let limited = j(r#"{"status":429,"body":{"type":"error"}}"#);
    let r2 = attempt_record("000002-6", 1, -5, None, Some(&limited));
    assert!(r2.provider_error);
    assert_eq!(r2.value.field_str("error_class"), Some("retry_after"));
    assert_eq!(r2.value.field("started_ms").as_i64(), Some(0));
    let lost = attempt_record("000003-7", 2, 0, None, None);
    assert!(lost.transport_error);
    assert_eq!(lost.value.field_str("error_class"), Some("transport_disconnect"));
    let odd = j(r#"{"status":200,"body":"partial"}"#);
    assert_eq!(attempt_record("x", 3, 0, None, Some(&odd)).value.field_str("error_class"), Some("malformed_sse"));
    let records = vec![record, r2, lost];
    assert_eq!(attempt_input_tokens(&records), 10);
    assert_eq!(attempt_cached_tokens(&records), 4);
    assert_eq!(attempt_output_tokens(&records), 3);
    assert_eq!(relay_status(&records), "provider_error");
}

#[test]
fn bodies_are_read_as_text_or_json() {
    assert_eq!(body_text(&j(r#""raw""#)), "raw");
    assert_eq!(body_text(&j(r#"{"a":1}"#)), "{\"a\":1}");
    assert!(contains_completed(&j(r#"{"status":"completed"}"#)));
    assert!(contains_completed(&j(r#""x \"status\":\"completed\" y""#)));
    assert!(!contains_completed(&j(r#"{"type":"response.failed"}"#)));
    assert!(contains_failure(&j(r#"{"type":"response.failed"}"#)));
    assert!(contains_failure(&j(r#""{\"type\":\"error\"}""#)));
    assert_eq!(usage_from_body(&j(r#"{"a":[{"usage":{"input_tokens":1}},{"usage":{"input_tokens":2}}]}"#)), (1, 0, 0, true));
    assert_eq!(usage_from_body(&j(r#"{"usage":"none"}"#)), (0, 0, 0, false));
}

#[test]
fn traces_and_receipts_are_checked() {
    let t = task("t1", "process");
    assert!(receipt_valid(&t, &j(r#"{"task":"t1","nonce":"nonce","helper":"h","status":"stopped"}"#)));
    assert!(!receipt_valid(&t, &j(r#"{"task":"t1","nonce":"nonce","helper":"","status":"stopped"}"#)));
    assert!(!receipt_valid(&t, &j(r#"{"task":"t1","nonce":"nonce","helper":"h","status":"running"}"#)));
    let trace = TraceSummary {
        command_starts: vec![j(r#"{"cwd":"/w","invoked_as":"python3","argv":["a",1,"b"],"started_unix_ns":20}"#)],
        command_exits: vec![j(r#"{"exit_code":3}"#), j(r#"{"finished_unix_ns":40}"#)],
        launcher_starts: 1,
        launcher_exits: 1,
        labels: Vec::new(),
    };
    assert_eq!(final_helper_exit(&trace), Some(3));
    assert!(!trace_complete(&t, &trace));
    assert!(argv_cwd_valid(&t, &trace, "/w"));
    assert!(!argv_cwd_valid(&t, &trace, "/x"));
    let bad = TraceSummary {
        command_starts: vec![j(r#"{"cwd":"/w","invoked_as":"python3","argv":["$(touch SHOULD_NOT_EXIST)"]}"#)],
        command_exits: vec![],
        launcher_starts: 0,
        launcher_exits: 0,
        labels: Vec::new(),
    };
    assert!(!argv_cwd_valid(&t, &bad, "/w"));
    assert_eq!(trace_timestamp(&trace.command_starts[0]), 20);
    assert_eq!(trace_timestamp(&trace.command_exits[1]), 40);
    assert_eq!(trace_timestamp(&trace.command_exits[0]), u64::MAX);
}

#[test]
fn results_blocks_and_dump_times() {
    let mut t = task("t", "script");
    t.expected = j(r#"{"nonce":"n"}"#);
    t.oracle = "json_subset:host".to_owned();
    assert!(correct_result(&t, &j(r#"{"nonce":"n","cwd":"/w"}"#)));
    t.oracle = "exact".to_owned();
    assert!(!correct_result(&t, &j(r#"{"nonce":"n","cwd":"/w"}"#)));
    assert!(correct_result(&t, &j(r#"{"nonce":"n"}"#)));
    let block = parse_block(&j(r#"{"block_id":"b1","task":"t","order":["shell","transparent"]}"#)).unwrap();
    assert_eq!(block.order, vec!["shell".to_string(), "transparent".to_string()]);
    assert_eq!(parse_block(&j(r#"{"block_id":"b1","task":"t","order":["shell"]}"#)).err(), Some("block.order must contain exactly two arms".to_string()));
    assert_eq!(parse_block(&j(r#"{"task":"t"}"#)).err(), Some("missing string field block_id".to_string()));
    assert_eq!(parse_block(&j(r#"{"block_id":"b","task":"t","order":[1]}"#)).err(), Some("block.order contains a non-string".to_string()));
    assert_eq!(parse_block(&j("[]")).err(), Some("block must be a JSON object".to_string()));
    assert_eq!(elapsed_from_name("/d/000001-1500-request.json", 1000), Some(500));
    assert_eq!(elapsed_from_name("/d/000001-900-request.json", 1000), Some(0));
    assert_eq!(elapsed_from_name("/d/response.json", 1000), None);
}
