use codex_mbtx_contract::arms::{
    ArmKey, arm_identity, build_summary, checked_result, comparable, group_label, group_pairs,
    index_arms, index_report_arms, is_formal, metric_names, metric_pairs, missing_result, pair_row, statistic_row,
};
use codex_mbtx_contract::{JsonValue, parse_json, to_json_text};

fn json(text: &str) -> JsonValue {
    parse_json(text.as_bytes()).unwrap()
}

fn key(pair: &str, backend: &str, formal: bool) -> ArmKey {
    ArmKey { pair: pair.to_string(), backend: backend.to_string(), formal }
}

#[test]
fn missing_result_is_censored_and_names_the_directory() {
    let r = missing_result("r1-t-a00-shell", b"ab");
    assert_eq!(
        to_json_text(&r),
        r#"{"artifact_dir":"attempts/r1-t-a00-shell","attempt_id":{"Unix":[97,98]},"failure_class":"collector_interrupted","status":"censored","strict_comparable":false}"#
    );
}

#[test]
fn damaged_evidence_downgrades_success() {
    let ok = json(r#"{"status":"success","strict_comparable":true}"#);
    let sealed = json(r#"{"status":"success"}"#);
    let mismatch = json(r#"{"status":"mismatch"}"#);
    let unknown = json(r#"{"status":"unknown"}"#);
    assert_eq!(to_json_text(&checked_result(ok.copy(), &sealed, true)), r#"{"status":"success","strict_comparable":true}"#);
    assert_eq!(
        to_json_text(&checked_result(ok.copy(), &mismatch, true)),
        r#"{"evidence_warning":"unsealed_modified_or_truncated_evidence","failure_class":"evidence_integrity","status":"harness_error","strict_comparable":false}"#
    );
    assert_eq!(
        to_json_text(&checked_result(ok.copy(), &sealed, false)),
        r#"{"evidence_warning":"unsealed_modified_or_truncated_evidence","failure_class":"evidence_integrity","status":"censored","strict_comparable":false}"#
    );
    let failed = json(r#"{"status":"timeout","strict_comparable":true}"#);
    assert_eq!(
        to_json_text(&checked_result(failed, &unknown, true)),
        r#"{"evidence_warning":"unsealed_modified_or_truncated_evidence","status":"timeout","strict_comparable":false}"#
    );
}

#[test]
fn arm_identity_prefers_the_result_then_the_directory_name() {
    let empty = json("{}");
    assert_eq!(arm_identity(&empty, "r1-t-a00-shell"), ("r1-t-a00".to_string(), "shell".to_string()));
    assert_eq!(arm_identity(&empty, "plain"), ("plain".to_string(), "plain".to_string()));
    let named = json(r#"{"pair_id":"p","backend":"transparent"}"#);
    assert_eq!(arm_identity(&named, "x-y"), ("p".to_string(), "transparent".to_string()));
    assert!(is_formal(&empty, "r1-t-a00"));
    assert!(!is_formal(&empty, "probe-0"));
    assert!(!is_formal(&json(r#"{"sample_phase":"probe"}"#), "r1"));
}

#[test]
fn index_sorts_pairs_and_refuses_duplicates() {
    let arms = vec![
        key("b", "shell", true),
        key("probe-0", "shell", false),
        key("a", "transparent", true),
        key("b", "transparent", true),
        key("a", "other", true),
    ];
    let index = index_report_arms(&arms).unwrap();
    assert_eq!(index.len(), 2);
    assert_eq!(index[0].pair, "a");
    assert_eq!((index[0].shell, index[0].transparent), (None, Some(2)));
    assert_eq!(index[1].pair, "b");
    assert_eq!((index[1].shell, index[1].transparent), (Some(0), Some(3)));
    let twice = vec![key("a", "shell", true), key("a", "shell", true)];
    assert_eq!(index_report_arms(&twice).err(), Some("duplicate arm identity; evidence cannot be collapsed".to_string()));
    let lenient = index_arms(&twice, false).unwrap();
    assert_eq!((lenient[0].shell, lenient[0].transparent), (Some(1), None));
    let probes = vec![key("a", "shell", false), key("a", "shell", false)];
    assert_eq!(index_report_arms(&probes).unwrap().len(), 0);
}

#[test]
fn pairs_compare_and_group_by_stratum() {
    let manifest = json(r#"{"platform":"linux","tool_mode":"code"}"#);
    let a = json(r#"{"result":{"task_id":"t","round":1,"category":"c","strict_comparable":true,"shell_modes":["Direct"]},"facts":{"commands":[],"streams":[]}}"#);
    let b = json(r#"{"result":{"task_id":"t","round":1,"strict_comparable":true},"facts":{"commands":[],"streams":[]}}"#);
    assert!(comparable(Some(&a.field("result")), Some(&b.field("result"))));
    assert!(!comparable(Some(&a.field("result")), None));
    let row = pair_row("p", &manifest, Some((0, &a)), Some((1, &b)));
    assert_eq!(
        to_json_text(&row),
        r#"{"category":"c","first_difference":null,"pair_id":"p","platform":"linux","round":1,"shell":0,"strict_comparable":true,"task_id":"t","tool_mode":"code","transparent":1}"#
    );
    let lone = pair_row("q", &manifest, None, Some((4, &b)));
    assert!(to_json_text(&lone).contains(r#""shell":null"#));
    assert!(to_json_text(&lone).contains(r#""strict_comparable":false"#));
    assert_eq!(
        group_label(&manifest, &a.field("result"), Some(&a.field("result"))),
        r#"linux / t / round 1 / code / shell ["Direct"]"#
    );
    assert_eq!(group_label(&json("{}"), &json("{}"), None), "unknown / unknown / round null / unknown / shell unknown");
    let labels = vec!["z".to_string(), "a".to_string(), "z".to_string(), "a".to_string()];
    let groups = group_pairs(&labels, &vec![true, true, true, false]);
    assert_eq!(groups, vec![("a".to_string(), vec![1]), ("z".to_string(), vec![0, 2])]);
}

#[test]
fn statistics_rows_and_metrics() {
    let names = metric_names();
    assert_eq!(names.len(), 18);
    let mut sorted = names.clone();
    sorted.sort();
    assert_eq!(names, sorted);
    let a = json(r#"{"metrics":{"tool_call_ns":5}}"#);
    let b = json(r#"{"metrics":{}}"#);
    assert_eq!(to_json_text(&metric_pairs(&vec![(&a, &b)], "tool_call_ns")), r#"[{"shell":5,"transparent":null}]"#);
    assert_eq!(
        to_json_text(&statistic_row("s", "m", json("{}"))),
        r#"{"confidence":"inferred","metric":"m","statistics":{},"stratum":"s","units":"ns"}"#
    );
}

#[test]
fn build_summary_counts_comparable_pairs_and_shell_modes() {
    let pairs = vec![json(r#"{"strict_comparable":true}"#), json(r#"{"strict_comparable":false}"#)];
    let formal = vec![json(r#"{"status":"success"}"#), json(r#"{"status":"success"}"#), json(r#"{}"#)];
    let results = vec![
        json(r#"{"backend":"shell","shell_modes":["Direct"]}"#),
        json(r#"{"backend":"transparent","shell_modes":["Shell"]}"#),
        json(r#"{"backend":"shell","shell_modes":"x"}"#),
    ];
    let manifest = json(r#"{"platform":"linux","target_pairs":2}"#);
    let s = to_json_text(&build_summary(&pairs, &formal, &results, &manifest, JsonValue::Null));
    assert!(s.contains(r#""default_shell_is_direct":true"#));
    assert!(s.contains(r#""intention_to_treat":{"arm_statuses":{"success":2,"unknown":1},"attempted_pairs":2}"#));
    assert!(s.contains(r#""partial":true"#));
    assert!(s.contains(r#""strict_comparable_pairs":1"#));
    assert!(s.contains(r#""stop":null"#));
    let none = to_json_text(&build_summary(&[], &[], &[], &json("{}"), JsonValue::Null));
    assert!(none.contains(r#""default_shell_is_direct":null"#));
    assert!(none.contains(r#""partial":true"#));
    let mixed = vec![json(r#"{"backend":"shell","shell_modes":["Direct","Shell"]}"#)];
    let done = json(r#"{"target_pairs":1}"#);
    let m = to_json_text(&build_summary(&pairs[..1], &[], &mixed, &done, JsonValue::Null));
    assert!(m.contains(r#""default_shell_is_direct":false"#));
    assert!(m.contains(r#""partial":false"#));
}
