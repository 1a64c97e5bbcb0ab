use codex_mbtx_contract::arms::PairSlots;
use codex_mbtx_contract::startup_report::{
    clock_rows, formal_startup, startup_arm, startup_checked, startup_failures, startup_group,
    startup_identity, startup_key, startup_missing, startup_pair, startup_statistic, startup_summary,
    stratum_values, valid_pairs,
};
use codex_mbtx_contract::{JsonValue, parse_json, to_json_text};

fn json(text: &str) -> JsonValue {
    parse_json(text.as_bytes()).unwrap()
}

#[test]
fn startup_names_and_missing_results() {
    assert_eq!(startup_identity("formal-minimal-native-noop-0001-shell"), ("formal-minimal-native-noop-0001".to_string(), "shell".to_string()));
    assert_eq!(startup_identity("lonely"), ("lonely".to_string(), "unknown".to_string()));
    assert_eq!(
        to_json_text(&startup_missing("warmup-full-x-0000-shell")),
        r#"{"artifact_dir":"attempts/warmup-full-x-0000-shell","attempt_id":"warmup-full-x-0000-shell","backend":"shell","pair_id":"warmup-full-x-0000","phase":"startup","sample_phase":"warmup","status":"censored"}"#
    );
    assert!(to_json_text(&startup_missing("formal-a-shell")).contains(r#""sample_phase":"formal""#));
}

#[test]
fn seal_check_decides_comparability() {
    let ok = json(r#"{"status":"success","startup_ns":5,"spawn_begin_ns":1,"wait_return_ns":9}"#);
    let sealed = json(r#"{"status":"success"}"#);
    let broken = json(r#"{"status":"mismatch"}"#);
    let c = to_json_text(&startup_checked(ok.copy(), &sealed));
    assert!(c.contains(r#""strict_comparable":true"#));
    assert!(c.contains(r#""begin_ns":1"#));
    assert!(c.contains(r#""end_ns":9"#));
    let d = to_json_text(&startup_checked(ok.copy(), &broken));
    assert!(d.contains(r#""strict_comparable":false"#));
    assert!(d.contains(r#""status":"censored""#));
    let untimed = json(r#"{"status":"success","startup_ns":null}"#);
    let e = to_json_text(&startup_checked(untimed, &sealed));
    assert!(e.contains(r#""strict_comparable":false"#));
    assert!(e.contains(r#""status":"success""#));
    assert!(e.contains(r#""begin_ns":null"#));
}

#[test]
fn clock_readings_become_trace_rows() {
    let r = json(r#"{"spawn_begin_ns":1,"spawn_return_ns":2,"fixture_ready_ns":null,"wait_return_ns":4}"#);
    let rows = clock_rows(&r);
    assert_eq!(rows.len(), 3);
    assert_eq!(to_json_text(&rows[2].field("event")), "\"wait_return\"");
    assert_eq!(to_json_text(&rows[2].field("monotonic_ns")), "4");
    assert_eq!(to_json_text(&rows[1].field("monotonic_ns")), "2");
    let arm = startup_arm(json(r#"{"startup_ns":7,"spawn_duration_ns":3}"#), rows, json(r#"{"status":"success"}"#));
    assert!(to_json_text(&arm).starts_with(r#"{"metrics":{"codex_total_ns":null,"spawn_return_ns":3,"startup_to_ready_ns":7}"#));
}

#[test]
fn strata_pairs_and_values() {
    let row = json(r#"{"phase":"startup","sample_phase":"formal","platform":"linux","task_id":"native-noop","observation":"minimal","pair_id":"p","backend":"shell","strict_comparable":true,"startup_ns":12,"status":"backend_failure"}"#);
    assert!(formal_startup(&row));
    assert_eq!(startup_group(&row), "linux / native-noop / minimal");
    assert_eq!(startup_group(&json("{}")), "unknown / unknown / unknown");
    let k = startup_key(&row);
    assert_eq!((k.pair.as_str(), k.backend.as_str(), k.formal), ("p", "shell", true));
    let other = json(r#"{"strict_comparable":false,"startup_ns":99}"#);
    let rows = vec![row.copy(), other];
    let slots = vec![PairSlots { pair: "p".into(), shell: Some(0), transparent: Some(1) }, PairSlots { pair: "q".into(), shell: None, transparent: Some(0) }];
    assert_eq!(to_json_text(&stratum_values(&rows, &slots)), r#"[{"shell":12,"transparent":null},{"shell":null,"transparent":12}]"#);
    assert_eq!(startup_failures(&rows), 1);
    let stats = json(r#"{"pairs":1000,"at_least_ten_percent_faster":true}"#);
    assert!(to_json_text(&startup_statistic("linux / native-noop / minimal", stats.copy())).contains(r#""at_least_ten_percent_supported":true"#));
    assert!(to_json_text(&startup_statistic("linux / native-noop / full", stats)).contains(r#""at_least_ten_percent_supported":false"#));
    let few = json(r#"{"pairs":999,"at_least_ten_percent_faster":true}"#);
    assert!(to_json_text(&startup_statistic("x minimal", few)).contains(r#""at_least_ten_percent_supported":false"#));
    assert_eq!(valid_pairs(&[json(r#"{"pairs":3}"#), json("{}"), json(r#"{"pairs":4}"#)]), 7);
}

#[test]
fn startup_pair_and_summary() {
    let manifest = json(r#"{"platform":"linux","pairs_per_workload_observation":2}"#);
    let a = json(r#"{"result":{"observation":"full","task_id":"native-small","strict_comparable":true}}"#);
    assert_eq!(
        to_json_text(&startup_pair("p", &manifest, Some((3, &a)), None)),
        r#"{"category":"full","pair_id":"p","platform":"linux","shell":3,"strict_comparable":false,"task_id":"native-small","transparent":null}"#
    );
    let s = to_json_text(&startup_summary(1, true, &manifest, 12, 6));
    assert!(s.contains(r#""target_pairs":12"#));
    assert!(s.contains(r#""partial":false"#));
    assert!(s.contains(r#""failed_arms":1"#));
    let t = to_json_text(&startup_summary(0, false, &json("{}"), 0, 0));
    assert!(t.contains(r#""target_pairs":null"#));
    assert!(t.contains(r#""partial":true"#));
}
