use codex_mbtx_contract::startup::{
    StartupObservation, child_arguments, counts_as_failed, launch, pair_orders, ready_error,
    sample_counts, startup_attempt_id, startup_experiment_id, startup_pair_id, startup_row,
    startup_status,
};

fn args(items: &[&str]) -> Vec<String> {
    items.iter().map(|s| s.to_string()).collect()
}

#[test]
fn startup_names_pad_the_pair_to_four_digits() {
    assert_eq!(startup_pair_id("formal", "minimal", "native-noop", 7), "formal-minimal-native-noop-0007");
    assert_eq!(startup_pair_id("warmup", "full", "shell-noop", 1234), "warmup-full-shell-noop-1234");
    assert_eq!(startup_pair_id("formal", "full", "native-small", 56), "formal-full-native-small-0056");
    assert_eq!(startup_attempt_id("formal-full-native-small-0056", "shell"), "formal-full-native-small-0056-shell");
}

#[test]
fn workloads_choose_the_fixture_command() {
    assert_eq!(child_arguments("shell-noop", "/f"), args(&["/bin/sh", "-c", "exec \"$1\" noop", "sh", "/f"]));
    assert_eq!(child_arguments("native-small", "/f"), args(&["/f", "small"]));
    assert_eq!(child_arguments("native-noop", "/f"), args(&["/f", "noop"]));
    let child = args(&["/f", "small"]);
    assert_eq!(launch("transparent", "/m", &child), ("/m".to_string(), args(&["exec", "--", "/f", "small"])));
    assert_eq!(launch("shell", "/m", &child), ("/f".to_string(), args(&["small"])));
}

#[test]
fn ready_report_and_status() {
    assert_eq!(ready_error(None, 5), Some("fixture ready event missing or timed out".to_string()));
    assert_eq!(ready_error(Some(4), 5), Some("fixture clock precedes spawn; clocks cannot be compared".to_string()));
    assert_eq!(ready_error(Some(5), 5), None);
    assert_eq!(startup_status(true, Some(0)), "harness_error");
    assert_eq!(startup_status(false, Some(0)), "success");
    assert_eq!(startup_status(false, Some(1)), "backend_failure");
    assert_eq!(startup_status(false, None), "backend_failure");
    assert!(counts_as_failed("formal", "backend_failure"));
    assert!(!counts_as_failed("warmup", "backend_failure"));
    assert!(!counts_as_failed("formal", "success"));
}

#[test]
fn pairs_alternate_observation_and_backend_order() {
    assert_eq!(pair_orders(0), (["minimal", "full"], ["shell", "transparent"]));
    assert_eq!(pair_orders(1), (["full", "minimal"], ["transparent", "shell"]));
}

#[test]
fn sample_counts_default_and_reject_zero() {
    assert_eq!(sample_counts(&args(&["run"])), Ok((1000, 10)));
    assert_eq!(sample_counts(&args(&["--samples", "5", "--warmups", "0"])), Ok((5, 0)));
    assert_eq!(sample_counts(&args(&["--samples", "0"])), Err("samples must be positive".to_string()));
    assert_eq!(sample_counts(&args(&["--warmups", "x"])), Err("invalid digit found in string".to_string()));
}

#[test]
fn startup_row_records_clock_readings() {
    let o = StartupObservation {
        experiment_id: "e".into(),
        pair_id: "formal-minimal-native-noop-0000".into(),
        attempt_id: "formal-minimal-native-noop-0000-shell".into(),
        workload: "native-noop".into(),
        backend: "shell".into(),
        observation: "minimal".into(),
        sample_phase: "formal".into(),
        platform: "linux".into(),
        spawn_begin_ns: 100,
        spawn_return_ns: 150,
        fixture_ready_ns: Some(180),
        wait_return_ns: 300,
        error: None,
        exit_code: Some(0),
        signal: None,
        pid: 42,
        child_pid: Some(43),
    };
    let row = codex_mbtx_contract::to_json_text(&startup_row(&o));
    assert!(row.contains(r#""startup_ns":80"#));
    assert!(row.contains(r#""spawn_duration_ns":50"#));
    assert!(row.contains(r#""wall_ns":200"#));
    assert!(row.contains(r#""status":"success""#));
    assert!(row.contains(r#""artifact_dir":"attempts/formal-minimal-native-noop-0000-shell""#));
    assert!(row.contains(r#""signal":null"#));
    let early = StartupObservation { fixture_ready_ns: Some(50), error: Some("late".into()), ..o };
    let row = codex_mbtx_contract::to_json_text(&startup_row(&early));
    assert!(row.contains(r#""startup_ns":null"#));
    assert!(row.contains(r#""status":"harness_error""#));
    assert!(row.contains(r#""error":"late""#));
}

#[test]
fn experiment_is_named_after_the_output_digest() {
    assert_eq!(
        startup_experiment_id(""),
        "launcher-startup-e3b0c44298fc1c149afbf4c8996fb92427ae41e4649b934ca495991b7852b855"
    );
}
