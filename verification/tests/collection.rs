use codex_mbtx_contract::codex_evidence::parse_codex_output;
use codex_mbtx_contract::collection::{
    actual_steps, arm_order, attempt_name, attempt_prompt, censored_row, codex_arguments,
    codex_infrastructure, completed_commands, config, fault_check, filter_tasks, number, option,
    pair_name, pairs_per_task, processes_clean, purpose_for, relay_infrastructure, relay_pending,
    request_interval, required, round_limit, round_quota, rounds_for, shuffle, suite_check,
    tool_mode_check, track_infrastructure, unhealthy, probe_stop, PairStep, Tally, code_host_check, frozen_check, frozen_refusal, suite_tasks,
};
use codex_mbtx_contract::{JsonValue, parse_json, to_json_text};
use std::collections::VecDeque;

fn args(items: &[&str]) -> Vec<String> {
    items.iter().map(|s| s.to_string()).collect()
}

#[test]
fn external_failure_thresholds_do_not_count_expected_cancellation() {
    assert!(!unhealthy(&VecDeque::from([false; 16])));
    assert!(unhealthy(&VecDeque::from([true; 5])));
    assert!(!unhealthy(&VecDeque::from([true; 4])));
    assert!(unhealthy(&VecDeque::from_iter((0..16).map(|i| i % 2 == 0))));
}

#[test]
fn options_take_the_value_after_the_first_key() {
    let a = args(&["run", "--pairs", "3", "--pairs", "9", "--output"]);
    assert_eq!(option(&a, "--pairs"), Some("3".to_string()));
    assert_eq!(option(&a, "--output"), None);
    assert_eq!(option(&a, "--missing"), None);
    assert_eq!(required(&a, "--missing"), Err("missing --missing".to_string()));
    assert_eq!(required(&a, "--pairs"), Ok("3".to_string()));
}

#[test]
fn numbers_default_and_report_parse_errors() {
    let a = args(&["--pairs", "12", "--bad", "1x", "--empty", "", "--big", "99999999999999999999999"]);
    assert_eq!(number(&a, "--pairs", 5), Ok(12));
    assert_eq!(number(&a, "--absent", 5), Ok(5));
    assert_eq!(number(&a, "--bad", 5), Err("invalid digit found in string".to_string()));
    assert_eq!(number(&a, "--empty", 5), Err("cannot parse integer from empty string".to_string()));
    assert_eq!(number(&a, "--big", 5), Err("number too large to fit in target type".to_string()));
}

#[test]
fn window_keeps_sixteen_counted_arms() {
    let mut window = VecDeque::new();
    let failed = parse_json(br#"{"status":"relay_error"}"#).unwrap();
    let reused = parse_json(br#"{"status":"relay_error","reused":true}"#).unwrap();
    let ok = parse_json(br#"{"status":"success","reused":false}"#).unwrap();
    for _ in 0..20 {
        track_infrastructure(&mut window, &failed);
    }
    assert_eq!(window.len(), 16);
    track_infrastructure(&mut window, &reused);
    assert_eq!(window.len(), 16);
    track_infrastructure(&mut window, &ok);
    assert_eq!(window.back(), Some(&false));
    assert!(unhealthy(&window));
    let _ = JsonValue::Null;
}

fn json(text: &str) -> JsonValue {
    parse_json(text.as_bytes()).unwrap()
}

fn rows(lines: &[&str]) -> Vec<JsonValue> {
    lines.iter().map(|l| json(l)).collect()
}

#[test]
fn config_uses_structured_toml_and_keeps_shell_default() {
    let text = config("a\"b", "http://localhost/v1", None, false, "code").unwrap();
    let parsed: toml::Value = toml::from_str(&text).unwrap();
    assert_eq!(parsed["model"].as_str(), Some("a\"b"));
    assert!(parsed.get("mbtx_backend").is_none());
    assert_eq!(
        parsed["model_providers"]["evaluation"]["request_max_retries"].as_integer(),
        Some(0)
    );
}

#[test]
fn transparent_config_names_the_launcher() {
    let text = config("m", "http://localhost/v1", Some("/opt/mbtx"), true, "direct").unwrap();
    let parsed: toml::Value = toml::from_str(&text).unwrap();
    assert_eq!(parsed["mbtx_backend"].as_str(), Some("transparent"));
    assert_eq!(parsed["mbtx_command"][0].as_str(), Some("/opt/mbtx"));
}

#[test]
fn run_options_are_checked() {
    assert!(suite_check("codex-relay").is_ok());
    assert!(suite_check("codex-replay").is_ok());
    assert_eq!(suite_check("other"), Err("suite must be codex-relay or codex-replay".to_string()));
    assert!(fault_check("none", false).is_ok());
    assert!(fault_check("429", true).is_ok());
    assert!(fault_check("429", false).is_err());
    assert!(fault_check("418", true).is_err());
    assert!(tool_mode_check("code").is_ok());
    assert!(tool_mode_check("direct").is_ok());
    assert_eq!(tool_mode_check("shell"), Err("--tool-mode must be code or direct".to_string()));
}

#[test]
fn pairs_rounds_and_quotas() {
    assert_eq!(pairs_per_task(&args(&[]), true), Ok(10));
    assert_eq!(pairs_per_task(&args(&[]), false), Ok(8));
    assert_eq!(pairs_per_task(&args(&["--pairs", "0"]), true), Err("--pairs must be positive".to_string()));
    assert_eq!(pairs_per_task(&args(&["--pairs", "3"]), false), Ok(3));
    assert_eq!(rounds_for(true, 8), 1);
    assert_eq!(rounds_for(false, 1), 1);
    assert_eq!(rounds_for(false, 8), 2);
    assert_eq!(purpose_for(false, 8, 24), "formal");
    assert_eq!(purpose_for(false, 7, 24), "validation");
    assert_eq!(purpose_for(true, 10, 23), "validation");
    assert_eq!(request_interval(&args(&[])), Ok(15000));
    assert_eq!(request_interval(&args(&["--min-interval-ms", "10"])), Ok(6000));
    assert_eq!(request_interval(&args(&["--min-interval-ms", "7000"])), Ok(7000));
    assert_eq!(round_quota(5, 2, 0), 3);
    assert_eq!(round_quota(5, 2, 1), 2);
    assert_eq!(round_quota(5, 1, 0), 5);
    assert_eq!(round_limit(true, 3), 3);
    assert_eq!(round_limit(false, 3), 5);
    assert_eq!(round_limit(false, 4), 6);
}

#[test]
fn shuffle_keeps_every_task_and_advances_the_seed() {
    let mut tasks: Vec<u32> = (0..10).collect();
    let mut seed: u32 = 0x5eed;
    shuffle(&mut tasks, &mut seed);
    assert_ne!(seed, 0x5eed);
    let mut sorted = tasks.clone();
    sorted.sort();
    assert_eq!(sorted, (0..10).collect::<Vec<u32>>());
    let mut again: Vec<u32> = (0..10).collect();
    let mut seed2: u32 = 0x5eed;
    shuffle(&mut again, &mut seed2);
    assert_eq!(again, tasks);
    assert_eq!(seed2, seed);
    let mut one = vec![7u32];
    let mut seed3: u32 = 9;
    shuffle(&mut one, &mut seed3);
    assert_eq!(one, vec![7]);
    assert_eq!(seed3, 9);
}

#[test]
fn shuffle_takes_one_xorshift_step_per_position() {
    let mut tasks = vec!['a', 'b'];
    let mut seed: u32 = 1;
    shuffle(&mut tasks, &mut seed);
    let a = 1u32 ^ (1u32 << 13);
    let b = a ^ (a >> 17);
    let next = b ^ (b << 5);
    assert_eq!(seed, next);
    if next % 2 == 0 {
        assert_eq!(tasks, vec!['b', 'a']);
    } else {
        assert_eq!(tasks, vec!['a', 'b']);
    }
}

#[test]
fn names_of_pairs_and_arms() {
    assert_eq!(pair_name(0, "argv_empty_unicode", 3), "r1-argv_empty_unicode-a03");
    assert_eq!(pair_name(1, "t", 12), "r2-t-a12");
    assert_eq!(attempt_name("r1-t-a00", "shell"), "r1-t-a00-shell");
    assert_eq!(arm_order(0), ("shell", "transparent"));
    assert_eq!(arm_order(3), ("transparent", "shell"));
}

#[test]
fn task_filter_keeps_named_tasks_in_order() {
    let tasks = rows(&[r#"{"id":"a"}"#, r#"{"id":"b"}"#, r#"{"id":"c"}"#, r#"{"name":"a"}"#]);
    let kept = filter_tasks(tasks, "c,a");
    let ids: Vec<String> = kept.iter().map(|t| codex_mbtx_contract::to_json_text(t)).collect();
    assert_eq!(ids, vec![r#"{"id":"a"}"#.to_string(), r#"{"id":"c"}"#.to_string()]);
    let none = filter_tasks(rows(&[r#"{"id":"a"}"#]), "b");
    assert!(none.is_empty());
}

#[test]
fn interrupted_arm_row_is_censored() {
    let task = json(r#"{"id":"t1","steps":[]}"#);
    let row = censored_row("exp", "r1-t1-a00", "r1-t1-a00-shell", &task, "shell", "main", 2);
    assert_eq!(
        codex_mbtx_contract::to_json_text(&row),
        r#"{"artifact_dir":"attempts/r1-t1-a00-shell","attempt_id":"r1-t1-a00-shell","backend":"shell","experiment_id":"exp","failure_class":"interrupted_attempt_preserved","pair_id":"r1-t1-a00","round":2,"sample_phase":"main","status":"censored","strict_comparable":false,"task_id":"t1"}"#
    );
}

#[test]
fn prompts_carry_the_program_or_the_steps() {
    let task = json(r#"{"code_mode_program":"text('x');","steps":[{"tool":"exec_command"}]}"#);
    let code = attempt_prompt("code", &task);
    assert!(code.starts_with("Call exec exactly once"));
    assert!(code.ends_with("DONE.\ntext('x');"));
    let probe = attempt_prompt("code", &json("{}"));
    assert!(probe.ends_with("\ntext('probe');"));
    let direct = attempt_prompt("direct", &task);
    assert!(direct.starts_with("Execute this exact ordered tool trajectory."));
    assert!(direct.ends_with(r#"DONE.
[{"tool":"exec_command"}]"#));
}

#[test]
fn codex_arguments_add_exec_unless_the_binary_is_codex_exec() {
    let a = codex_arguments(Some("codex"), "/w", "p");
    assert_eq!(a, args(&["exec", "--json", "--strict-config", "--ephemeral", "--skip-git-repo-check", "--cd", "/w", "--sandbox", "workspace-write", "p"]));
    let b = codex_arguments(Some("codex-exec"), "/w", "p");
    assert_eq!(b[0], "--json");
    assert_eq!(b.len(), 9);
    let c = codex_arguments(None, "/w", "p");
    assert_eq!(c[0], "exec");
}

#[test]
fn codex_output_classifies_only_unexplained_failures() {
    let failed = parse_codex_output(br#"{"type":"error","message":"upstream returned HTTP 502"}"#);
    assert_eq!(codex_infrastructure("none".to_string(), &failed, Some(1), ""), "relay_error");
    assert_eq!(codex_infrastructure("provider_error".to_string(), &failed, Some(1), ""), "provider_error");
    let done = parse_codex_output(br#"{"type":"turn.completed"}"#);
    assert_eq!(codex_infrastructure("none".to_string(), &done, Some(0), ""), "none");
    assert_eq!(codex_infrastructure("none".to_string(), &done, Some(1), ""), "unknown");
}

#[test]
fn relay_rows_override_the_status() {
    let r = rows(&[
        r#"{"event":"request_received","request_id":1}"#,
        r#"{"event":"response","http_status":404}"#,
    ]);
    assert_eq!(relay_infrastructure("none".to_string(), &r), "provider_error");
    let r = rows(&[r#"{"event":"response","detail":{"status":503}}"#]);
    assert_eq!(relay_infrastructure("none".to_string(), &r), "relay_error");
    let r = rows(&[r#"{"event":"harness_error"}"#, r#"{"event":"response","http_status":200}"#]);
    assert_eq!(relay_infrastructure("none".to_string(), &r), "harness_error");
    let r = rows(&[r#"{"event":"stream_error"}"#]);
    assert_eq!(relay_infrastructure("none".to_string(), &r), "relay_error");
    assert_eq!(relay_infrastructure("none".to_string(), &[]), "none");
}

#[test]
fn completed_command_items_are_collected_in_order() {
    let out = b"{\"type\":\"item.completed\",\"item\":{\"type\":\"command_execution\",\"command\":\"a\"}}\nnot json\n{\"type\":\"item.started\",\"item\":{\"type\":\"command_execution\"}}\n{\"type\":\"item.completed\",\"item\":{\"type\":\"commandExecution\",\"command\":\"b\"}}\n";
    let items = completed_commands(out);
    assert_eq!(items.len(), 2);
    assert_eq!(codex_mbtx_contract::to_json_text(&items[1]), r#"{"command":"b","type":"commandExecution"}"#);
}

#[test]
fn actual_steps_pair_calls_with_the_last_session() {
    let trace = rows(&[
        r#"{"phase":"tool","event":"arguments","tool":"exec_command","arguments":{"cmd":"x"}}"#,
        r#"{"phase":"tool","event":"result_ready","tool":"exec_command","process_id":42}"#,
        r#"{"phase":"model","event":"arguments","tool":"ignored"}"#,
        r#"{"phase":"tool","event":"arguments","tool":"write_stdin","arguments":{"chars":"y"}}"#,
    ]);
    let steps = actual_steps(&trace);
    assert_eq!(steps.len(), 2);
    assert_eq!(
        codex_mbtx_contract::to_json_text(&steps[0]),
        r#"{"arguments":{"cmd":"x"},"expected_session_id":null,"tool":"exec_command"}"#
    );
    assert_eq!(
        codex_mbtx_contract::to_json_text(&steps[1]),
        r#"{"arguments":{"chars":"y"},"expected_session_id":42,"tool":"write_stdin"}"#
    );
}

#[test]
fn pending_requests_are_those_never_finished() {
    let open = rows(&[
        r#"{"event":"request_received","request_id":1}"#,
        r#"{"event":"request_finished","request_id":1}"#,
        r#"{"event":"request_received","request_id":2}"#,
    ]);
    assert!(relay_pending(&open, false));
    assert!(!relay_pending(&open, true));
    let closed = rows(&[
        r#"{"event":"request_received","request_id":1}"#,
        r#"{"event":"transport_error","request_id":1}"#,
    ]);
    assert!(!relay_pending(&closed, false));
    assert!(!relay_pending(&[], false));
}

#[test]
fn fixture_cleanliness_is_three_valued() {
    assert_eq!(processes_clean(1, 0), Some(false));
    assert_eq!(processes_clean(0, 0), Some(true));
    assert_eq!(processes_clean(0, 2), None);
}

fn arm_row(text: &str) -> codex_mbtx_contract::JsonValue {
    codex_mbtx_contract::parse_json(text.as_bytes()).unwrap()
}

#[test]
fn tally_counts_valid_pairs_and_failed_arms() {
    let mut tally = Tally::new();
    let mut successes = vec![0usize, 0];
    let ok = arm_row("{\"status\":\"success\",\"strict_comparable\":true}");
    let bad = arm_row("{\"status\":\"backend_failure\",\"strict_comparable\":true}");
    let comparable = tally.record_arm(&ok, true);
    let comparable = tally.record_arm(&bad, comparable);
    assert!(comparable);
    tally.finish_pair(comparable, &mut successes, 1);
    assert_eq!((tally.attempted, tally.valid, tally.failures), (1, 1, 1));
    assert_eq!(successes, vec![0, 1]);
    let loose = arm_row("{\"status\":\"success\",\"strict_comparable\":false}");
    let comparable = tally.record_arm(&loose, true);
    assert!(!comparable);
    tally.finish_pair(comparable, &mut successes, 0);
    assert_eq!((tally.attempted, tally.valid), (2, 1));
    assert_eq!(
        to_json_text(&tally.summary(4)),
        "{\"attempted_pairs\":2,\"failed_arms\":1,\"partial\":true,\"schema_version\":2,\"stop_reason\":null,\"target_pairs\":4,\"valid_pairs\":1}"
    );
    assert_eq!(
        to_json_text(&tally.progress_detail("r1-a-a00", &arm_row("\"a\""), 4)),
        "{\"failed_arms\":1,\"pair_id\":\"r1-a-a00\",\"remaining_target\":3,\"target_pairs\":4,\"task_id\":\"a\",\"valid_pairs\":1}"
    );
}

#[test]
fn five_infrastructure_failures_stop_the_collection() {
    let mut tally = Tally::new();
    let mut successes = vec![0usize];
    let relay = arm_row("{\"status\":\"relay_error\"}");
    for _ in 0..5 {
        tally.record_arm(&relay, true);
    }
    tally.finish_pair(false, &mut successes, 0);
    assert_eq!(tally.stop_reason.as_deref(), Some("infrastructure failure threshold reached"));
    tally.arm_failed("boom");
    assert_eq!(tally.stop_reason.as_deref(), Some("collector failure: boom"));
    tally.finish_pair(true, &mut successes, 0);
    assert_eq!(tally.valid, 0);
}

#[test]
fn probes_stop_a_collection_only_when_all_fail() {
    let ok = arm_row("{\"status\":\"success\"}");
    let bad = arm_row("{\"status\":\"relay_error\"}");
    assert_eq!(probe_stop(&vec![bad.copy(), ok.copy(), bad.copy()]), None);
    assert_eq!(
        probe_stop(&vec![bad.copy(), bad.copy(), bad.copy()]).as_deref(),
        Some("all three initial probes failed")
    );
}

#[test]
fn scenarios_run_until_their_quota_or_a_stop() {
    let mut tally = Tally::new();
    let successes = vec![2usize, 1];
    assert!(matches!(tally.pair_step(&successes, 0, 2), PairStep::Skip));
    assert!(matches!(tally.pair_step(&successes, 1, 2), PairStep::Run));
    tally.arm_failed("gone");
    assert!(matches!(tally.pair_step(&successes, 1, 2), PairStep::Stop));
}

#[test]
fn frozen_runs_are_replayed_only_offline_and_unchanged() {
    assert!(frozen_check(false, "codex-relay").is_ok());
    assert!(frozen_check(true, "codex-replay").is_ok());
    assert_eq!(frozen_check(true, "codex-relay").unwrap_err(), "frozen input requires offline replay");

    let protocol = arm_row("{\"tasks\":[{\"id\":\"a\"}],\"offline_boundaries\":[{\"id\":\"b\"}]}");
    assert_eq!(suite_tasks(&protocol, false, "codex-relay").unwrap().len(), 1);
    assert_eq!(suite_tasks(&protocol, true, "codex-replay").unwrap().len(), 2);
    assert_eq!(
        suite_tasks(&protocol, true, "codex-relay").unwrap_err(),
        "--boundaries is only supported by offline replay"
    );
    assert_eq!(suite_tasks(&arm_row("{\"tasks\":1}"), false, "codex-relay").unwrap_err(), "invalid suite");

    let prior = arm_row(
        "{\"platform\":\"linux\",\"path\":\"/bin\",\"binaries\":{\"codex\":{\"sha256\":\"c\"},\"launcher\":{\"sha256\":\"l\"},\"fixture\":{\"path\":\"/f\",\"sha256\":\"f\"},\"evaluation_model\":{\"sha256\":\"m\"},\"code_mode_host\":{\"sha256\":\"h\"}}}",
    );
    assert_eq!(frozen_refusal(&prior, "linux", Some("/bin"), "/f", "c", "l", "f", "m"), None);
    assert_eq!(
        frozen_refusal(&prior, "linux", None, "/f", "c", "l", "f", "m").as_deref(),
        Some("frozen replay requires the original platform and environment PATH")
    );
    assert_eq!(
        frozen_refusal(&prior, "linux", Some("/bin"), "/g", "c", "l", "f", "m").as_deref(),
        Some("frozen argv requires the original fixture path; no command rewriting is performed")
    );
    assert_eq!(
        frozen_refusal(&prior, "linux", Some("/bin"), "/f", "c", "l", "f", "x").as_deref(),
        Some("frozen replay evaluation_model binary hash differs")
    );
    assert!(code_host_check(&prior, "h").is_ok());
    assert_eq!(code_host_check(&prior, "z").unwrap_err(), "frozen replay Code Mode host hash differs");
}
