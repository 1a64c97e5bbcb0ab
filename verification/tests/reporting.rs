use codex_mbtx_contract::parse_json;
use codex_mbtx_contract::reporting::{event, ns, span, sum, union};
use codex_mbtx_contract::JsonValue;

fn rows(text: &str) -> Vec<JsonValue> {
    text.lines().map(|l| parse_json(l.as_bytes()).unwrap()).collect()
}

#[test]
fn overlapping_intervals_are_not_double_counted() {
    assert_eq!(union(&[(0, 20), (10, 30)], 0, 50), 30);
}

#[test]
fn union_clips_to_the_window_and_merges_in_any_order() {
    assert_eq!(union(&[(40, 60), (0, 5), (3, 10)], 2, 50), 18);
    assert_eq!(union(&[(10, 20), (10, 20), (15, 18)], 0, 100), 10);
    assert_eq!(union(&[(5, 5)], 0, 10), 0);
    assert_eq!(union(&[(0, 10)], 20, 10), 0);
    assert_eq!(union(&[], 0, 10), 0);
}

#[test]
fn sums_are_null_without_intervals() {
    assert_eq!(sum(&[]), None);
    assert_eq!(sum(&[(1, 4), (10, 20)]), Some(13));
}

#[test]
fn only_os_monotonic_rows_have_times() {
    let r = rows("{\"clock_domain\":\"os-monotonic\",\"monotonic_ns\":5,\"phase\":\"spawn\",\"event\":\"begin\"}\n{\"clock_domain\":\"observer-monotonic\",\"monotonic_ns\":5}");
    assert_eq!(ns(&r[0]), Some(5));
    assert_eq!(ns(&r[1]), None);
    assert!(event(&r[0], "spawn", "begin"));
    assert!(!event(&r[0], "spawn", "return"));
}

#[test]
fn spans_pair_start_and_end_of_the_same_operation() {
    let text = [
        "{\"clock_domain\":\"os-monotonic\",\"monotonic_ns\":10,\"phase\":\"tool\",\"event\":\"arguments\",\"call_id\":\"a\"}\n",
        "{\"clock_domain\":\"os-monotonic\",\"monotonic_ns\":12,\"phase\":\"tool\",\"event\":\"arguments\",\"call_id\":\"b\"}\n",
        "{\"clock_domain\":\"os-monotonic\",\"monotonic_ns\":15,\"phase\":\"tool\",\"event\":\"result_ready\",\"call_id\":\"b\"}\n",
        "{\"clock_domain\":\"observer-monotonic\",\"monotonic_ns\":16,\"phase\":\"tool\",\"event\":\"result_ready\",\"call_id\":\"a\"}\n",
        "{\"clock_domain\":\"os-monotonic\",\"monotonic_ns\":30,\"phase\":\"tool\",\"event\":\"result_ready\",\"call_id\":\"a\"}\n",
        "{\"clock_domain\":\"os-monotonic\",\"monotonic_ns\":31,\"phase\":\"tool\",\"event\":\"result_ready\",\"call_id\":\"a\"}\n",
        "{\"clock_domain\":\"os-monotonic\",\"monotonic_ns\":40,\"phase\":\"tool\",\"event\":\"arguments\",\"call_id\":\"c\"}\n",
        "{\"clock_domain\":\"os-monotonic\",\"monotonic_ns\":35,\"phase\":\"tool\",\"event\":\"result_ready\",\"call_id\":\"c\"}",
    ]
    .concat();
    let r = rows(&text);
    assert_eq!(span(&r, "tool", "arguments", "result_ready"), vec![(12, 15), (10, 30)]);
}

#[test]
fn first_difference_compares_output_then_streams() {
    let parse = |t: &str| codex_mbtx_contract::parse_json(t.as_bytes()).unwrap();
    let first = codex_mbtx_contract::reporting::first_difference;
    let a = parse(r#"{"facts":{"actual_steps":[1],"commands":[{"aggregated_output":"ok","exit_code":0,"command":"x"}],"streams":[{"name":"s","bytes":2,"sha256":"aa"}]}}"#);
    let same = parse(r#"{"facts":{"actual_steps":[2],"commands":[{"aggregated_output":"ok","exit_code":0,"command":"y"}],"streams":[{"name":"t","bytes":2,"sha256":"aa"}]}}"#);
    assert_eq!(codex_mbtx_contract::to_json_text(&first(&a, &same)), "null");
    let output = parse(r#"{"facts":{"commands":[{"aggregated_output":"no","exit_code":0}],"streams":[]}}"#);
    assert_eq!(
        codex_mbtx_contract::to_json_text(&first(&a, &output)),
        r#"{"confidence":"observed","field":"commands.aggregated_output/exit_code","layer":"codex_output","meaning":"Displayed output differs; per-stream oracle separately distinguishes byte loss from interleaving."}"#
    );
    let streams = parse(r#"{"facts":{"commands":[{"aggregated_output":"ok","exit_code":0}],"streams":[{"bytes":3,"sha256":"aa"}]}}"#);
    assert_eq!(
        codex_mbtx_contract::to_json_text(&first(&a, &streams)),
        r#"{"confidence":"unknown","field":"streams","layer":"child_or_codex_io"}"#
    );
    let missing = parse(r#"{"facts":{}}"#);
    assert_eq!(codex_mbtx_contract::to_json_text(&first(&missing, &missing)), "null");
    assert_eq!(codex_mbtx_contract::to_json_text(&first(&a, &missing)).contains("codex_output"), true);
}
