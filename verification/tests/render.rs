use codex_mbtx_contract::render::{arms_csv, csv_cell, markdown, report_csv, script_payload, startup_csv};
use codex_mbtx_contract::{JsonValue, parse_json};

fn json(text: &str) -> JsonValue {
    parse_json(text.as_bytes()).unwrap()
}

#[test]
fn html_script_payload_is_escaped() {
    let report = json(r#"{"summary":{"error":"</script><img src=x onerror=alert(1)>"},"statistics":[],"pairs":[],"arms":[]}"#);
    let html = script_payload(&report);
    assert!(!html.contains("</script><img"));
    assert!(html.contains("\\u003c/script>"));
}

#[test]
fn ampersands_are_escaped_in_the_payload() {
    let payload = script_payload(&json(r#"{"a":"x&y"}"#));
    assert_eq!(payload, r#"{"a":"x\u0026y"}"#);
}

#[test]
fn csv_cells_quote_text_and_print_other_values() {
    assert_eq!(csv_cell(&json(r#""a\"b""#)), "\"a\"\"b\"");
    assert_eq!(csv_cell(&json("12")), "\"12\"");
    assert_eq!(csv_cell(&json("null")), "\"null\"");
    assert_eq!(csv_cell(&json(r#"{"k":"v"}"#)), "\"{\"\"k\"\":\"\"v\"\"}\"");
}

#[test]
fn startup_csv_lists_startup_rows_only() {
    let events = vec![
        json(r#"{"phase":"startup","pair_id":"p","backend":"shell","task_id":"t","observation":"minimal","sample_phase":"formal","status":"success","startup_ns":5,"spawn_return_ns":6,"fixture_ready_ns":7}"#),
        json(r#"{"phase":"collection"}"#),
    ];
    assert_eq!(
        startup_csv(&events),
        "pair_id,backend,task_id,observation,sample_phase,status,startup_ns,spawn_return_ns,fixture_ready_ns\n\"p\",\"shell\",\"t\",\"minimal\",\"formal\",\"success\",\"5\",\"6\",\"7\"\n"
    );
}

#[test]
fn arms_csv_reads_results_and_metrics() {
    let arms = vec![json(r#"{"result":{"pair_id":"p","task_id":"t","backend":"shell","status":"success","strict_comparable":true},"metrics":{"codex_total_ns":10}}"#)];
    assert_eq!(
        arms_csv(&arms),
        "pair_id,task_id,backend,status,strict_comparable,codex_total_ns,external_response_ns,rate_wait_ns,startup_to_ready_ns,unexplained_ns\n\"p\",\"t\",\"shell\",\"success\",\"true\",\"10\",\"null\",\"null\",\"null\",\"null\"\n"
    );
    let report = json(r#"{"arms":[]}"#);
    assert_eq!(report_csv(&report), "pair_id,task_id,backend,status,strict_comparable,codex_total_ns,external_response_ns,rate_wait_ns,startup_to_ready_ns,unexplained_ns\n");
    let startup = json(r#"{"events":[],"arms":[]}"#);
    assert!(report_csv(&startup).starts_with("pair_id,backend,"));
}

#[test]
fn markdown_tabulates_statistics() {
    let report = json(r#"{"summary":{"a":1},"statistics":[{"stratum":"x | y","metric":"m","statistics":{"pairs":3,"ratio":1.5,"ratio_ci95":[1,2]}},{}]}"#);
    let md = markdown(&report);
    assert!(md.starts_with("# MBTX execution comparison\n\n```json\n{\n  \"a\": 1\n}\n```\n\n| Stratum |"));
    assert!(md.contains("| x \\| y | m | 3 | 1.5 | [1,2] |\n"));
    assert!(md.ends_with("| unknown | unknown | null | null | null |\n"));
}
