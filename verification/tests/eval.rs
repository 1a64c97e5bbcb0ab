use codex_mbtx_contract::eval::{csv_field, esc, field, render_report, replay_options, text_field};
use codex_mbtx_contract::order::key_before;
use codex_mbtx_contract::parse_json;

#[test]
fn html_escapes_untrusted_event_text() {
    assert_eq!(esc("<script>&\""), "&lt;script&gt;&amp;&quot;");
}

#[test]
fn csv_quotes_commas_and_quotes() {
    assert_eq!(csv_field("a,b\"c".into()), "\"a,b\"\"c\"");
}

#[test]
fn escaping_leaves_other_text_alone() {
    assert_eq!(esc("plain 'text' ü"), "plain 'text' ü");
    assert_eq!(esc("&amp;"), "&amp;amp;");
    assert_eq!(csv_field(String::new()), "\"\"");
}

#[test]
fn fields_default_to_unknown() {
    let row = parse_json(br#"{"status":"success","code":7,"none":null,"list":[1,"a"]}"#).unwrap();
    assert_eq!(field(&row, "status"), "success");
    assert_eq!(field(&row, "code"), "unknown");
    assert_eq!(field(&row, "missing"), "unknown");
    assert_eq!(text_field(&row, "status"), "success");
    assert_eq!(text_field(&row, "code"), "7");
    assert_eq!(text_field(&row, "none"), "unknown");
    assert_eq!(text_field(&row, "missing"), "unknown");
    assert_eq!(text_field(&row, "list"), "[1,\"a\"]");
}

fn rows(lines: &[&str]) -> Vec<codex_mbtx_contract::JsonValue> {
    lines.iter().map(|l| codex_mbtx_contract::parse_json(l.as_bytes()).unwrap()).collect()
}

fn member(v: &codex_mbtx_contract::JsonValue, key: &str) -> String {
    codex_mbtx_contract::to_json_text(&v.field(key))
}

#[test]
fn summary_separates_external_and_backend_failures() {
    let rows = rows(&[
        r#"{"pair_id":"p","task_id":"t","backend":"shell","phase":"codex","event":"exit","status":"relay_error"}"#,
        r#"{"pair_id":"p","task_id":"t","backend":"transparent","phase":"codex","event":"exit","status":"backend_failure"}"#,
    ]);
    let (summary, pairs) = codex_mbtx_contract::pairs::report_summary(&rows, Some(1));
    assert_eq!(member(&summary, "external_failures"), "1");
    assert_eq!(member(&summary, "backend_failures"), "1");
    assert_eq!(member(&pairs[0], "valid_comparable"), "false");
}

#[test]
fn online_codex_exit_is_not_overwritten_by_child_exit() {
    let rows = rows(&[
        r#"{"pair_id":"p","task_id":"t","attempt_id":"a-shell","backend":"shell","phase":"codex","event":"exit","status":"success","elapsed_ms":120,"command_exit_code":0}"#,
        r#"{"pair_id":"p","task_id":"t","attempt_id":"a-shell","backend":"shell","phase":"child","event":"exit","status":"success","command_exit_code":0}"#,
        r#"{"pair_id":"p","task_id":"t","attempt_id":"a-transparent","backend":"transparent","phase":"codex","event":"exit","status":"success","elapsed_ms":100,"command_exit_code":0}"#,
    ]);
    let (summary, pairs) = codex_mbtx_contract::pairs::report_summary(&rows, Some(1));
    assert_eq!(member(&summary, "valid_comparable_pairs"), "1");
    assert_eq!(member(&pairs[0], "observed_difference"), "\"transparent_faster_observed\"");
}

#[test]
fn child_exit_counts_only_without_a_codex_exit() {
    let rows = rows(&[
        r#"{"attempt_id":"a","phase":"child","event":"exit","status":"success"}"#,
        r#"{"attempt_id":"b","phase":"child","event":"exit","status":"success"}"#,
        r#"{"attempt_id":"b","phase":"codex","event":"exit","status":"relay_error"}"#,
        r#"{"attempt_id":"c","phase":"codex","event":"spawn_return"}"#,
    ]);
    let exits = codex_mbtx_contract::pairs::exit_rows(&rows);
    assert_eq!(exits.len(), 2);
    assert_eq!(member(&exits[0], "attempt_id"), "\"a\"");
    assert_eq!(member(&exits[1], "attempt_id"), "\"b\"");
}

#[test]
fn pairs_are_sorted_and_keep_the_last_row_of_each_arm() {
    let rows = rows(&[
        r#"{"pair_id":"r2-b","task_id":"b","backend":"shell","phase":"codex","event":"exit","status":"success","elapsed_ms":5,"command_exit_code":1}"#,
        r#"{"pair_id":"r1-a","task_id":"a","backend":"transparent","phase":"codex","event":"exit","status":"timeout"}"#,
        r#"{"pair_id":"r2-b","task_id":"b","backend":"transparent","phase":"codex","event":"exit","status":"success","elapsed_ms":5,"command_exit_code":0}"#,
        r#"{"pair_id":"r1-a","task_id":"a","backend":"other","phase":"codex","event":"exit","status":"success"}"#,
    ]);
    let (summary, pairs) = codex_mbtx_contract::pairs::report_summary(&rows, None);
    assert_eq!(pairs.len(), 2);
    assert_eq!(member(&pairs[0], "pair_id"), "\"r1-a\"");
    assert_eq!(member(&pairs[0], "first_difference"), "\"missing_arm\"");
    assert_eq!(member(&pairs[0], "observed_difference"), "\"insufficient_evidence\"");
    assert_eq!(member(&pairs[0], "shell"), "null");
    assert_eq!(member(&pairs[1], "pair_id"), "\"r2-b\"");
    assert_eq!(member(&pairs[1], "first_difference"), "\"command_exit_code\"");
    assert_eq!(member(&pairs[1], "observed_difference"), "\"no_observed_difference\"");
    assert_eq!(member(&pairs[1], "complete_pair"), "true");
    assert_eq!(member(&summary, "planned_pairs"), "2");
    assert_eq!(member(&summary, "planned_arms"), "4");
    assert_eq!(member(&summary, "observed_arms"), "4");
    assert_eq!(member(&summary, "not_observed_arms"), "0");
    assert_eq!(member(&summary, "complete_pairs"), "1");
    assert_eq!(member(&summary, "partial"), "true");
    assert_eq!(member(&summary, "status_counts"), r#"{"success":3,"timeout":1}"#);
    assert_eq!(
        member(&summary, "intention_to_treat"),
        r#"{"failed_or_unknown_arms":1,"observed_arms":4,"planned_arms":4,"successful_arms":3}"#
    );
}

#[test]
fn arm_in_report_defaults_missing_text_to_unknown() {
    let rows = rows(&[
        r#"{"pair_id":"p","task_id":"t","backend":"shell","phase":"codex","event":"exit","status":"success","command_outcome":"success","turn_completed":true}"#,
    ]);
    let (_, pairs) = codex_mbtx_contract::pairs::report_summary(&rows, Some(3));
    assert_eq!(
        member(&pairs[0], "shell"),
        r#"{"artifact_dir":"unknown","command_exit_code":null,"command_failure_class":null,"command_outcome":"success","elapsed_ms":null,"failure_class":"unknown","status":"success","turn_completed":true}"#
    );
    assert_eq!(member(&pairs[0], "command_oracle_pair"), "false");
}

#[test]
fn key_order_is_that_of_strings() {
    assert!(key_before("a", "b"));
    assert!(key_before("a", "ab"));
    assert!(!key_before("ab", "a"));
    assert!(!key_before("a", "a"));
    assert!(key_before("Z", "a"));
    assert!(key_before("\u{e9}", "\u{4e2d}"));
    assert_eq!(key_before("r10", "r9"), "r10" < "r9");
}

fn report_value(text: &str) -> codex_mbtx_contract::JsonValue {
    codex_mbtx_contract::parse_json(text.as_bytes()).unwrap()
}

#[test]
fn report_renders_each_format() {
    let rows = vec![report_value(
        "{\"pair_id\":\"p1\",\"task_id\":\"t\",\"backend\":\"shell\",\"phase\":\"codex\",\"event\":\"exit\",\"status\":\"success\",\"command\":\"a|b\",\"elapsed_ms\":5}",
    )];
    let pairs = vec![report_value(
        "{\"pair_id\":\"p1\",\"task_id\":\"t\",\"shell\":{\"status\":\"success\"},\"valid_comparable\":true,\"command_oracle_pair\":false,\"first_difference\":\"<none>\"}",
    )];
    let summary = report_value("{\"planned_pairs\":1}");
    assert!(render_report(&rows, &summary, &pairs, "xml").is_none());

    let csv = render_report(&rows, &summary, &pairs, "csv").unwrap();
    let lines: Vec<&str> = csv.lines().collect();
    assert_eq!(lines.len(), 2);
    assert!(lines[0].starts_with("pair_id,attempt_id,task_id,"));
    assert_eq!(
        lines[1],
        "\"p1\",\"unknown\",\"t\",\"shell\",\"codex\",\"exit\",\"success\",\"unknown\",\"unknown\",\"5\",\"a|b\",\"unknown\",\"unknown\",\"unknown\",\"unknown\",\"unknown\""
    );

    let md = render_report(&rows, &summary, &pairs, "md").unwrap();
    assert!(md.starts_with("# MBTX execution report\n\n## Evidence summary\n\n```json\n{\n  \"planned_pairs\": 1\n}\n```\n\n"));
    assert!(md.contains("| `p1` | `t` | `success` | `unknown` | `true` | `false` | `unknown` | `<none>` |\n"));
    assert!(md.ends_with("| `p1` | `t` | `shell` | `codex` | `exit` | `success` | `unknown` | `5` | `a b` | `unknown` |\n"));

    let html = render_report(&rows, &summary, &pairs, "html").unwrap();
    assert!(html.contains("<pre>{\n  &quot;planned_pairs&quot;: 1\n}</pre>"));
    assert!(html.contains("<tr><td>p1</td><td>t</td><td>success</td><td>unknown</td><td>true</td><td>false</td><td>unknown</td><td>&lt;none&gt;</td></tr>\n"));
    assert!(html.ends_with("<td><code>a|b</code></td><td><code>unknown</code></td></tr>\n</table>\n"));

    let json = render_report(&rows, &summary, &pairs, "json").unwrap();
    assert!(json.starts_with("{\n  \"events\": [\n"));
    assert!(json.contains("\"schema_version\": 1,\n  \"summary\": {\n    \"planned_pairs\": 1\n  }\n}\n"));
}

#[test]
fn frozen_runs_are_replayed_with_their_recorded_options() {
    let manifest = report_value(
        "{\"binaries\":{\"codex\":{\"path\":\"/c\"},\"launcher\":{\"path\":\"/l\"},\"fixture\":{\"path\":\"/f\"},\"evaluation_model\":{\"path\":\"/m\"}},\"tool_mode\":\"direct\",\"model\":\"gpt\",\"timeout_ms\":9000,\"direct_control\":true}",
    );
    let args: Vec<String> = vec!["eval".into(), "replay".into(), "runs/a".into(), "--mbtx".into(), "/other".into()];
    let options = replay_options(&args, "runs/a", &manifest, 42).unwrap();
    let expected: Vec<String> = [
        "eval", "replay", "runs/a", "--mbtx", "/other", "--codex", "/c", "--fixture", "/f", "--evaluation-model", "/m",
        "--output", "runs/a-replay-42", "--tool-mode", "direct", "--model", "gpt", "--timeout-ms", "9000",
        "--direct-shell", "--frozen-run", "runs/a", "--suite", "codex-replay",
    ]
    .iter()
    .map(|s| s.to_string())
    .collect();
    assert_eq!(options, expected);
    let bare = report_value("{\"binaries\":{}}");
    assert!(replay_options(&args, "runs/a", &bare, 1).is_none());
}
