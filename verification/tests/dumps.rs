use codex_mbtx_contract::dumps::{attempt_records, exchange_of, request_names, trim_end_matches, DumpExchange};
use codex_mbtx_contract::{parse_json, to_json_text};

#[test]
fn requests_are_picked_and_sorted() {
    let names = vec![
        "000002-1700000000200-request.json".to_string(),
        "000001-1700000000100-response.json".to_string(),
        "000001-1700000000100-request.json".to_string(),
        "notes.txt".to_string(),
    ];
    assert_eq!(
        request_names(&names),
        vec!["000001-1700000000100-request.json".to_string(), "000002-1700000000200-request.json".to_string()]
    );
}

#[test]
fn exchange_names_and_attempt_ids() {
    assert_eq!(trim_end_matches("a-request.json-request.json", "-request.json"), "a");
    assert_eq!(
        exchange_of("000001-17-request.json", "dumps"),
        ("000001-17".to_string(), "000001-17".to_string())
    );
    assert_eq!(exchange_of("-request.json", "dumps"), (String::new(), "dumps".to_string()));
}

#[test]
fn failed_attempts_followed_by_success_are_recovered() {
    let exchanges = vec![
        DumpExchange {
            attempt_id: "a1".to_string(),
            request_time: None,
            response_time: None,
            response: None,
        },
        DumpExchange {
            attempt_id: "a2".to_string(),
            request_time: Some(40),
            response_time: Some(90),
            response: Some(
                parse_json(br#"{"body":{"type":"response.completed","usage":{"input_tokens":7,"output_tokens":2}},"status":200}"#)
                    .unwrap(),
            ),
        },
    ];
    let records = attempt_records(&exchanges, 500);
    assert_eq!(records.len(), 2);
    assert!(records[0].transport_error);
    assert!(!records[0].successful);
    let first = to_json_text(&records[0].value);
    assert!(first.contains(r#""recovered":true"#));
    assert!(first.contains(r#""started_ms":0"#));
    assert!(first.contains(r#""error_class":"transport_disconnect""#));
    assert!(records[1].successful);
    let second = to_json_text(&records[1].value);
    assert!(second.contains(r#""recovered":false"#));
    assert!(second.contains(r#""started_ms":40"#));
    assert!(second.contains(r#""completed_ms":90"#));
    assert!(second.contains(r#""input_tokens":7"#));
    assert!(second.contains(r#""retry_index":1"#));
}
