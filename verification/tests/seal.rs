use codex_mbtx_contract::evidence::{digest, inventory, seal_document};
use codex_mbtx_contract::reporting::{seal_entries, seal_status};
use codex_mbtx_contract::{parse_json, to_json_text, JsonValue};

fn files() -> Vec<(String, Vec<u8>)> {
    vec![
        ("a/seal.json".to_string(), b"nested".to_vec()),
        ("result.json".to_string(), b"{}".to_vec()),
        ("seal.json".to_string(), b"old".to_vec()),
        ("z/trace.jsonl".to_string(), b"x\n".to_vec()),
    ]
}

fn value(text: &str) -> JsonValue {
    parse_json(text.as_bytes()).unwrap()
}

#[test]
fn inventory_leaves_out_every_seal_file() {
    let rows = inventory(&files());
    assert_eq!(rows.len(), 2);
    assert_eq!(
        to_json_text(&rows[0]),
        format!("{{\"path\":\"result.json\",\"sha256\":\"{}\"}}", digest(b"{}"))
    );
    assert_eq!(
        to_json_text(&rows[1]),
        format!("{{\"path\":\"z/trace.jsonl\",\"sha256\":\"{}\"}}", digest(b"x\n"))
    );
}

#[test]
fn seal_document_lists_the_inventory() {
    let seal = seal_document(&files());
    let text = to_json_text(&seal);
    assert!(text.starts_with("{\"files\":[{\"path\":\"result.json\""));
    assert!(text.ends_with("],\"schema_version\":2}"));
}

#[test]
fn a_fresh_seal_verifies() {
    let seal = seal_document(&files());
    let sealed = value(&to_json_text(&seal));
    let contents = vec![Some(b"{}".to_vec()), Some(b"x\n".to_vec())];
    let status = seal_status(&Some(sealed), &contents, &inventory(&files()));
    assert_eq!(to_json_text(&status), "{\"mismatches\":[],\"status\":\"success\"}");
}

#[test]
fn a_changed_file_is_a_mismatch() {
    let seal = seal_document(&files());
    let sealed = value(&to_json_text(&seal));
    let contents = vec![Some(b"{}".to_vec()), Some(b"changed".to_vec())];
    let status = seal_status(&Some(sealed), &contents, &inventory(&files()));
    assert_eq!(
        to_json_text(&status),
        "{\"mismatches\":[\"z/trace.jsonl\"],\"status\":\"mismatch\"}"
    );
}

#[test]
fn an_unlisted_file_changes_the_evidence() {
    let seal = seal_document(&files());
    let sealed = value(&to_json_text(&seal));
    let contents = vec![Some(b"{}".to_vec()), None];
    let mut now = files();
    now.push(("zz.txt".to_string(), b"new".to_vec()));
    let status = seal_status(&Some(sealed), &contents, &inventory(&now));
    assert_eq!(
        to_json_text(&status),
        "{\"mismatches\":[\"z/trace.jsonl\"],\"reason\":\"changed_or_unlisted_evidence\",\"status\":\"mismatch\"}"
    );
}

#[test]
fn seal_reasons() {
    let status = |seal: Option<JsonValue>| to_json_text(&seal_status(&seal, &vec![], &vec![]));
    assert_eq!(status(None), "{\"reason\":\"unsealed_attempt\",\"status\":\"unknown\"}");
    assert_eq!(
        status(Some(value("{\"files\":[]}"))),
        "{\"reason\":\"empty_or_invalid_seal\",\"status\":\"mismatch\"}"
    );
    assert_eq!(
        status(Some(value("[1]"))),
        "{\"reason\":\"empty_or_invalid_seal\",\"status\":\"mismatch\"}"
    );
    assert_eq!(
        status(Some(value("{\"files\":[{\"path\":\"a\"}]}"))),
        "{\"reason\":\"result_not_sealed\",\"status\":\"mismatch\"}"
    );
    assert_eq!(
        status(Some(value("{\"files\":[{\"path\":\"result.json\"},{\"path\":1}]}"))),
        "{\"reason\":\"invalid_seal_entry\",\"status\":\"mismatch\"}"
    );
    assert_eq!(
        status(Some(value("{\"files\":[{\"path\":\"result.json\"},{\"path\":\"../x\"}]}"))),
        "{\"reason\":\"unsafe_path_in_seal\",\"status\":\"mismatch\"}"
    );
    assert!(seal_entries(&Some(value("{\"files\":[{\"path\":\"result.json\"}]}")), &vec![None]).unwrap()
        == vec!["result.json".to_string()]);
}
