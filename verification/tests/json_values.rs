use codex_mbtx_contract::json_object::{json_eq, json_subset};
use codex_mbtx_contract::parse_json;

#[test]
fn zero_floats_are_equal_whatever_their_sign() {
    let a = parse_json(b"[-0.0, 1.5, {\"k\": 0.0}]").unwrap();
    let b = parse_json(b"[0.0, 1.5, {\"k\": -0.0}]").unwrap();
    assert!(json_eq(&a, &b));
    assert!(json_subset(&parse_json(b"{\"k\": -0.0}").unwrap(), &parse_json(b"{\"k\": 0.0, \"x\": 1}").unwrap()));
    assert!(!json_eq(&parse_json(b"0.0").unwrap(), &parse_json(b"0").unwrap()));
    assert!(!json_eq(&parse_json(b"1.5").unwrap(), &parse_json(b"-1.5").unwrap()));
    assert!(json_eq(&parse_json(b"{\"a\":[1,\"x\",null]}").unwrap(), &parse_json(b"{\"a\":[1,\"x\",null]}").unwrap()));
}
