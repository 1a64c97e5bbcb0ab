use codex_mbtx_contract::parse_json;
use codex_mbtx_contract::process_identity::{
    ProcEntry, Resolution, identity_text, resolve, stat_fields,
};

fn stat(group: i32, start: u64) -> String {
    let mut fields: Vec<String> = (0..22).map(|i| format!("f{i}")).collect();
    fields[2] = group.to_string();
    fields[19] = start.to_string();
    format!("123 (odd) name) ) {}", fields.join(" "))
}

fn entry(name: &str, group: i32, start: u64, ns: &str, inner: i32, identity: Option<String>) -> ProcEntry {
    ProcEntry {
        name: name.to_string(),
        stat: Some(stat(group, start)),
        namespace: Some(ns.to_string()),
        status: Some(format!("Name:\tx\nNSpid:\t{name}\t{inner}\nUid: 0\n")),
        owned: true,
        identity,
    }
}

#[test]
fn stat_fields_follow_the_last_parenthesis() {
    assert_eq!(stat_fields(&stat(-4, 99)), Some((-4, 99)));
    assert_eq!(stat_fields("no parenthesis 1 2 3"), None);
    assert_eq!(stat_fields("1 (x) S 2"), None);
    assert_eq!(identity_text(99, -4), "99:-4");
}

#[test]
fn resolution_requires_start_namespace_inner_pid_and_identity() {
    let receipt = parse_json(br#"{"pid":7,"pid_namespace":"pid:[1]","process_start_ticks":99}"#).unwrap();
    let good = entry("4321", 5, 99, "pid:[1]", 7, Some(identity_text(99, 5)));
    let other_ns = entry("4000", 5, 99, "pid:[2]", 7, Some(identity_text(99, 5)));
    let other_start = entry("4001", 5, 98, "pid:[1]", 7, Some(identity_text(98, 5)));
    match resolve(&receipt, &[other_ns, other_start, good]) {
        Resolution::Live { pid, identity } => {
            assert_eq!(pid, 4321);
            assert_eq!(identity, "99:5");
        }
        _ => panic!("expected a live process"),
    }
    assert!(matches!(resolve(&receipt, &[]), Resolution::Gone));
    let unreadable = ProcEntry {
        name: "55".into(),
        stat: None,
        namespace: None,
        status: None,
        owned: true,
        identity: None,
    };
    assert!(matches!(resolve(&receipt, &[unreadable]), Resolution::Unknown));
    let foreign = ProcEntry {
        name: "56".into(),
        stat: None,
        namespace: None,
        status: None,
        owned: false,
        identity: None,
    };
    assert!(matches!(resolve(&receipt, &[foreign]), Resolution::Gone));
    let no_ns = parse_json(br#"{"pid":7,"pid_namespace":null,"process_start_ticks":99}"#).unwrap();
    assert!(matches!(resolve(&no_ns, &[]), Resolution::Unknown));
}
