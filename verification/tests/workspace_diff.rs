use codex_mbtx_contract::workspace_diff::{diff_paths, snapshot_descriptor, workspace_diff, Snapshot};
use codex_mbtx_contract::to_json_text;

fn file(mode: u32, bytes: &[u8]) -> Snapshot {
    Snapshot { mode, symlink: false, bytes: bytes.to_vec() }
}

#[test]
fn union_of_manifests_is_sorted_and_unique() {
    let expected = vec!["b.txt".to_string(), "a.txt".to_string()];
    let actual = vec!["c.txt".to_string(), "a.txt".to_string()];
    assert_eq!(diff_paths(&expected, &actual), vec!["a.txt", "b.txt", "c.txt"]);
}

#[test]
fn descriptor_of_a_link_names_its_target() {
    let link = Snapshot { mode: 0o777, symlink: true, bytes: b"target".to_vec() };
    let text = to_json_text(&snapshot_descriptor(&link));
    assert!(text.contains(r#""kind":"symlink""#));
    assert!(text.contains(r#""target":"target""#));
    assert!(text.contains(r#""mode":511"#));
    let text = to_json_text(&snapshot_descriptor(&file(0o644, b"")));
    assert!(text.contains(r#""digest":"e3b0c44298fc1c149afbf4c8996fb92427ae41e4649b934ca495991b7852b855""#));
    assert!(text.contains(r#""target":null"#));
}

#[test]
fn diff_reports_each_path_and_the_flags() {
    let expected = vec!["a.txt".to_string(), "b.txt".to_string(), "new.txt".to_string(), "gone.txt".to_string()];
    let actual = vec!["a.txt".to_string(), "b.txt".to_string(), "new.txt".to_string(), "extra.txt".to_string()];
    let paths = diff_paths(&expected, &actual);
    assert_eq!(paths, vec!["a.txt", "b.txt", "extra.txt", "gone.txt", "new.txt"]);
    let before = vec![
        ("a.txt".to_string(), file(0o644, b"same")),
        ("b.txt".to_string(), file(0o644, b"old")),
        ("gone.txt".to_string(), file(0o644, b"x")),
    ];
    let after = vec![
        Some(file(0o644, b"same")),
        Some(file(0o755, b"new")),
        Some(file(0o644, b"e")),
        None,
        Some(file(0o644, b"n")),
    ];
    let text = to_json_text(&workspace_diff(&paths, &expected, &actual, &before, &after));
    assert!(text.contains(r#""path":"a.txt","status":"unchanged""#));
    assert!(text.contains(r#""path":"b.txt","status":"modified""#));
    assert!(text.contains(r#""path":"extra.txt","status":"unexpected""#));
    assert!(text.contains(r#""path":"gone.txt","status":"missing""#));
    assert!(text.contains(r#""path":"new.txt","status":"created""#));
    assert!(text.contains(r#""permissions_unchanged":false"#));
    assert!(text.contains(r#""symlinks_unchanged":true"#));
}
