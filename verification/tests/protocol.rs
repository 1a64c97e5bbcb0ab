use codex_mbtx_contract::{
    parse_json, reply, to_json_text, Arguments, Batch, JsonValue, Progress, RunArguments, Terminal,
};

fn value(text: &str) -> JsonValue {
    parse_json(text.as_bytes()).expect("test JSON")
}

fn frame(event: &str) -> String {
    format!("{event}\n")
}

fn run_arguments(source: Option<&str>, script_path: Option<&str>, args: Vec<&str>, timeout_ms: u64) -> RunArguments {
    RunArguments {
        source: source.map(str::to_owned),
        script_path: script_path.map(str::to_owned),
        args: args.into_iter().map(str::to_owned).collect(),
        cwd: None,
        background: false,
        timeout_ms,
    }
}

#[test]
fn request_preserves_literal_data_and_never_selects_an_executable() {
    let parsed = value(
        r#"{"op":"run","source":"fn main { println(42) }","args":["","--help","$(touch /tmp/no)","a b","'\"\n"],"background":true}"#,
    );
    let Some(Arguments::Run(args)) = Arguments::from_json(&parsed) else {
        panic!()
    };
    let request: serde_json::Value =
        serde_json::from_str(&args.request("call", "/workspace/a b").unwrap()).unwrap();
    let expected: serde_json::Value = serde_json::from_str(
        r#"{"op":"run","id":"call","source":"fn main { println(42) }","args":["","--help","$(touch /tmp/no)","a b","'\"\n"],"cwd":"/workspace/a b","background":false,"timeout_ms":30000}"#,
    )
    .unwrap();
    assert_eq!(request, expected);
    for invalid in [
        r#"{"op":"run","source":"x","executable":"/tmp/evil"}"#,
        r#"{"op":"run","source":"x","timeout_ms":1.5}"#,
        r#"{"op":"run","source":"x","timeout_ms":-1}"#,
        r#"{"op":"job_stop","job_id":"job","source":"x"}"#,
    ] {
        assert!(Arguments::from_json(&value(invalid)).is_none());
    }
}

#[test]
fn request_rejects_ambiguous_scripts_invalid_bounds_and_nul() {
    let long = "x".repeat(32768);
    for args in [
        run_arguments(None, None, vec![], 30000),
        run_arguments(Some(" "), None, vec![], 30000),
        run_arguments(Some("x"), Some("x.mbtx"), vec![], 30000),
        run_arguments(None, Some("x.sh"), vec![], 30000),
        run_arguments(Some("x"), None, vec!["\u{0000}"], 30000),
        run_arguments(Some("x"), None, vec![], 0),
        run_arguments(Some("x"), None, vec![], 600001),
        run_arguments(Some(&long), None, vec![], 30000),
    ] {
        assert!(args.request("call", "/work").is_err());
    }
}

#[test]
fn arbitrary_byte_splits_preserve_utf8_streams_and_terminal_status() {
    let transcript = [
        frame(r#"{"event":"started","id":"call","job_id":"job-1"}"#),
        frame(r#"{"event":"stdout","id":"call","job_id":"job-1","seq":0,"data":"\u4e2d\u6587"}"#),
        frame(r#"{"event":"stderr","id":"call","job_id":"job-1","seq":1,"data":"error\n"}"#),
        frame(r#"{"event":"completed","id":"call","job_id":"job-1","exit_code":7,"duration_ms":12}"#),
    ]
    .concat();
    for split in 0..=transcript.len() {
        let mut progress = Progress::new("call".into());
        let first = progress.ingest(&transcript.as_bytes()[..split]).unwrap();
        let second = progress.ingest(&transcript.as_bytes()[split..]).unwrap();
        progress.finish(0).unwrap();
        assert_eq!(first.stdout + &second.stdout, "\u{4e2d}\u{6587}");
        assert_eq!(first.stderr + &second.stderr, "error\n");
        assert_eq!(
            progress.terminal,
            Some(Terminal::Completed {
                exit_code: 7,
                duration_ms: 12
            })
        );
    }
}

#[test]
fn corrupt_or_incomplete_lifecycles_fail_closed() {
    for event in [
        r#"{"event":"stdout","id":"call","job_id":"job-1","seq":1,"data":"gap"}"#,
        r#"{"event":"completed","id":"other","job_id":"job-1","exit_code":0,"duration_ms":1}"#,
        r#"{"event":"started","id":"call","job_id":"job-1"}"#,
        r#"{"event":"job_output","id":"call","job_id":"job-1"}"#,
    ] {
        let mut progress = Progress::new("call".into());
        progress
            .ingest(frame(r#"{"event":"started","id":"call","job_id":"job-1"}"#).as_bytes())
            .unwrap();
        assert!(progress.ingest(frame(event).as_bytes()).is_err());
    }
    let mut progress = Progress::new("call".into());
    assert!(progress.finish(0).is_err());
    assert!(progress.ingest(b"\xff\n").is_err());
    let mut progress = Progress::new("call".into());
    assert!(progress.ingest(&vec![b'x'; 1024 * 1024 + 1]).is_err());
}

#[test]
fn output_bound_counts_json_escaping_without_breaking_json() {
    let batch = Batch {
        stdout: "\u{0000}".repeat(8192),
        stderr: String::new(),
        omitted_bytes: 0,
    };
    let value = reply(Some("mbtx-1"), None, batch);
    assert!(to_json_text(&value).len() <= 8000);
    assert!(value.get("omitted_bytes").unwrap().as_u64().unwrap() > 0);
    assert!(value.get("state").unwrap().is_text("running"));
}

#[test]
fn malformed_frames_carry_the_parser_message() {
    let mut progress = Progress::new("call".into());
    let error = progress.ingest(b"{\"event\":\n").err().unwrap();
    assert!(error.starts_with("invalid runner JSONL: "));
    assert!(error.contains("line 2 column 0") || error.contains("EOF"));
    assert_ne!(error, "invalid runner JSONL: not a runner event");
    let mut progress = Progress::new("call".into());
    let error = progress.ingest(b"{\"event\":\"unknown\"}\n").err().unwrap();
    assert_eq!(error, "invalid runner JSONL: not a runner event");
}

#[test]
fn a_reply_that_cannot_fit_is_refused() {
    let batch = Batch { stdout: "out".into(), stderr: String::new(), omitted_bytes: 0 };
    let long_id = "j".repeat(9000);
    assert!(codex_mbtx_contract::protocol::reply_checked(Some(&long_id), None, batch).is_none());
    let batch = Batch { stdout: "x".repeat(20000), stderr: String::new(), omitted_bytes: 0 };
    let value = codex_mbtx_contract::protocol::reply_checked(Some("mbtx-1"), None, batch).unwrap();
    assert!(to_json_text(&value).len() <= 8000);
    assert!(value.get("omitted_bytes").unwrap().as_u64().unwrap() > 0);
}

#[test]
fn nothing_is_accepted_after_the_terminal_event() {
    let mut progress = Progress::new("call".into());
    progress
        .ingest(
            [
                frame(r#"{"event":"started","id":"call","job_id":"job-1"}"#),
                frame(r#"{"event":"stopped","id":"call","job_id":"job-1","duration_ms":3}"#),
            ]
            .concat()
            .as_bytes(),
        )
        .unwrap();
    let after = frame(r#"{"event":"completed","id":"call","job_id":"job-1","exit_code":0,"duration_ms":4}"#);
    assert!(progress.ingest(&after.as_bytes()[..5]).is_ok());
    assert!(progress.ingest(&after.as_bytes()[5..]).is_err());
    assert_eq!(progress.terminal, Some(Terminal::Stopped { duration_ms: 3 }));
}
