use codex_mbtx_contract::m5_runner::TaskSpec;
use codex_mbtx_contract::runner_config::{agent_command, agent_environment, codex_config, task_prompt, AgentPaths};
use codex_mbtx_contract::parse_json;

#[test]
fn transparent_config_places_catalog_and_sandbox() {
    let text = codex_config("transparent", "/opt/launch", "/opt/mbtx", "gpt", "high", 8080, Some("/cat.json"), Some("/moon/cache"));
    let lines: Vec<&str> = text.lines().collect();
    assert_eq!(lines[0], r#"mbtx_command = ["/opt/launch", "/opt/mbtx"]"#);
    assert_eq!(lines[1], r#"mbtx_backend = "transparent""#);
    assert_eq!(lines[2], r#"model_catalog_json = "/cat.json""#);
    assert_eq!(lines[3], r#"model_provider = "M5Relay""#);
    assert_eq!(lines[4], r#"model = "gpt""#);
    let sandbox = lines.iter().position(|l| *l == "[sandbox_workspace_write]").unwrap();
    assert_eq!(lines[sandbox + 1], "network_access = true");
    assert_eq!(lines[sandbox + 2], r#"writable_roots = ["/moon/cache"]"#);
    assert_eq!(lines[sandbox + 3], "[model_providers.M5Relay]");
    assert!(text.contains("base_url = \"http://127.0.0.1:8080/v1\"\n"));
    assert!(text.ends_with("stream_max_retries = 1\n"));
}

#[test]
fn shell_config_has_no_backend_lines() {
    let text = codex_config("shell", "/opt/launch", "/opt/mbtx", "m\"x", "low", 1, None, None);
    assert!(!text.contains("mbtx"));
    assert!(text.starts_with("model_provider = \"M5Relay\"\nmodel = \"m\\\"x\"\n"));
    assert!(text.contains("goals = false\n[sandbox_workspace_write]\nnetwork_access = true\n[model_providers.M5Relay]\n"));
}

fn task(cohort: &str) -> TaskSpec {
    TaskSpec {
        id: "t".to_string(),
        cohort: cohort.to_string(),
        prompt: "Do it.".to_string(),
        inputs: vec![],
        expected: parse_json(b"null").unwrap(),
        expected_stdout: String::new(),
        expected_stderr: String::new(),
        expected_exit_code: 0,
        expected_manifest: vec![],
        editable: None,
        background: false,
        fixture_nonce: "n".to_string(),
        receipt_path: "r.json".to_string(),
        oracle: "exact".to_string(),
    }
}

#[test]
fn script_tasks_get_the_reference() {
    assert_eq!(task_prompt(&task("script"), Some("REF")), "Do it.\n\nReference:\nREF");
    assert_eq!(task_prompt(&task("script"), None), "Do it.");
    assert_eq!(task_prompt(&task("core"), Some("REF")), "Do it.");
}

#[test]
fn agent_environment_and_command() {
    let paths = AgentPaths {
        agent_bin: "/a/bin".to_string(),
        tool_path: String::new(),
        moon_bin: Some("/moon/bin".to_string()),
        home: "/h".to_string(),
        trace_file: "/a/t.jsonl".to_string(),
        launcher_trace: "/a/l.jsonl".to_string(),
        output_prefix: "/a/out".to_string(),
        receipt_file: "/w/r.json".to_string(),
        real_python: "/usr/bin/python3".to_string(),
        moon: None,
        moon_home: Some("/moon".to_string()),
    };
    let env = agent_environment(&paths, "t1", "n1");
    let names: Vec<&str> = env.iter().map(|(k, _)| k.as_str()).collect();
    let mut sorted = names.clone();
    sorted.sort();
    assert_eq!(names, sorted);
    assert_eq!(env.last().unwrap().1, "/a/bin:/moon/bin:/usr/local/bin:/usr/bin:/bin");
    assert!(env.contains(&("MOON_HOME".to_string(), "/moon".to_string())));
    let (program, args) = agent_command(false, "eval", "/opt/codex", &env, "/w", "go");
    assert_eq!(program, "sudo");
    assert_eq!(&args[..6], &["-n", "-u", "eval", "--", "/usr/bin/env", "-i"]);
    assert_eq!(args[6], "CODEX_HOME=/h");
    assert_eq!(args[args.len() - 10], "/opt/codex");
    assert_eq!(&args[args.len() - 3..], &["-C", "/w", "go"]);
    let (program, args) = agent_command(true, "eval", "/opt/codex", &env, "/w", "go");
    assert_eq!(program, "/opt/codex");
    assert_eq!(args.len(), 9);
    assert_eq!(args[0], "exec");
}
