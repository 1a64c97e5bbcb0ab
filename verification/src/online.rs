//! The online relay experiment's configuration: option reading and the
//! Codex configuration file it writes for each arm.
use vstd::prelude::*;
use crate::collection::{arg_views, option, spec_option};
use crate::codex_evidence::{ParsedCodex, ParsedView, combined, combined_text, mentions_any, opt_text, text_has_any, views_of};
use crate::json::{Json, JsonNumber, JsonValue, Num, str_eq};
use crate::json_object::{extend_members, member_views, object_of, push_member, spec_extend, text_value};
use crate::text::{decimal, signed_decimal, utf8_len};
use crate::protocol::strings_view;
use crate::text::{chars_of, escape_with, lemma_escape_step, owned, parse_unsigned, push_all, push_char, spec_parse_unsigned};

verus! {

/// How a TOML basic string writes one character.
pub open spec fn toml_char(c: char) -> Seq<char> {
    if c == '\\' {
        seq!['\\', '\\']
    } else if c == '"' {
        seq!['\\', '"']
    } else if c == '\n' {
        seq!['\\', 'n']
    } else if c == '\r' {
        seq!['\\', 'r']
    } else {
        seq![c]
    }
}

/// A text escaped for a TOML basic string: backslash, quote, newline and
/// carriage return are escaped.
pub open spec fn spec_toml_string(s: Seq<char>) -> Seq<char> {
    escape_with(s, |c: char| toml_char(c))
}

/// Escapes a text for a TOML basic string.
pub fn toml_string(value: &str) -> (r: String)
    ensures
        r@ == spec_toml_string(value@),
{
    let chars = chars_of(value);
    let mut out = String::new();
    let mut i: usize = 0;
    while i < chars.len()
        invariant
            i <= chars.len(),
            chars@ == value@,
            out@ == escape_with(chars@.take(i as int), |c: char| toml_char(c)),
        decreases chars.len() - i,
    {
        let c = chars[i];
        proof {
            lemma_escape_step(chars@, |c: char| toml_char(c), i as int);
        }
        let ghost before = out@;
        if c == '\\' {
            push_char(&mut out, '\\');
            push_char(&mut out, '\\');
        } else if c == '"' {
            push_char(&mut out, '\\');
            push_char(&mut out, '"');
        } else if c == '\n' {
            push_char(&mut out, '\\');
            push_char(&mut out, 'n');
        } else if c == '\r' {
            push_char(&mut out, '\\');
            push_char(&mut out, 'r');
        } else {
            push_char(&mut out, c);
        }
        assert(out@ =~= before + toml_char(c));
        i += 1;
    }
    assert(chars@.take(chars@.len() as int) =~= chars@);
    out
}

/// The lines that make the transparent launcher the arm's backend.
pub open spec fn launcher_lines(path: Seq<char>) -> Seq<char> {
    "\n# Transparent launcher is trusted configuration, outside project-local control.\nmbtx_backend = \"transparent\"\nmbtx_command = [\""@
        + spec_toml_string(path) + "\"]\n"@
}

/// The Codex configuration of one arm: the relay provider, the model, and,
/// for the transparent arm, the launcher path; nothing else.
pub open spec fn spec_config_text(model: Seq<char>, relay_base_url: Seq<char>, mbtx: Option<Seq<char>>) -> Seq<char> {
    "model_provider = \"OpenrouterICU\"\nmodel = \""@ + spec_toml_string(model)
        + "\"\nreview_model = \""@ + spec_toml_string(model)
        + "\"\nmodel_reasoning_effort = \"xhigh\"\napproval_policy = \"never\"\nsandbox_mode = \"workspace-write\"\nexperimental_use_unified_exec_tool = true"@
        + (match mbtx { Some(p) => launcher_lines(p), None => Seq::empty() })
        + "\n\n[model_providers.OpenrouterICU]\nname = \"OpenRouter ICU\"\nbase_url = \""@
        + spec_toml_string(relay_base_url)
        + "\"\nwire_api = \"responses\"\nrequires_openai_auth = true\nrequest_max_retries = 0\nstream_max_retries = 0\n\n[sandbox_workspace_write]\nnetwork_access = true\n\n[features]\ngoals = true\n"@
}

/// Writes the Codex configuration of one arm.
pub fn config_text(model: &str, relay_base_url: &str, mbtx: Option<&str>) -> (r: String)
    ensures
        r@ == spec_config_text(model@, relay_base_url@, match mbtx { Some(p) => Some(p@), None => None }),
{
    let mut out = owned("model_provider = \"OpenrouterICU\"\nmodel = \"");
    let m = toml_string(model);
    push_all(&mut out, m.as_str());
    push_all(&mut out, "\"\nreview_model = \"");
    push_all(&mut out, m.as_str());
    push_all(
        &mut out,
        "\"\nmodel_reasoning_effort = \"xhigh\"\napproval_policy = \"never\"\nsandbox_mode = \"workspace-write\"\nexperimental_use_unified_exec_tool = true",
    );
    let ghost head = out@;
    match mbtx {
        Some(path) => {
            push_all(
                &mut out,
                "\n# Transparent launcher is trusted configuration, outside project-local control.\nmbtx_backend = \"transparent\"\nmbtx_command = [\"",
            );
            let p = toml_string(path);
            push_all(&mut out, p.as_str());
            push_all(&mut out, "\"]\n");
            assert(out@ =~= head + launcher_lines(path@));
        },
        None => {
            assert(out@ =~= head + Seq::<char>::empty());
        },
    }
    push_all(&mut out, "\n\n[model_providers.OpenrouterICU]\nname = \"OpenRouter ICU\"\nbase_url = \"");
    let u = toml_string(relay_base_url);
    push_all(&mut out, u.as_str());
    push_all(
        &mut out,
        "\"\nwire_api = \"responses\"\nrequires_openai_auth = true\nrequest_max_retries = 0\nstream_max_retries = 0\n\n[sandbox_workspace_write]\nnetwork_access = true\n\n[features]\ngoals = true\n",
    );
    out
}

/// A positive numeric option: its value when it is a positive `u64`,
/// `default` otherwise.
pub open spec fn spec_parse_positive(args: Seq<Seq<char>>, name: Seq<char>, default: u64) -> u64 {
    match spec_option(args, name) {
        Some(v) => match spec_parse_unsigned(v, u64::MAX as nat) {
            Some(n) => if n > 0 { n as u64 } else { default },
            None => default,
        },
        None => default,
    }
}

/// Reads a positive numeric option, falling back to `default`.
pub fn parse_positive(args: &[String], name: &str, default: u64) -> (r: u64)
    ensures
        r == spec_parse_positive(arg_views(args@), name@, default),
{
    match option(args, name) {
        Some(v) => {
            let chars = chars_of(v.as_str());
            match parse_unsigned(chars.as_slice(), u64::MAX as u128) {
                Some(n) => if n > 0 { n as u64 } else { default },
                None => default,
            }
        },
        None => default,
    }
}

/// A required option; `None` means the caller prints the usage and stops.
pub fn required_option(args: &[String], name: &str) -> (r: Option<String>)
    ensures
        match r {
            Some(v) => spec_option(arg_views(args@), name@) == Some(v@),
            None => spec_option(arg_views(args@), name@) is None,
        },
{
    option(args, name)
}

/// Words that show the relay or the transport failed.
pub open spec fn relay_words() -> Seq<Seq<char>> {
    seq!["429"@, "502"@, "503"@, "504"@, "disconnect"@, "connection reset"@, "connection refused"@, "upstream"@, "gateway"@, "tokenadvent.com"@]
}

/// Words that show the provider refused or could not answer.
pub open spec fn provider_words() -> Seq<Seq<char>> {
    seq!["401"@, "403"@, "404"@, "invalid api key"@, "unauthorized"@, "quota"@, "model not found"@, "provider"@]
}

/// The status and failure class of an online arm whose command did not
/// report an exit code: relay words first, then provider words, then
/// unreadable output.
pub open spec fn spec_classify_online(p: ParsedView, stderr: Seq<char>) -> (Seq<char>, Seq<char>) {
    let text = combined_text(p, stderr);
    if mentions_any(text, relay_words()) {
        ("relay_error"@, "relay_or_transport"@)
    } else if mentions_any(text, provider_words()) {
        ("provider_error"@, "provider_response"@)
    } else if p.parse_errors > 0 {
        ("harness_error"@, "invalid_codex_jsonl"@)
    } else {
        ("unknown"@, "missing_command_event"@)
    }
}

/// Classifies an online arm whose command did not report an exit code.
pub fn classify_external_failure(parsed: &ParsedCodex, stderr: &str) -> (r: (String, String))
    ensures
        r.0@ == spec_classify_online(parsed@, stderr@).0,
        r.1@ == spec_classify_online(parsed@, stderr@).1,
{
    let text = combined(parsed, stderr);
    let relay = ["429", "502", "503", "504", "disconnect", "connection reset", "connection refused", "upstream", "gateway", "tokenadvent.com"];
    let provider = ["401", "403", "404", "invalid api key", "unauthorized", "quota", "model not found", "provider"];
    assert(views_of(relay@) =~= relay_words());
    assert(views_of(provider@) =~= provider_words());
    if text_has_any(text.as_str(), &relay) {
        (owned("relay_error"), owned("relay_or_transport"))
    } else if text_has_any(text.as_str(), &provider) {
        (owned("provider_error"), owned("provider_response"))
    } else if parsed.parse_errors > 0 {
        (owned("harness_error"), owned("invalid_codex_jsonl"))
    } else {
        (owned("unknown"), owned("missing_command_event"))
    }
}

/// What an online arm's task expects of its command.
pub struct TaskOracle<'a> {
    pub expected_exit: i32,
    pub marker: &'a str,
    pub forbidden_path_exists: bool,
}

/// The status and failure class of an online arm: a failed spawn, then a
/// timeout, then a missing command result (classified from Codex's
/// messages), then the command's exit code, a forbidden side effect and the
/// expected output marker.
pub open spec fn spec_online_outcome(spawn_failed: bool, timed_out: bool, p: ParsedView, stderr: Seq<char>, expected_exit: i32, forbidden_path_exists: bool, marker: Seq<char>) -> (Seq<char>, Option<Seq<char>>) {
    if spawn_failed {
        ("harness_error"@, Some("codex_spawn"@))
    } else if timed_out {
        ("timeout"@, Some("codex_timeout"@))
    } else if p.command_exit_code is None {
        (spec_classify_online(p, stderr).0, Some(spec_classify_online(p, stderr).1))
    } else if p.command_exit_code != Some(expected_exit) {
        ("backend_failure"@, Some("command_exit_mismatch"@))
    } else if forbidden_path_exists {
        ("backend_failure"@, Some("unexpected_side_effect"@))
    } else if marker.len() > 0 && !crate::text::spec_contains(p.aggregated_output, marker) {
        ("backend_failure"@, Some("command_output_mismatch"@))
    } else {
        ("success"@, None)
    }
}

/// Decides an online arm's status and failure class.
pub fn online_outcome(spawn_failed: bool, timed_out: bool, parsed: &ParsedCodex, stderr: &str, task: &TaskOracle) -> (r: (String, Option<String>))
    ensures
        r.0@ == spec_online_outcome(spawn_failed, timed_out, parsed@, stderr@, task.expected_exit, task.forbidden_path_exists, task.marker@).0,
        crate::codex_evidence::opt_text(r.1) == spec_online_outcome(spawn_failed, timed_out, parsed@, stderr@, task.expected_exit, task.forbidden_path_exists, task.marker@).1,
{
    if spawn_failed {
        (owned("harness_error"), Some(owned("codex_spawn")))
    } else if timed_out {
        (owned("timeout"), Some(owned("codex_timeout")))
    } else if parsed.command_exit_code.is_none() {
        let (status, class) = classify_external_failure(parsed, stderr);
        (status, Some(class))
    } else if parsed.command_exit_code != Some(task.expected_exit) {
        (owned("backend_failure"), Some(owned("command_exit_mismatch")))
    } else if task.forbidden_path_exists {
        (owned("backend_failure"), Some(owned("unexpected_side_effect")))
    } else if chars_of(task.marker).len() > 0 && !crate::text::contains_str(parsed.aggregated_output.as_str(), task.marker) {
        (owned("backend_failure"), Some(owned("command_output_mismatch")))
    } else {
        (owned("success"), None)
    }
}

/// One scenario of the online experiment: the exact shell command Codex is
/// asked to run, and what its run must show.
#[derive(Clone, Copy)]
pub struct OnlineTask {
    pub id: &'static str,
    pub command: &'static str,
    pub expected_exit: i32,
    pub marker: &'static str,
    pub timeout_ms: u64,
    pub forbidden_path: Option<&'static str>,
}

/// The default deadline of an online arm, in milliseconds.
pub const DEFAULT_TIMEOUT_MS: u64 = 300000;

/// The identifiers of the online scenarios, in order.
pub open spec fn online_task_ids() -> Seq<Seq<char>> {
    seq!["literal_argv"@, "stdin_utf8"@, "cwd_environment"@, "large_output"@, "nonzero_exit"@, "background_cleanup"@, "signal_exit"@, "repeated_recovery"@]
}

/// The eight online scenarios. Each expects exit code zero except
/// `nonzero_exit` (7) and `signal_exit` (143, with a 250 ms deadline); only
/// `literal_argv` names a path that must not appear.
pub fn online_tasks() -> (r: Vec<OnlineTask>)
    ensures
        r@.len() == 8,
        forall|i: int| 0 <= i < 8 ==> (#[trigger] r@[i]).id@ == online_task_ids()[i],
        forall|i: int| 0 <= i < 8 ==> (#[trigger] r@[i]).expected_exit == (if i == 4 { 7i32 } else if i == 6 { 143i32 } else { 0i32 }),
        forall|i: int| 0 <= i < 8 ==> (#[trigger] r@[i]).timeout_ms == (if i == 6 { 250u64 } else { DEFAULT_TIMEOUT_MS }),
        forall|i: int| 0 <= i < 8 ==> ((#[trigger] r@[i]).forbidden_path is Some <==> i == 0),
{
    let mut v: Vec<OnlineTask> = Vec::new();
    v.push(OnlineTask {
        id: "literal_argv",
        command: "python3 -c 'import sys; print(repr(sys.argv[1:]))' 'alpha beta' 'quote\"double' 'dollar$' '$(touch SHOULD_NOT_EXIST)'",
        expected_exit: 0,
        marker: "SHOULD_NOT_EXIST",
        timeout_ms: DEFAULT_TIMEOUT_MS,
        forbidden_path: Some("SHOULD_NOT_EXIST"),
    });
    v.push(OnlineTask {
        id: "stdin_utf8",
        command: "printf '\u{7b2c}\u{4e00}\u{884c}\\n\\n\u{6700}\u{540e}\u{4e00}\u{884c}\\n' | python3 -c 'import sys; print(sys.stdin.read(), end=\"\")'",
        expected_exit: 0,
        marker: "\u{6700}\u{540e}\u{4e00}\u{884c}",
        timeout_ms: DEFAULT_TIMEOUT_MS,
        forbidden_path: None,
    });
    v.push(OnlineTask {
        id: "cwd_environment",
        command: "printf '%s|%s\\n' \"$PWD\" \"$MBTX_EVAL_TOKEN\"",
        expected_exit: 0,
        marker: "online-fixture",
        timeout_ms: DEFAULT_TIMEOUT_MS,
        forbidden_path: None,
    });
    v.push(OnlineTask {
        id: "large_output",
        command: "python3 -c 'import sys; sys.stdout.write(\"x\"*65536); sys.stderr.write(\"e\"*4096)'",
        expected_exit: 0,
        marker: "xxxxxxxx",
        timeout_ms: DEFAULT_TIMEOUT_MS,
        forbidden_path: None,
    });
    v.push(OnlineTask {
        id: "nonzero_exit",
        command: "python3 -c 'import sys; print(\"expected failure\", file=sys.stderr); sys.exit(7)'",
        expected_exit: 7,
        marker: "expected failure",
        timeout_ms: DEFAULT_TIMEOUT_MS,
        forbidden_path: None,
    });
    v.push(OnlineTask {
        id: "background_cleanup",
        command: "python3 -c 'import subprocess; p=subprocess.Popen([\"sh\",\"-c\",\"sleep 0.1\"]); print(\"child-started\", flush=True); p.wait(); print(\"child-clean\")'",
        expected_exit: 0,
        marker: "child-clean",
        timeout_ms: DEFAULT_TIMEOUT_MS,
        forbidden_path: None,
    });
    v.push(OnlineTask {
        id: "signal_exit",
        command: "python3 -c 'import subprocess,time; subprocess.Popen([\"sh\",\"-c\",\"trap \\\"\\\" TERM; sleep 10\"]); print(\"term-start\", flush=True); time.sleep(10)'",
        expected_exit: 143,
        marker: "term-start",
        timeout_ms: 250,
        forbidden_path: None,
    });
    v.push(OnlineTask {
        id: "repeated_recovery",
        command: "python3 -c 'print(\"recovery-ok\")'",
        expected_exit: 0,
        marker: "recovery-ok",
        timeout_ms: DEFAULT_TIMEOUT_MS,
        forbidden_path: None,
    });
    v
}

/// The identifier of an online arm: `attempt-<pair, two digits>-<task>-<backend>`.
pub open spec fn spec_online_attempt_id(pair_index: usize, task_id: Seq<char>, backend: Seq<char>) -> Seq<char> {
    "attempt-"@ + crate::collection::two_digits(pair_index as nat) + "-"@ + task_id + "-"@ + backend
}

/// Names an online arm.
pub fn online_attempt_id(pair_index: usize, task_id: &str, backend: &str) -> (r: String)
    ensures
        r@ == spec_online_attempt_id(pair_index, task_id@, backend@),
{
    let mut out = owned("attempt-");
    if pair_index < 10 {
        push_char(&mut out, '0');
    }
    crate::text::push_decimal(&mut out, pair_index as u64);
    push_all(&mut out, "-");
    push_all(&mut out, task_id);
    push_all(&mut out, "-");
    push_all(&mut out, backend);
    proof {
        reveal_strlit("attempt-");
    }
    assert(out@ =~= spec_online_attempt_id(pair_index, task_id@, backend@));
    out
}

/// The prompt of an online arm: run the scenario's command once, verbatim.
pub open spec fn spec_online_prompt(command: Seq<char>) -> Seq<char> {
    "Use the exec_command tool exactly once. Set its cmd field to this exact shell command, preserving every character. Do not rewrite it, split it, or call any other tool. Wait for the command to finish, then reply exactly DONE.\n\n"@ + command
}

/// Writes the prompt of an online arm.
pub fn online_prompt(command: &str) -> (r: String)
    ensures
        r@ == spec_online_prompt(command@),
{
    let mut out = owned("Use the exec_command tool exactly once. Set its cmd field to this exact shell command, preserving every character. Do not rewrite it, split it, or call any other tool. Wait for the command to finish, then reply exactly DONE.\n\n");
    push_all(&mut out, command);
    out
}

/// The arguments Codex is started with for an online arm.
pub open spec fn spec_online_arguments(workspace: Seq<char>, model: Seq<char>, prompt: Seq<char>) -> Seq<Seq<char>> {
    seq!["exec"@, "--json"@, "--strict-config"@, "--ephemeral"@, "--ignore-rules"@, "--skip-git-repo-check"@, "--cd"@, workspace, "--sandbox"@, "workspace-write"@, "--model"@, model, prompt]
}

/// Lists the arguments Codex is started with for an online arm.
pub fn online_arguments(workspace: &str, model: &str, prompt: &str) -> (r: Vec<String>)
    ensures
        arg_views(r@) == spec_online_arguments(workspace@, model@, prompt@),
{
    let mut v: Vec<String> = Vec::new();
    v.push(owned("exec"));
    v.push(owned("--json"));
    v.push(owned("--strict-config"));
    v.push(owned("--ephemeral"));
    v.push(owned("--ignore-rules"));
    v.push(owned("--skip-git-repo-check"));
    v.push(owned("--cd"));
    v.push(owned(workspace));
    v.push(owned("--sandbox"));
    v.push(owned("workspace-write"));
    v.push(owned("--model"));
    v.push(owned(model));
    v.push(owned(prompt));
    assert(arg_views(v@) =~= spec_online_arguments(workspace@, model@, prompt@));
    v
}

/// The note that records how an arm launched its command.
pub open spec fn spec_launcher_note(backend: Seq<char>, mbtx: Seq<char>) -> Seq<char> {
    if backend == "transparent"@ {
        mbtx + " exec -- <Codex resolved command>\n"@
    } else {
        "Codex default shell launcher\n"@
    }
}

/// Writes the launcher note of an arm.
pub fn launcher_note(backend: &str, mbtx: &str) -> (r: String)
    ensures
        r@ == spec_launcher_note(backend@, mbtx@),
{
    if crate::json::str_eq(backend, "transparent") {
        let mut out = owned(mbtx);
        push_all(&mut out, " exec -- <Codex resolved command>\n");
        out
    } else {
        owned("Codex default shell launcher\n")
    }
}

/// An arm's deadline: the run's, or the scenario's where that is shorter.
pub fn task_deadline_ms(run_timeout_ms: u64, task_timeout_ms: u64) -> (r: u64)
    ensures
        r == (if run_timeout_ms < task_timeout_ms { run_timeout_ms } else { task_timeout_ms }),
{
    if run_timeout_ms < task_timeout_ms { run_timeout_ms } else { task_timeout_ms }
}

// ---------------------------------------------------------------------------
// The rows and metadata of one online arm
// ---------------------------------------------------------------------------

/// The experiment every online row and metadata file names.
pub open spec fn online_experiment() -> Seq<char> {
    "codex-relay-online-v1"@
}

/// What one online arm was asked and what its run gave, as its rows and
/// metadata report it. Counts are in bytes; `status` and `failure_class`
/// are the arm's outcome (see [`online_outcome`]).
pub struct AttemptFacts {
    pub pair_id: String,
    pub attempt_id: String,
    pub task_id: String,
    pub backend: String,
    pub command: String,
    pub expected_exit: i32,
    pub marker: String,
    pub forbidden_path: Option<String>,
    pub forbidden_path_exists: bool,
    pub timeout_ms: u64,
    pub model: String,
    pub codex_home: String,
    pub workspace: String,
    pub artifact_dir: String,
    pub codex_exit_code: Option<i32>,
    pub codex_signal: Option<i32>,
    pub stdout_bytes: u64,
    pub stderr_bytes: u64,
    pub elapsed_ms: u64,
    pub status: String,
    pub failure_class: Option<String>,
}

/// The observer clock, in nanoseconds, when each row after the run was
/// made.
pub struct FinishClock {
    pub exit: u64,
    pub reap: u64,
    pub drain: u64,
    pub child: u64,
    pub relay: u64,
}

/// An optional integer as JSON.
pub open spec fn opt_int_json(n: Option<i32>) -> Json {
    match n {
        Some(v) => crate::evidence::int_number(v),
        None => Json::Null,
    }
}

/// An optional text as JSON.
pub open spec fn opt_text_json(s: Option<Seq<char>>) -> Json {
    match s {
        Some(t) => Json::Str(t),
        None => Json::Null,
    }
}

/// A count as JSON.
pub open spec fn count_json(n: u64) -> Json {
    Json::Number(Num::PosInt(n))
}

/// The members every online row starts with.
pub open spec fn spec_online_base(f: AttemptFacts, phase: Seq<char>, event: Seq<char>, ns: u64) -> Seq<(Seq<char>, Json)> {
    seq![
        ("attempt_id"@, Json::Str(f.attempt_id@)),
        ("backend"@, Json::Str(f.backend@)),
        ("clock_domain"@, Json::Str("observer-monotonic"@)),
        ("event"@, Json::Str(event)),
        ("exit_code"@, Json::Null),
        ("experiment_id"@, Json::Str(online_experiment())),
        ("failure_class"@, Json::Null),
        ("monotonic_ns"@, count_json(ns)),
        ("pair_id"@, Json::Str(f.pair_id@)),
        ("parent_id"@, Json::Null),
        ("phase"@, Json::Str(phase)),
        ("schema_version"@, count_json(1)),
        ("signal"@, Json::Null),
        ("status"@, Json::Str("unknown"@)),
        ("stderr_bytes"@, Json::Null),
        ("stdout_bytes"@, Json::Null),
        ("task_id"@, Json::Str(f.task_id@)),
    ]
}

/// An online row: the base members with `updates` set in turn.
pub open spec fn spec_online_row(f: AttemptFacts, phase: Seq<char>, event: Seq<char>, ns: u64, updates: Seq<(Seq<char>, Json)>) -> Json {
    Json::Object(spec_extend(spec_online_base(f, phase, event, ns), updates))
}

/// The row written when Codex is started.
pub open spec fn spec_start_row(f: AttemptFacts, ns: u64) -> Json {
    spec_online_row(f, "codex"@, "start"@, ns, seq![
        ("artifact_dir"@, Json::Str(f.artifact_dir@)),
        ("command"@, Json::Str(f.command@)),
    ])
}

/// The outcome members of the rows after the run.
pub open spec fn outcome_members(f: AttemptFacts) -> Seq<(Seq<char>, Json)> {
    seq![
        ("status"@, Json::Str(f.status@)),
        ("failure_class"@, opt_text_json(opt_text(f.failure_class))),
        ("artifact_dir"@, Json::Str(f.artifact_dir@)),
    ]
}

/// The row of Codex's exit.
pub open spec fn spec_exit_row(f: AttemptFacts, p: ParsedView, ns: u64) -> Json {
    spec_online_row(f, "codex"@, "exit"@, ns, seq![
        ("exit_code"@, opt_int_json(f.codex_exit_code)),
        ("signal"@, opt_int_json(f.codex_signal)),
        ("stdout_bytes"@, count_json(f.stdout_bytes)),
        ("stderr_bytes"@, count_json(f.stderr_bytes)),
    ] + outcome_members(f) + seq![
        ("elapsed_ms"@, count_json(f.elapsed_ms)),
        ("command"@, opt_text_json(p.command)),
        ("command_exit_code"@, opt_int_json(p.command_exit_code)),
        ("command_status"@, opt_text_json(p.command_status)),
        ("aggregated_output_bytes"@, Json::Number(Num::PosInt(utf8_len(p.aggregated_output) as u64))),
    ])
}

/// The row of Codex's reaping.
pub open spec fn spec_reap_row(f: AttemptFacts, ns: u64) -> Json {
    spec_online_row(f, "codex"@, "reap"@, ns, seq![
        ("exit_code"@, opt_int_json(f.codex_exit_code)),
        ("signal"@, opt_int_json(f.codex_signal)),
    ] + outcome_members(f))
}

/// The row of Codex's drained output.
pub open spec fn spec_drain_row(f: AttemptFacts, ns: u64) -> Json {
    spec_online_row(f, "io"@, "drain"@, ns, seq![
        ("stdout_bytes"@, count_json(f.stdout_bytes)),
        ("stderr_bytes"@, count_json(f.stderr_bytes)),
    ] + outcome_members(f))
}

/// The row of the shell command's exit, as Codex reported it.
pub open spec fn spec_child_row(f: AttemptFacts, p: ParsedView, ns: u64) -> Json {
    spec_online_row(f, "child"@, "exit"@, ns, seq![
        ("exit_code"@, opt_int_json(p.command_exit_code)),
        ("stdout_bytes"@, Json::Number(Num::PosInt(utf8_len(p.aggregated_output) as u64))),
    ] + outcome_members(f) + seq![
        ("command"@, opt_text_json(p.command)),
        ("aggregated_output_bytes"@, Json::Number(Num::PosInt(utf8_len(p.aggregated_output) as u64))),
    ])
}

/// The row of a relay or provider error.
pub open spec fn spec_relay_row(f: AttemptFacts, p: ParsedView, ns: u64) -> Json {
    spec_online_row(f, "relay"@, "error"@, ns, outcome_members(f) + seq![
        ("error_messages"@, Json::Array(p.messages.map_values(|m: Seq<char>| Json::Str(m)))),
    ])
}

/// The rows written after the run: Codex's exit, reaping and drained
/// output; the command's exit where Codex reported a command; and the
/// relay error where the arm ended in one.
pub open spec fn spec_finish_rows(f: AttemptFacts, p: ParsedView, t: FinishClock) -> Seq<Json> {
    seq![spec_exit_row(f, p, t.exit), spec_reap_row(f, t.reap), spec_drain_row(f, t.drain)]
        + (if p.command is Some { seq![spec_child_row(f, p, t.child)] } else { Seq::empty() })
        + (if f.status@ == "relay_error"@ || f.status@ == "provider_error"@ { seq![spec_relay_row(f, p, t.relay)] } else { Seq::empty() })
}

/// The metadata file of an online arm.
pub open spec fn spec_attempt_metadata(f: AttemptFacts, p: ParsedView) -> Json {
    Json::Object(seq![
        ("aggregated_output"@, Json::Str(p.aggregated_output)),
        ("artifact_dir"@, Json::Str(f.artifact_dir@)),
        ("attempt_id"@, Json::Str(f.attempt_id@)),
        ("backend"@, Json::Str(f.backend@)),
        ("codex_exit_code"@, opt_int_json(f.codex_exit_code)),
        ("codex_home"@, Json::Str(f.codex_home@)),
        ("codex_signal"@, opt_int_json(f.codex_signal)),
        ("command"@, opt_text_json(p.command)),
        ("command_exit_code"@, opt_int_json(p.command_exit_code)),
        ("command_status"@, opt_text_json(p.command_status)),
        ("elapsed_ms"@, count_json(f.elapsed_ms)),
        ("experiment_id"@, Json::Str(online_experiment())),
        ("expected_command_exit"@, crate::evidence::int_number(f.expected_exit)),
        ("expected_marker"@, Json::Str(f.marker@)),
        ("failure_class"@, opt_text_json(opt_text(f.failure_class))),
        ("forbidden_path"@, opt_text_json(opt_text(f.forbidden_path))),
        ("forbidden_path_exists"@, Json::Bool(f.forbidden_path_exists)),
        ("json_lines"@, Json::Number(Num::PosInt(p.json_lines as u64))),
        ("model"@, Json::Str(f.model@)),
        ("pair_id"@, Json::Str(f.pair_id@)),
        ("parse_errors"@, Json::Number(Num::PosInt(p.parse_errors as u64))),
        ("status"@, Json::Str(f.status@)),
        ("task_id"@, Json::Str(f.task_id@)),
        ("timeout_ms"@, count_json(f.timeout_ms)),
        ("workspace"@, Json::Str(f.workspace@)),
    ])
}

fn opt_int_value(n: Option<i32>) -> (r: JsonValue)
    ensures
        r@ == opt_int_json(n),
{
    match n {
        Some(v) => if v >= 0 { JsonValue::Number(JsonNumber::PosInt(v as u64)) } else { JsonValue::Number(JsonNumber::NegInt(v as i64)) },
        None => JsonValue::Null,
    }
}

fn opt_text_value(s: &Option<String>) -> (r: JsonValue)
    ensures
        r@ == opt_text_json(opt_text(*s)),
{
    match s {
        Some(t) => text_value(t.as_str()),
        None => JsonValue::Null,
    }
}

fn count_value(n: u64) -> (r: JsonValue)
    ensures
        r@ == count_json(n),
{
    JsonValue::Number(JsonNumber::PosInt(n))
}

fn byte_count_value(s: &String) -> (r: JsonValue)
    ensures
        r@ == Json::Number(Num::PosInt(utf8_len(s@) as u64)),
{
    JsonValue::Number(JsonNumber::PosInt(crate::text::byte_len(s.as_str()) as u64))
}

fn online_base(f: &AttemptFacts, phase: &str, event: &str, ns: u64) -> (m: Vec<(String, JsonValue)>)
    ensures
        member_views(m@) == spec_online_base(*f, phase@, event@, ns),
{
    let mut m: Vec<(String, JsonValue)> = Vec::new();
    push_member(&mut m, "attempt_id", text_value(f.attempt_id.as_str()));
    push_member(&mut m, "backend", text_value(f.backend.as_str()));
    push_member(&mut m, "clock_domain", text_value("observer-monotonic"));
    push_member(&mut m, "event", text_value(event));
    push_member(&mut m, "exit_code", JsonValue::Null);
    push_member(&mut m, "experiment_id", text_value("codex-relay-online-v1"));
    push_member(&mut m, "failure_class", JsonValue::Null);
    push_member(&mut m, "monotonic_ns", count_value(ns));
    push_member(&mut m, "pair_id", text_value(f.pair_id.as_str()));
    push_member(&mut m, "parent_id", JsonValue::Null);
    push_member(&mut m, "phase", text_value(phase));
    push_member(&mut m, "schema_version", count_value(1));
    push_member(&mut m, "signal", JsonValue::Null);
    push_member(&mut m, "status", text_value("unknown"));
    push_member(&mut m, "stderr_bytes", JsonValue::Null);
    push_member(&mut m, "stdout_bytes", JsonValue::Null);
    push_member(&mut m, "task_id", text_value(f.task_id.as_str()));
    assert(member_views(m@) =~= spec_online_base(*f, phase@, event@, ns));
    m
}

fn online_row(f: &AttemptFacts, phase: &str, event: &str, ns: u64, updates: &Vec<(String, JsonValue)>) -> (r: JsonValue)
    ensures
        r@ == spec_online_row(*f, phase@, event@, ns, member_views(updates@)),
{
    let mut m = online_base(f, phase, event, ns);
    extend_members(&mut m, updates);
    object_of(m)
}

fn push_outcome(m: &mut Vec<(String, JsonValue)>, f: &AttemptFacts)
    ensures
        member_views(final(m)@) == member_views(old(m)@) + outcome_members(*f),
{
    let ghost before = member_views(m@);
    push_member(m, "status", text_value(f.status.as_str()));
    push_member(m, "failure_class", opt_text_value(&f.failure_class));
    push_member(m, "artifact_dir", text_value(f.artifact_dir.as_str()));
    assert(member_views(m@) =~= before + outcome_members(*f));
}

/// The row written when Codex is started, at observer time `ns`.
pub fn start_row(f: &AttemptFacts, ns: u64) -> (r: JsonValue)
    ensures
        r@ == spec_start_row(*f, ns),
{
    let mut u: Vec<(String, JsonValue)> = Vec::new();
    push_member(&mut u, "artifact_dir", text_value(f.artifact_dir.as_str()));
    push_member(&mut u, "command", text_value(f.command.as_str()));
    assert(member_views(u@) =~= seq![("artifact_dir"@, Json::Str(f.artifact_dir@)), ("command"@, Json::Str(f.command@))]);
    online_row(f, "codex", "start", ns, &u)
}

/// The rows written after the run (see [`spec_finish_rows`]), made at the
/// observer times in `t`.
pub fn finish_rows(f: &AttemptFacts, parsed: &ParsedCodex, t: &FinishClock) -> (rows: Vec<JsonValue>)
    ensures
        crate::evidence::value_views(rows@) == spec_finish_rows(*f, parsed@, *t),
{
    let ghost p = parsed@;
    let mut rows: Vec<JsonValue> = Vec::new();

    let mut u: Vec<(String, JsonValue)> = Vec::new();
    push_member(&mut u, "exit_code", opt_int_value(f.codex_exit_code));
    push_member(&mut u, "signal", opt_int_value(f.codex_signal));
    push_member(&mut u, "stdout_bytes", count_value(f.stdout_bytes));
    push_member(&mut u, "stderr_bytes", count_value(f.stderr_bytes));
    push_outcome(&mut u, f);
    push_member(&mut u, "elapsed_ms", count_value(f.elapsed_ms));
    push_member(&mut u, "command", opt_text_value(&parsed.command));
    push_member(&mut u, "command_exit_code", opt_int_value(parsed.command_exit_code));
    push_member(&mut u, "command_status", opt_text_value(&parsed.command_status));
    push_member(&mut u, "aggregated_output_bytes", byte_count_value(&parsed.aggregated_output));
    let exit = online_row(f, "codex", "exit", t.exit, &u);
    assert(exit@ == spec_exit_row(*f, p, t.exit)) by {
        assert(member_views(u@) =~= seq![
            ("exit_code"@, opt_int_json(f.codex_exit_code)),
            ("signal"@, opt_int_json(f.codex_signal)),
            ("stdout_bytes"@, count_json(f.stdout_bytes)),
            ("stderr_bytes"@, count_json(f.stderr_bytes)),
        ] + outcome_members(*f) + seq![
            ("elapsed_ms"@, count_json(f.elapsed_ms)),
            ("command"@, opt_text_json(p.command)),
            ("command_exit_code"@, opt_int_json(p.command_exit_code)),
            ("command_status"@, opt_text_json(p.command_status)),
            ("aggregated_output_bytes"@, Json::Number(Num::PosInt(utf8_len(p.aggregated_output) as u64))),
        ]);
    }
    rows.push(exit);

    let mut u: Vec<(String, JsonValue)> = Vec::new();
    push_member(&mut u, "exit_code", opt_int_value(f.codex_exit_code));
    push_member(&mut u, "signal", opt_int_value(f.codex_signal));
    push_outcome(&mut u, f);
    let reap = online_row(f, "codex", "reap", t.reap, &u);
    assert(reap@ == spec_reap_row(*f, t.reap)) by {
        assert(member_views(u@) =~= seq![
            ("exit_code"@, opt_int_json(f.codex_exit_code)),
            ("signal"@, opt_int_json(f.codex_signal)),
        ] + outcome_members(*f));
    }
    rows.push(reap);

    let mut u: Vec<(String, JsonValue)> = Vec::new();
    push_member(&mut u, "stdout_bytes", count_value(f.stdout_bytes));
    push_member(&mut u, "stderr_bytes", count_value(f.stderr_bytes));
    push_outcome(&mut u, f);
    let drain = online_row(f, "io", "drain", t.drain, &u);
    assert(drain@ == spec_drain_row(*f, t.drain)) by {
        assert(member_views(u@) =~= seq![
            ("stdout_bytes"@, count_json(f.stdout_bytes)),
            ("stderr_bytes"@, count_json(f.stderr_bytes)),
        ] + outcome_members(*f));
    }
    rows.push(drain);
    let ghost three = seq![spec_exit_row(*f, p, t.exit), spec_reap_row(*f, t.reap), spec_drain_row(*f, t.drain)];
    assert(crate::evidence::value_views(rows@) =~= three);

    if parsed.command.is_some() {
        let mut u: Vec<(String, JsonValue)> = Vec::new();
        push_member(&mut u, "exit_code", opt_int_value(parsed.command_exit_code));
        push_member(&mut u, "stdout_bytes", byte_count_value(&parsed.aggregated_output));
        push_outcome(&mut u, f);
        push_member(&mut u, "command", opt_text_value(&parsed.command));
        push_member(&mut u, "aggregated_output_bytes", byte_count_value(&parsed.aggregated_output));
        let child = online_row(f, "child", "exit", t.child, &u);
        assert(child@ == spec_child_row(*f, p, t.child)) by {
            assert(member_views(u@) =~= seq![
                ("exit_code"@, opt_int_json(p.command_exit_code)),
                ("stdout_bytes"@, Json::Number(Num::PosInt(utf8_len(p.aggregated_output) as u64))),
            ] + outcome_members(*f) + seq![
                ("command"@, opt_text_json(p.command)),
                ("aggregated_output_bytes"@, Json::Number(Num::PosInt(utf8_len(p.aggregated_output) as u64))),
            ]);
        }
        rows.push(child);
    }
    let ghost four = three + (if p.command is Some { seq![spec_child_row(*f, p, t.child)] } else { Seq::empty() });
    assert(crate::evidence::value_views(rows@) =~= four);

    if str_eq(f.status.as_str(), "relay_error") || str_eq(f.status.as_str(), "provider_error") {
        let mut u: Vec<(String, JsonValue)> = Vec::new();
        push_outcome(&mut u, f);
        let mut messages: Vec<JsonValue> = Vec::new();
        let mut i: usize = 0;
        while i < parsed.messages.len()
            invariant
                i <= parsed.messages.len(),
                p == parsed@,
                crate::evidence::value_views(messages@) == p.messages.take(i as int).map_values(|m: Seq<char>| Json::Str(m)),
            decreases parsed.messages.len() - i,
        {
            let ghost before = crate::evidence::value_views(messages@);
            messages.push(text_value(parsed.messages[i].as_str()));
            assert(p.messages[i as int] == parsed.messages@[i as int]@);
            assert(crate::evidence::value_views(messages@) =~= before.push(Json::Str(p.messages[i as int])));
            assert(p.messages.take(i + 1).map_values(|m: Seq<char>| Json::Str(m))
                =~= p.messages.take(i as int).map_values(|m: Seq<char>| Json::Str(m)).push(Json::Str(p.messages[i as int])));
            i += 1;
        }
        assert(p.messages.take(i as int) =~= p.messages);
        let ghost before = member_views(u@);
        push_member(&mut u, "error_messages", crate::evidence::array_of(messages));
        let relay = online_row(f, "relay", "error", t.relay, &u);
        assert(relay@ == spec_relay_row(*f, p, t.relay)) by {
            assert(member_views(u@) =~= outcome_members(*f) + seq![
                ("error_messages"@, Json::Array(p.messages.map_values(|m: Seq<char>| Json::Str(m)))),
            ]);
        }
        rows.push(relay);
    }
    assert(crate::evidence::value_views(rows@) =~= spec_finish_rows(*f, p, *t));
    rows
}

/// The metadata file of an online arm (see [`spec_attempt_metadata`]).
pub fn attempt_metadata(f: &AttemptFacts, parsed: &ParsedCodex) -> (r: JsonValue)
    ensures
        r@ == spec_attempt_metadata(*f, parsed@),
{
    let mut m: Vec<(String, JsonValue)> = Vec::new();
    push_member(&mut m, "aggregated_output", text_value(parsed.aggregated_output.as_str()));
    push_member(&mut m, "artifact_dir", text_value(f.artifact_dir.as_str()));
    push_member(&mut m, "attempt_id", text_value(f.attempt_id.as_str()));
    push_member(&mut m, "backend", text_value(f.backend.as_str()));
    push_member(&mut m, "codex_exit_code", opt_int_value(f.codex_exit_code));
    push_member(&mut m, "codex_home", text_value(f.codex_home.as_str()));
    push_member(&mut m, "codex_signal", opt_int_value(f.codex_signal));
    push_member(&mut m, "command", opt_text_value(&parsed.command));
    push_member(&mut m, "command_exit_code", opt_int_value(parsed.command_exit_code));
    push_member(&mut m, "command_status", opt_text_value(&parsed.command_status));
    push_member(&mut m, "elapsed_ms", count_value(f.elapsed_ms));
    push_member(&mut m, "experiment_id", text_value("codex-relay-online-v1"));
    push_member(&mut m, "expected_command_exit", opt_int_value(Some(f.expected_exit)));
    push_member(&mut m, "expected_marker", text_value(f.marker.as_str()));
    push_member(&mut m, "failure_class", opt_text_value(&f.failure_class));
    push_member(&mut m, "forbidden_path", opt_text_value(&f.forbidden_path));
    push_member(&mut m, "forbidden_path_exists", JsonValue::Bool(f.forbidden_path_exists));
    push_member(&mut m, "json_lines", count_value(parsed.json_lines as u64));
    push_member(&mut m, "model", text_value(f.model.as_str()));
    push_member(&mut m, "pair_id", text_value(f.pair_id.as_str()));
    push_member(&mut m, "parse_errors", count_value(parsed.parse_errors as u64));
    push_member(&mut m, "status", text_value(f.status.as_str()));
    push_member(&mut m, "task_id", text_value(f.task_id.as_str()));
    push_member(&mut m, "timeout_ms", count_value(f.timeout_ms));
    push_member(&mut m, "workspace", text_value(f.workspace.as_str()));
    assert(member_views(m@) =~= match spec_attempt_metadata(*f, parsed@) { Json::Object(ms) => ms, _ => Seq::empty() });
    object_of(m)
}

// ---------------------------------------------------------------------------
// When the online collection stops, and what it reports
// ---------------------------------------------------------------------------

/// An arm that failed for a reason outside the backends, timeouts included.
pub open spec fn online_infrastructure(status: Seq<char>) -> bool {
    status == "relay_error"@ || status == "provider_error"@ || status == "harness_error"@ || status == "timeout"@
}

/// An arm that failed in the relay, the provider or the harness.
pub open spec fn online_external(status: Seq<char>) -> bool {
    status == "relay_error"@ || status == "provider_error"@ || status == "harness_error"@
}

/// How many of the statuses are external failures.
pub open spec fn count_external(statuses: Seq<Seq<char>>) -> nat
    decreases statuses.len(),
{
    if statuses.len() == 0 {
        0
    } else {
        count_external(statuses.drop_last()) + if online_external(statuses.last()) { 1nat } else { 0nat }
    }
}

/// What the online collection remembers of its latest arms: how many
/// infrastructure failures came in a row, and the latest sixteen statuses.
pub struct OnlineWatch {
    pub consecutive: usize,
    pub recent: Vec<String>,
}

/// The latest statuses after one more arm: at most sixteen are kept.
pub open spec fn spec_recent(recent: Seq<Seq<char>>, status: Seq<char>) -> Seq<Seq<char>> {
    let pushed = recent.push(status);
    if pushed.len() > 16 { pushed.drop_first() } else { pushed }
}

/// The watch after an arm with `status`, and why the collection stops
/// there, if it does: five infrastructure failures in a row, or external
/// failures in at least half of a full window of sixteen arms.
pub open spec fn spec_watch_step(consecutive: nat, recent: Seq<Seq<char>>, status: Seq<char>) -> (nat, Seq<Seq<char>>, Option<Seq<char>>) {
    let c = if online_infrastructure(status) { consecutive + 1 } else { 0 };
    let r = spec_recent(recent, status);
    let stop = if c >= 5 {
        Some("five consecutive infrastructure failures"@)
    } else if r.len() == 16 && count_external(r) * 2 >= r.len() {
        Some("at least half of the latest 16 arms are external or harness failures"@)
    } else {
        None
    };
    (c, r, stop)
}

fn is_online_external(status: &str) -> (r: bool)
    ensures
        r == online_external(status@),
{
    str_eq(status, "relay_error") || str_eq(status, "provider_error") || str_eq(status, "harness_error")
}

proof fn lemma_count_external_bound(statuses: Seq<Seq<char>>)
    ensures
        count_external(statuses) <= statuses.len(),
    decreases statuses.len(),
{
    if statuses.len() > 0 {
        lemma_count_external_bound(statuses.drop_last());
    }
}

impl OnlineWatch {
    /// A watch before the first arm.
    pub fn new() -> (w: OnlineWatch)
        ensures
            w.consecutive == 0,
            w.recent@.len() == 0,
    {
        OnlineWatch { consecutive: 0, recent: Vec::new() }
    }

    /// Records the status of one more arm (see [`spec_watch_step`]) and
    /// returns why the collection stops, if it does.
    pub fn observe(&mut self, status: &str) -> (stop: Option<String>)
        requires
            old(self).consecutive < usize::MAX,
        ensures
            ({
                let (c, r, s) = spec_watch_step(old(self).consecutive as nat, strings_view(old(self).recent@), status@);
                &&& final(self).consecutive == c
                &&& strings_view(final(self).recent@) == r
                &&& match s {
                    None => stop is None,
                    Some(m) => stop matches Some(t) && t@ == m,
                }
            }),
    {
        let ghost before = strings_view(self.recent@);
        let infra = is_online_external(status) || str_eq(status, "timeout");
        if infra {
            self.consecutive = self.consecutive + 1;
        } else {
            self.consecutive = 0;
        }
        self.recent.push(owned(status));
        assert(strings_view(self.recent@) =~= before.push(status@));
        if self.recent.len() > 16 {
            let ghost pushed = strings_view(self.recent@);
            self.recent.remove(0);
            assert(strings_view(self.recent@) =~= pushed.drop_first());
        }
        let ghost r = strings_view(self.recent@);
        assert(r == spec_recent(before, status@));
        if self.consecutive >= 5 {
            return Some(owned("five consecutive infrastructure failures"));
        }
        if self.recent.len() == 16 {
            let mut external: usize = 0;
            let mut i: usize = 0;
            while i < self.recent.len()
                invariant
                    i <= self.recent@.len(),
                    self.recent@.len() == 16,
                    r == strings_view(self.recent@),
                    external == count_external(r.take(i as int)),
                decreases self.recent.len() - i,
            {
                assert(r.take(i + 1).drop_last() =~= r.take(i as int));
                assert(r[i as int] == self.recent@[i as int]@);
                proof {
                    lemma_count_external_bound(r.take(i as int));
                }
                if is_online_external(self.recent[i].as_str()) {
                    external = external + 1;
                }
                i += 1;
            }
            assert(r.take(16) =~= r);
            proof {
                lemma_count_external_bound(r);
            }
            if external * 2 >= 16 {
                return Some(owned("at least half of the latest 16 arms are external or harness failures"));
            }
        }
        None
    }
}

/// What the online summary reports of one arm.
pub struct OnlineRecord {
    pub pair_id: String,
    pub attempt_id: String,
    pub task_id: String,
    pub backend: String,
    pub status: String,
    pub failure_class: Option<String>,
    pub codex_exit_code: Option<i32>,
    pub codex_signal: Option<i32>,
    pub command_exit_code: Option<i32>,
    pub command_status: Option<String>,
    pub elapsed_ms: u64,
    pub stdout_bytes: u64,
    pub stderr_bytes: u64,
    pub json_lines: u64,
    pub parse_errors: u64,
    pub artifact_dir: String,
}

/// Whether an arm succeeded.
pub open spec fn record_succeeded(r: OnlineRecord) -> bool {
    r.status@ == "success"@
}

/// How many arms succeeded.
pub open spec fn successful_arms(records: Seq<OnlineRecord>) -> nat
    decreases records.len(),
{
    if records.len() == 0 {
        0
    } else {
        successful_arms(records.drop_last()) + if record_succeeded(records.last()) { 1nat } else { 0nat }
    }
}

/// How many consecutive pairs of arms (the first and second, the third and
/// fourth, ...) both succeeded; an odd last arm makes no pair.
pub open spec fn complete_pairs(records: Seq<OnlineRecord>) -> nat
    decreases records.len(),
{
    if records.len() < 2 {
        0
    } else {
        complete_pairs(records.skip(2)) + if record_succeeded(records[0]) && record_succeeded(records[1]) { 1nat } else { 0nat }
    }
}

/// One arm as the summary lists it.
pub open spec fn spec_record_json(r: OnlineRecord) -> Json {
    Json::Object(seq![
        ("artifact_dir"@, Json::Str(r.artifact_dir@)),
        ("attempt_id"@, Json::Str(r.attempt_id@)),
        ("backend"@, Json::Str(r.backend@)),
        ("codex_exit_code"@, opt_int_json(r.codex_exit_code)),
        ("codex_signal"@, opt_int_json(r.codex_signal)),
        ("command_exit_code"@, opt_int_json(r.command_exit_code)),
        ("command_status"@, opt_text_json(opt_text(r.command_status))),
        ("elapsed_ms"@, count_json(r.elapsed_ms)),
        ("failure_class"@, opt_text_json(opt_text(r.failure_class))),
        ("json_lines"@, count_json(r.json_lines)),
        ("pair_id"@, Json::Str(r.pair_id@)),
        ("parse_errors"@, count_json(r.parse_errors)),
        ("status"@, Json::Str(r.status@)),
        ("stderr_bytes"@, count_json(r.stderr_bytes)),
        ("stdout_bytes"@, count_json(r.stdout_bytes)),
        ("task_id"@, Json::Str(r.task_id@)),
    ])
}

/// The summary document of an online collection.
pub open spec fn spec_online_summary(records: Seq<OnlineRecord>, planned: usize, stop: Option<Seq<char>>) -> Json {
    Json::Object(seq![
        ("attempts"@, Json::Number(Num::PosInt(records.len() as u64))),
        ("complete_pairs"@, Json::Number(Num::PosInt(complete_pairs(records) as u64))),
        ("experiment_id"@, Json::Str(online_experiment())),
        ("partial"@, Json::Bool(complete_pairs(records) < planned)),
        ("planned_pairs"@, Json::Number(Num::PosInt(planned as u64))),
        ("records"@, Json::Array(records.map_values(|r: OnlineRecord| spec_record_json(r)))),
        ("schema_version"@, Json::Number(Num::PosInt(1))),
        ("stop_reason"@, opt_text_json(stop)),
        ("successful_arms"@, Json::Number(Num::PosInt(successful_arms(records) as u64))),
    ])
}

proof fn lemma_counts_bounded(records: Seq<OnlineRecord>)
    ensures
        successful_arms(records) <= records.len(),
        complete_pairs(records) <= records.len(),
    decreases records.len(),
{
    if records.len() > 0 {
        lemma_counts_bounded(records.drop_last());
    }
    if records.len() >= 2 {
        lemma_counts_bounded(records.skip(2));
    }
}

/// Counts the arms that succeeded and the pairs whose two arms did.
pub fn online_counts(records: &Vec<OnlineRecord>) -> (r: (usize, usize))
    ensures
        r.0 == successful_arms(records@),
        r.1 == complete_pairs(records@),
{
    let ghost rv = records@;
    let mut ok: usize = 0;
    let mut i: usize = 0;
    while i < records.len()
        invariant
            i <= records.len(),
            rv == records@,
            ok == successful_arms(rv.take(i as int)),
        decreases records.len() - i,
    {
        assert(rv.take(i + 1).drop_last() =~= rv.take(i as int));
        proof {
            lemma_counts_bounded(rv.take(i as int));
        }
        if str_eq(records[i].status.as_str(), "success") {
            ok = ok + 1;
        }
        i += 1;
    }
    assert(rv.take(i as int) =~= rv);
    let mut pairs: usize = 0;
    let mut k: usize = 0;
    assert(rv.skip(0) =~= rv);
    while records.len() - k >= 2
        invariant
            k <= records.len(),
            k % 2 == 0,
            rv == records@,
            complete_pairs(rv) == pairs + complete_pairs(rv.skip(k as int)),
            pairs <= k,
        decreases records.len() - k,
    {
        let both = str_eq(records[k].status.as_str(), "success") && str_eq(records[k + 1].status.as_str(), "success");
        assert(rv.skip(k as int).skip(2) =~= rv.skip(k + 2));
        assert(rv.skip(k as int)[0] == rv[k as int] && rv.skip(k as int)[1] == rv[k + 1]);
        if both {
            pairs = pairs + 1;
        }
        k += 2;
    }
    (ok, pairs)
}

fn record_value(r: &OnlineRecord) -> (v: JsonValue)
    ensures
        v@ == spec_record_json(*r),
{
    let mut m: Vec<(String, JsonValue)> = Vec::new();
    push_member(&mut m, "artifact_dir", text_value(r.artifact_dir.as_str()));
    push_member(&mut m, "attempt_id", text_value(r.attempt_id.as_str()));
    push_member(&mut m, "backend", text_value(r.backend.as_str()));
    push_member(&mut m, "codex_exit_code", opt_int_value(r.codex_exit_code));
    push_member(&mut m, "codex_signal", opt_int_value(r.codex_signal));
    push_member(&mut m, "command_exit_code", opt_int_value(r.command_exit_code));
    push_member(&mut m, "command_status", opt_text_value(&r.command_status));
    push_member(&mut m, "elapsed_ms", count_value(r.elapsed_ms));
    push_member(&mut m, "failure_class", opt_text_value(&r.failure_class));
    push_member(&mut m, "json_lines", count_value(r.json_lines));
    push_member(&mut m, "pair_id", text_value(r.pair_id.as_str()));
    push_member(&mut m, "parse_errors", count_value(r.parse_errors));
    push_member(&mut m, "status", text_value(r.status.as_str()));
    push_member(&mut m, "stderr_bytes", count_value(r.stderr_bytes));
    push_member(&mut m, "stdout_bytes", count_value(r.stdout_bytes));
    push_member(&mut m, "task_id", text_value(r.task_id.as_str()));
    assert(member_views(m@) =~= match spec_record_json(*r) { Json::Object(ms) => ms, _ => Seq::empty() });
    object_of(m)
}

/// The summary document of an online collection that planned `planned`
/// pairs and recorded `records`, stopped early for `stop`, if it did.
pub fn online_summary(records: &Vec<OnlineRecord>, planned: usize, stop: Option<&str>) -> (r: JsonValue)
    ensures
        r@ == spec_online_summary(records@, planned, match stop { Some(s) => Some(s@), None => None }),
{
    let (ok, pairs) = online_counts(records);
    let ghost rv = records@;
    let mut items: Vec<JsonValue> = Vec::new();
    let mut i: usize = 0;
    while i < records.len()
        invariant
            i <= records.len(),
            rv == records@,
            crate::evidence::value_views(items@) == rv.take(i as int).map_values(|r: OnlineRecord| spec_record_json(r)),
        decreases records.len() - i,
    {
        let ghost before = crate::evidence::value_views(items@);
        items.push(record_value(&records[i]));
        assert(crate::evidence::value_views(items@) =~= before.push(spec_record_json(rv[i as int])));
        assert(rv.take(i + 1).map_values(|r: OnlineRecord| spec_record_json(r))
            =~= rv.take(i as int).map_values(|r: OnlineRecord| spec_record_json(r)).push(spec_record_json(rv[i as int])));
        i += 1;
    }
    assert(rv.take(i as int) =~= rv);
    let stop_value = match stop {
        Some(s) => text_value(s),
        None => JsonValue::Null,
    };
    let mut m: Vec<(String, JsonValue)> = Vec::new();
    push_member(&mut m, "attempts", count_value(records.len() as u64));
    push_member(&mut m, "complete_pairs", count_value(pairs as u64));
    push_member(&mut m, "experiment_id", text_value("codex-relay-online-v1"));
    push_member(&mut m, "partial", JsonValue::Bool(pairs < planned));
    push_member(&mut m, "planned_pairs", count_value(planned as u64));
    push_member(&mut m, "records", crate::evidence::array_of(items));
    push_member(&mut m, "schema_version", count_value(1));
    push_member(&mut m, "stop_reason", stop_value);
    push_member(&mut m, "successful_arms", count_value(ok as u64));
    assert(member_views(m@) =~= match spec_online_summary(rv, planned, match stop { Some(s) => Some(s@), None => None }) {
        Json::Object(ms) => ms,
        _ => Seq::empty(),
    });
    object_of(m)
}

/// One arm's line in the online summary's table.
pub open spec fn spec_record_line(r: OnlineRecord) -> Seq<char> {
    "| `"@ + r.pair_id@ + "` | `"@ + r.task_id@ + "` | `"@ + r.backend@ + "` | `"@ + r.status@
        + "` | `"@ + (match r.failure_class { Some(f) => f@, None => Seq::empty() })
        + "` | `"@ + (match r.command_exit_code { Some(c) => signed_decimal(c as int), None => Seq::empty() })
        + "` | `"@ + r.artifact_dir@ + "` |\n"@
}

/// The table lines of some arms, in order.
pub open spec fn spec_record_lines(records: Seq<OnlineRecord>) -> Seq<char>
    decreases records.len(),
{
    if records.len() == 0 {
        Seq::empty()
    } else {
        spec_record_lines(records.drop_last()) + spec_record_line(records.last())
    }
}

/// `true` or `false`, as `bool` prints.
pub open spec fn bool_word(b: bool) -> Seq<char> {
    if b { "true"@ } else { "false"@ }
}

/// The Markdown summary of an online collection.
pub open spec fn spec_online_markdown(records: Seq<OnlineRecord>, planned: usize, stop: Option<Seq<char>>) -> Seq<char> {
    "# Codex relay online collection\n\n- Planned pairs: "@ + decimal(planned as nat)
        + "\n- Recorded arms: "@ + decimal(records.len())
        + "\n- Successful arms: "@ + decimal(successful_arms(records))
        + "\n- Complete pairs: "@ + decimal(complete_pairs(records))
        + "\n- Partial: "@ + bool_word(complete_pairs(records) < planned) + "\n"@
        + (match stop { Some(reason) => "- Stop reason: `"@ + reason + "`\n"@, None => Seq::empty() })
        + "\n| Pair | Task | Backend | Status | Failure | Command exit | Evidence |\n|---|---|---|---|---|---:|---|\n"@
        + spec_record_lines(records)
}

fn push_record_line(out: &mut String, r: &OnlineRecord)
    ensures
        final(out)@ == old(out)@ + spec_record_line(*r),
{
    let ghost start = out@;
    push_all(out, "| `");
    push_all(out, r.pair_id.as_str());
    push_all(out, "` | `");
    push_all(out, r.task_id.as_str());
    push_all(out, "` | `");
    push_all(out, r.backend.as_str());
    push_all(out, "` | `");
    push_all(out, r.status.as_str());
    push_all(out, "` | `");
    match &r.failure_class {
        Some(f) => push_all(out, f.as_str()),
        None => {},
    }
    push_all(out, "` | `");
    match r.command_exit_code {
        Some(c) => push_all(out, crate::text::i64_text(c as i64).as_str()),
        None => {},
    }
    push_all(out, "` | `");
    push_all(out, r.artifact_dir.as_str());
    push_all(out, "` |\n");
    assert(out@ =~= start + spec_record_line(*r));
}

/// The Markdown summary of an online collection (see
/// [`spec_online_markdown`]).
pub fn online_markdown(records: &Vec<OnlineRecord>, planned: usize, stop: Option<&str>) -> (r: String)
    ensures
        r@ == spec_online_markdown(records@, planned, match stop { Some(s) => Some(s@), None => None }),
{
    let (ok, pairs) = online_counts(records);
    let mut out = owned("# Codex relay online collection\n\n- Planned pairs: ");
    crate::text::push_decimal(&mut out, planned as u64);
    push_all(&mut out, "\n- Recorded arms: ");
    crate::text::push_decimal(&mut out, records.len() as u64);
    push_all(&mut out, "\n- Successful arms: ");
    crate::text::push_decimal(&mut out, ok as u64);
    push_all(&mut out, "\n- Complete pairs: ");
    crate::text::push_decimal(&mut out, pairs as u64);
    push_all(&mut out, "\n- Partial: ");
    push_all(&mut out, if pairs < planned { "true" } else { "false" });
    push_all(&mut out, "\n");
    match stop {
        Some(reason) => {
            push_all(&mut out, "- Stop reason: `");
            push_all(&mut out, reason);
            push_all(&mut out, "`\n");
        },
        None => {},
    }
    push_all(&mut out, "\n| Pair | Task | Backend | Status | Failure | Command exit | Evidence |\n|---|---|---|---|---|---:|---|\n");
    let ghost head = out@;
    let ghost rv = records@;
    let mut i: usize = 0;
    assert(rv.take(0) =~= Seq::<OnlineRecord>::empty());
    assert(head + Seq::<char>::empty() =~= head);
    while i < records.len()
        invariant
            i <= records.len(),
            rv == records@,
            out@ == head + spec_record_lines(rv.take(i as int)),
        decreases records.len() - i,
    {
        assert(rv.take(i + 1).drop_last() =~= rv.take(i as int));
        push_record_line(&mut out, &records[i]);
        assert(out@ =~= head + spec_record_lines(rv.take(i + 1)));
        i += 1;
    }
    assert(rv.take(i as int) =~= rv);
    assert(out@ =~= spec_online_markdown(rv, planned, match stop { Some(s) => Some(s@), None => None }));
    out
}

} // verus!
