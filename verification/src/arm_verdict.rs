//! The fixture runner's verdict on one arm: whether the backend was
//! observed and complied, how completely the run was observed, whether the
//! approved command stayed the original one, and the failure category.
use vstd::prelude::*;
use crate::events::{EventSummary, EventView};
use crate::json::{Json, JsonNumber, JsonValue, Num, spec_as_str, spec_field, str_eq};
use crate::json_object::{member_views, object_of, push_member, text_value};
use crate::m5_runner::{AttemptRecord, spec_local_classify};
use crate::text::{contains_str, owned, spec_contains};

verus! {

/// How often the event summary counts a tool (zero where never).
pub open spec fn tool_calls(e: EventView, name: Seq<char>) -> i64 {
    if e.tools.contains_key(name) { e.tools[name] } else { 0 }
}

/// The tools the shell arms must not use.
pub open spec fn forbidden_tools() -> Seq<Seq<char>> {
    seq!["mbtx"@, "spawn_agent"@, "js"@, "js_exec"@, "exec"@, "shell"@, "shell_command"@]
}

/// Whether the agent used the backend as the task demands: `exec_command`
/// at least once, `write_stdin` for background tasks, none of the forbidden
/// tools, and a traced command start.
pub open spec fn spec_backend_compliant(background: bool, e: EventView, command_started: bool) -> bool {
    &&& tool_calls(e, "exec_command"@) > 0
    &&& (!background || tool_calls(e, "write_stdin"@) > 0)
    &&& forall|k: int| 0 <= k < 7 ==> tool_calls(e, #[trigger] forbidden_tools()[k]) == 0
    &&& command_started
}

/// Decides whether the agent used the backend as the task demands.
pub fn backend_compliant(background: bool, events: &EventSummary, command_started: bool) -> (r: bool)
    requires
        events.wf(),
    ensures
        r == spec_backend_compliant(background, events.view(), command_started),
{
    let exec = events.tool_count("exec_command");
    let write_stdin = events.tool_count("write_stdin");
    let forbidden = ["mbtx", "spawn_agent", "js", "js_exec", "exec", "shell", "shell_command"];
    let mut clean = true;
    let mut k: usize = 0;
    while k < 7
        invariant
            k <= 7,
            events.wf(),
            forall|j: int| 0 <= j < 7 ==> (#[trigger] forbidden@[j])@ == forbidden_tools()[j],
            clean == (forall|j: int| 0 <= j < k ==> tool_calls(events.view(), #[trigger] forbidden_tools()[j]) == 0),
        decreases 7 - k,
    {
        assert(forbidden@[k as int]@ == forbidden_tools()[k as int]);
        if events.tool_count(forbidden[k]) != 0 {
            clean = false;
        }
        k += 1;
    }
    exec > 0 && (!background || write_stdin > 0) && clean && command_started
}

/// Whether a command Codex showed is the approved original: not empty, no
/// trusted launcher in it, and naming the workspace, `python3` or `moon`.
pub open spec fn original_command(program: Seq<char>, launcher: Seq<char>, mbtx: Seq<char>, workspace: Seq<char>) -> bool {
    &&& program.len() > 0
    &&& !spec_contains(program, launcher)
    &&& !spec_contains(program, mbtx)
    &&& !spec_contains(program, "m5-trace-launcher"@)
    &&& (spec_contains(program, workspace) || spec_contains(program, "python3"@) || spec_contains(program, "moon"@))
}

/// Whether Codex showed commands and every one is the approved original.
pub open spec fn spec_approval_original(e: EventView, launcher: Seq<char>, mbtx: Seq<char>, workspace: Seq<char>) -> bool {
    e.commands.len() > 0 && forall|i: int| 0 <= i < e.commands.len() ==> original_command(#[trigger] e.commands[i], launcher, mbtx, workspace)
}

/// Checks that the commands Codex showed are the approved originals.
pub fn approval_original_command(events: &EventSummary, launcher: &str, mbtx: &str, workspace: &str) -> (r: bool)
    ensures
        r == spec_approval_original(events.view(), launcher@, mbtx@, workspace@),
{
    if events.commands.len() == 0 {
        return false;
    }
    let ghost cs = events.view().commands;
    let mut i: usize = 0;
    while i < events.commands.len()
        invariant
            i <= events.commands@.len(),
            cs == crate::collection::arg_views(events.commands@),
            forall|j: int| 0 <= j < i ==> original_command(#[trigger] cs[j], launcher@, mbtx@, workspace@),
        decreases events.commands.len() - i,
    {
        let p = events.commands[i].as_str();
        assert(cs[i as int] == p@);
        let ok = crate::text::chars_of(p).len() > 0
            && !contains_str(p, launcher)
            && !contains_str(p, mbtx)
            && !contains_str(p, "m5-trace-launcher")
            && (contains_str(p, workspace) || contains_str(p, "python3") || contains_str(p, "moon"));
        if !ok {
            return false;
        }
        i += 1;
    }
    true
}

/// What the events say once the relay's captured attempts are counted: a
/// stream without any `response.completed` event that nonetheless has
/// captured attempts counts those, and completed when one succeeded.
pub open spec fn spec_counted_responses(response_count: usize, response_completed: bool, attempts: Seq<crate::m5_runner::AttemptView>) -> (usize, bool) {
    if response_count == 0 && attempts.len() > 0 {
        (attempts.len() as usize, exists|i: int| 0 <= i < attempts.len() && attempts[i].successful)
    } else {
        (response_count, response_completed)
    }
}

/// Counts the captured attempts where the stream showed no response.
pub fn counted_responses(response_count: usize, response_completed: bool, attempts: &[AttemptRecord]) -> (r: (usize, bool))
    ensures
        r == spec_counted_responses(response_count, response_completed, crate::m5_runner::attempt_views(attempts@)),
{
    let ghost av = crate::m5_runner::attempt_views(attempts@);
    if response_count == 0 && attempts.len() > 0 {
        let mut any = false;
        let mut i: usize = 0;
        while i < attempts.len()
            invariant
                i <= attempts@.len(),
                av == crate::m5_runner::attempt_views(attempts@),
                any == (exists|j: int| 0 <= j < i && av[j].successful),
            decreases attempts.len() - i,
        {
            assert(av[i as int].successful == attempts@[i as int].successful);
            if attempts[i].successful {
                any = true;
            }
            i += 1;
        }
        (attempts.len(), any)
    } else {
        (response_count, response_completed)
    }
}

/// How completely a run was observed: not at all without responses or
/// attempts, partially when the stream broke, the turn did not complete or
/// the agent timed out, completely otherwise.
pub open spec fn spec_observability(response_count: usize, attempts: nat, response_completed: bool, parse_errors: bool, turn_completed: bool, timed_out: bool) -> Seq<char> {
    if response_count == 0 && attempts == 0 {
        "unobserved"@
    } else if !(response_completed && !parse_errors) || !turn_completed || timed_out {
        "partial"@
    } else {
        "complete"@
    }
}

/// Rates how completely a run was observed.
pub fn observability(response_count: usize, attempts: usize, response_completed: bool, parse_errors: bool, turn_completed: bool, timed_out: bool) -> (r: &'static str)
    ensures
        r@ == spec_observability(response_count, attempts as nat, response_completed, parse_errors, turn_completed, timed_out),
{
    if response_count == 0 && attempts == 0 {
        "unobserved"
    } else if !(response_completed && !parse_errors) || !turn_completed || timed_out {
        "partial"
    } else {
        "complete"
    }
}

/// Whether the backend was observed: a traced command start and a command
/// event, and for the transparent arm a balanced launcher start and exit,
/// for the shell arm no launcher at all.
pub open spec fn spec_backend_observed(backend: Seq<char>, command_observed: bool, launcher_starts: usize, launcher_exits: usize) -> bool {
    if backend == "transparent"@ {
        command_observed && launcher_starts > 0 && launcher_starts == launcher_exits
    } else {
        command_observed && launcher_starts == 0 && launcher_exits == 0
    }
}

/// What was observed of the backend: unknown where it was not observed,
/// else compliant or a violation.
pub open spec fn spec_backend_observation(observed: bool, compliant: bool) -> Seq<char> {
    if !observed { "unknown"@ } else if compliant { "compliant"@ } else { "violation"@ }
}

/// Rates what was observed of the backend.
pub fn backend_observation(backend: &str, command_observed: bool, launcher_starts: usize, launcher_exits: usize, compliant: bool) -> (r: &'static str)
    ensures
        r@ == spec_backend_observation(spec_backend_observed(backend@, command_observed, launcher_starts, launcher_exits), compliant),
{
    let observed = if str_eq(backend, "transparent") {
        command_observed && launcher_starts > 0 && launcher_starts == launcher_exits
    } else {
        command_observed && launcher_starts == 0 && launcher_exits == 0
    };
    if !observed { "unknown" } else if compliant { "compliant" } else { "violation" }
}

/// Whether usage is complete: some attempt succeeded, and every successful
/// attempt reported complete usage.
pub open spec fn spec_usage_complete(attempts: Seq<crate::m5_runner::AttemptView>) -> bool {
    (exists|i: int| 0 <= i < attempts.len() && attempts[i].successful)
        && forall|i: int| 0 <= i < attempts.len() && attempts[i].successful ==> attempts[i].usage_complete
}

/// Decides whether usage is complete.
pub fn usage_complete(attempts: &[AttemptRecord]) -> (r: bool)
    ensures
        r == spec_usage_complete(crate::m5_runner::attempt_views(attempts@)),
{
    let ghost av = crate::m5_runner::attempt_views(attempts@);
    let mut any = false;
    let mut all = true;
    let mut i: usize = 0;
    while i < attempts.len()
        invariant
            i <= attempts@.len(),
            av == crate::m5_runner::attempt_views(attempts@),
            any == (exists|j: int| 0 <= j < i && av[j].successful),
            all == (forall|j: int| 0 <= j < i && av[j].successful ==> av[j].usage_complete),
        decreases attempts.len() - i,
    {
        assert(av[i as int].successful == attempts@[i as int].successful);
        assert(av[i as int].usage_complete == attempts@[i as int].usage_complete);
        if attempts[i].successful {
            any = true;
            if !attempts[i].usage_complete {
                all = false;
            }
        }
        i += 1;
    }
    any && all
}

/// The failure category of an arm: the one the evidence tool answered,
/// where it answered one, else the runner's own classification.
pub open spec fn spec_category(answer: Option<Json>, local: Seq<char>) -> Seq<char> {
    match answer {
        Some(v) => match spec_as_str(spec_field(v, "failure_category"@)) { Some(c) => c, None => local },
        None => local,
    }
}

/// Decides the failure category from the evidence tool's standard output
/// (`None` when the tool could not be run or failed) and the observations.
pub fn failure_category(
    answer: Option<&[u8]>,
    relay_status: &str,
    observability: &str,
    backend_observation: &str,
    completed: bool,
    usage_complete: bool,
    correct_output: bool,
    inputs_preserved: bool,
    workspace_clean: bool,
    child_processes_clean: bool,
    receipt_valid: bool,
    trace_complete: bool,
    argv_cwd_valid: bool,
    approval_original_command: bool,
    timeout: bool,
) -> (r: String)
    ensures
        r@ == spec_category(
            match answer { Some(b) => crate::json::json_parse(b@), None => None },
            spec_local_classify(relay_status@, observability@, backend_observation@, completed, usage_complete,
                correct_output, inputs_preserved, workspace_clean, child_processes_clean, receipt_valid,
                trace_complete, argv_cwd_valid, approval_original_command, timeout),
        ),
{
    let parsed = match answer { Some(b) => crate::json::parse_json(b), None => None };
    match &parsed {
        Some(v) => match v.field_str("failure_category") {
            Some(c) => return owned(c),
            None => {},
        },
        None => {},
    }
    crate::m5_runner::local_classify(relay_status, observability, backend_observation, completed, usage_complete,
        correct_output, inputs_preserved, workspace_clean, child_processes_clean, receipt_valid,
        trace_complete, argv_cwd_valid, approval_original_command, timeout)
}

/// Zero in JSON.
pub open spec fn zero() -> Json {
    Json::Number(Num::PosInt(0))
}

/// The workspace difference of an arm that never ran.
pub open spec fn empty_diff() -> Json {
    Json::Object(seq![
        ("entries"@, Json::Array(Seq::empty())),
        ("permissions_unchanged"@, Json::Bool(false)),
        ("symlinks_unchanged"@, Json::Bool(false)),
    ])
}

fn empty_diff_value() -> (r: JsonValue)
    ensures
        r@ == empty_diff(),
{
    let mut m: Vec<(String, JsonValue)> = Vec::new();
    assert(member_views(m@) =~= Seq::<(Seq<char>, Json)>::empty());
    push_member(&mut m, "entries", empty_array());
    push_member(&mut m, "permissions_unchanged", JsonValue::Bool(false));
    push_member(&mut m, "symlinks_unchanged", JsonValue::Bool(false));
    let r = object_of(m);
    assert(r@ =~= empty_diff()) by {
        if let Json::Object(a) = r@ {
            if let Json::Object(b) = empty_diff() {
                assert(a =~= b);
            }
        }
    }
    r
}

/// The record of an arm before anything was observed: every check failed,
/// nothing measured, the relay unreachable.
pub open spec fn spec_base_run(block_id: Seq<char>, task_id: Seq<char>, backend: Seq<char>) -> Json {
    Json::Object(seq![
        ("approval_original_command"@, Json::Bool(false)),
        ("argv_cwd_valid"@, Json::Bool(false)),
        ("attempts"@, Json::Array(Seq::empty())),
        ("backend"@, Json::Str(backend)),
        ("backend_observation"@, Json::Str("unknown"@)),
        ("block_id"@, Json::Str(block_id)),
        ("cached_input_tokens"@, zero()),
        ("child_processes_clean"@, Json::Bool(false)),
        ("completed"@, Json::Bool(false)),
        ("correct_output"@, Json::Bool(false)),
        ("ended_ms"@, zero()),
        ("exit_code"@, Json::Number(Num::NegInt(-1i64))),
        ("failure_category"@, Json::Str("infrastructure_unavailable"@)),
        ("input_tokens"@, zero()),
        ("inputs_preserved"@, Json::Bool(false)),
        ("monotonic_end_ms"@, zero()),
        ("monotonic_start_ms"@, zero()),
        ("observability"@, Json::Str("unobserved"@)),
        ("output_tokens"@, zero()),
        ("process_trace"@, Json::Array(Seq::empty())),
        ("receipt"@, Json::Object(Seq::empty())),
        ("receipt_valid"@, Json::Bool(false)),
        ("relay_status"@, Json::Str("transport_error"@)),
        ("run_id"@, Json::Str(block_id + "-"@ + backend)),
        ("started_ms"@, zero()),
        ("stderr"@, Json::Str(Seq::empty())),
        ("stdout"@, Json::Str(Seq::empty())),
        ("task"@, Json::Str(task_id)),
        ("tool_counts"@, Json::Object(Seq::empty())),
        ("trace_complete"@, Json::Bool(false)),
        ("usage_complete"@, Json::Bool(false)),
        ("workspace_clean"@, Json::Bool(false)),
        ("workspace_diff"@, empty_diff()),
        ("workspace_manifest"@, Json::Array(Seq::empty()))
    ])
}

/// Writes the record of an arm before anything was observed.
pub fn base_run(block_id: &str, task_id: &str, backend: &str) -> (r: JsonValue)
    ensures
        r@ == spec_base_run(block_id@, task_id@, backend@),
{
    let mut run_id = owned(block_id);
    crate::text::push_all(&mut run_id, "-");
    crate::text::push_all(&mut run_id, backend);
    let mut m: Vec<(String, JsonValue)> = Vec::new();
    assert(member_views(m@) =~= Seq::<(Seq<char>, Json)>::empty());
    push_member(&mut m, "approval_original_command", JsonValue::Bool(false));
    push_member(&mut m, "argv_cwd_valid", JsonValue::Bool(false));
    push_member(&mut m, "attempts", empty_array());
    push_member(&mut m, "backend", text_value(backend));
    push_member(&mut m, "backend_observation", text_value("unknown"));
    push_member(&mut m, "block_id", text_value(block_id));
    push_member(&mut m, "cached_input_tokens", JsonValue::Number(JsonNumber::PosInt(0)));
    push_member(&mut m, "child_processes_clean", JsonValue::Bool(false));
    push_member(&mut m, "completed", JsonValue::Bool(false));
    push_member(&mut m, "correct_output", JsonValue::Bool(false));
    push_member(&mut m, "ended_ms", JsonValue::Number(JsonNumber::PosInt(0)));
    push_member(&mut m, "exit_code", JsonValue::Number(JsonNumber::NegInt(-1)));
    push_member(&mut m, "failure_category", text_value("infrastructure_unavailable"));
    push_member(&mut m, "input_tokens", JsonValue::Number(JsonNumber::PosInt(0)));
    push_member(&mut m, "inputs_preserved", JsonValue::Bool(false));
    push_member(&mut m, "monotonic_end_ms", JsonValue::Number(JsonNumber::PosInt(0)));
    push_member(&mut m, "monotonic_start_ms", JsonValue::Number(JsonNumber::PosInt(0)));
    push_member(&mut m, "observability", text_value("unobserved"));
    push_member(&mut m, "output_tokens", JsonValue::Number(JsonNumber::PosInt(0)));
    push_member(&mut m, "process_trace", empty_array());
    push_member(&mut m, "receipt", empty_object());
    push_member(&mut m, "receipt_valid", JsonValue::Bool(false));
    push_member(&mut m, "relay_status", text_value("transport_error"));
    push_member(&mut m, "run_id", JsonValue::Str(run_id));
    push_member(&mut m, "started_ms", JsonValue::Number(JsonNumber::PosInt(0)));
    push_member(&mut m, "stderr", JsonValue::Str(String::new()));
    push_member(&mut m, "stdout", JsonValue::Str(String::new()));
    push_member(&mut m, "task", text_value(task_id));
    push_member(&mut m, "tool_counts", empty_object());
    push_member(&mut m, "trace_complete", JsonValue::Bool(false));
    push_member(&mut m, "usage_complete", JsonValue::Bool(false));
    push_member(&mut m, "workspace_clean", JsonValue::Bool(false));
    push_member(&mut m, "workspace_diff", empty_diff_value());
    push_member(&mut m, "workspace_manifest", empty_array());
    let r = object_of(m);
    assert(r@ =~= spec_base_run(block_id@, task_id@, backend@)) by {
        if let Json::Object(a) = r@ {
            if let Json::Object(b) = spec_base_run(block_id@, task_id@, backend@) {
                assert(a =~= b);
            }
        }
    }
    r
}

fn empty_array() -> (r: JsonValue)
    ensures
        r@ == Json::Array(Seq::empty()),
{
    let v: Vec<JsonValue> = Vec::new();
    let r = JsonValue::Array(v);
    assert(r@ == Json::Array(Seq::empty())) by {
        if let Json::Array(z) = r@ {
            assert(z =~= Seq::<Json>::empty());
        }
    }
    r
}

fn empty_object() -> (r: JsonValue)
    ensures
        r@ == Json::Object(Seq::empty()),
{
    let v: Vec<(String, JsonValue)> = Vec::new();
    assert(member_views(v@) =~= Seq::<(Seq<char>, Json)>::empty());
    crate::json_object::object_of(v)
}

/// The record of an arm that could not run: the base record of the block's
/// task with the relay status and the reason.
pub open spec fn spec_unavailable_run(block_id: Seq<char>, task_id: Seq<char>, backend: Seq<char>, reason: Seq<char>, relay_status: Seq<char>) -> Json {
    crate::json_object::spec_with_member(
        crate::json_object::spec_with_member(
            crate::json_object::spec_with_member(spec_base_run(block_id, task_id, backend), "relay_status"@, Json::Str(relay_status)),
            "stderr"@, Json::Str(reason)),
        "infrastructure_reason"@, Json::Str(reason))
}

/// Writes the record of an arm that could not run.
pub fn unavailable_run(block_id: &str, task_id: &str, backend: &str, reason: &str, relay_status: &str) -> (r: JsonValue)
    ensures
        r@ == spec_unavailable_run(block_id@, task_id@, backend@, reason@, relay_status@),
{
    let run = base_run(block_id, task_id, backend);
    let a = crate::json_object::with_member(run, "relay_status", text_value(relay_status));
    let b = crate::json_object::with_member(a, "stderr", text_value(reason));
    crate::json_object::with_member(b, "infrastructure_reason", text_value(reason))
}

/// The helper's exit code as the verdict uses it: the last traced helper
/// exit (`-1` without one), and `-1` for a cancelled run that left no result.
pub open spec fn spec_helper_exit(trace: crate::m5_runner::TraceSummary, task_id: Seq<char>, result_exists: bool) -> i32 {
    if task_id == "host_cancel_timeout"@ && !result_exists {
        -1i32
    } else {
        match crate::m5_runner::last_exit(crate::evidence::value_views(trace.command_exits@), trace.command_exits@.len() as int) {
            Some(c) => c,
            None => -1i32,
        }
    }
}

/// The helper's exit code as the verdict uses it.
pub fn helper_exit(trace: &crate::m5_runner::TraceSummary, task_id: &str, result_exists: bool) -> (r: i32)
    ensures
        r == spec_helper_exit(*trace, task_id@, result_exists),
{
    if str_eq(task_id, "host_cancel_timeout") && !result_exists {
        -1
    } else {
        match crate::m5_runner::final_helper_exit(trace) {
            Some(c) => c,
            None => -1,
        }
    }
}

/// The receipt the runner writes for a cancelled run: it owns the cleanup,
/// so it binds the receipt to the stopped state.
pub open spec fn stopped_receipt(task: crate::m5_runner::TaskSpec) -> Json {
    Json::Object(seq![
        ("helper"@, Json::Str("cancelled-child"@)),
        ("nonce"@, Json::Str(task.fixture_nonce@)),
        ("status"@, Json::Str("stopped"@)),
        ("task"@, Json::Str(task.id@)),
    ])
}

/// The receipt to write in place of the helper's: for a cancelled run that
/// left no result, whose receipt is invalid or not stopped.
pub open spec fn spec_replacement_receipt(task: crate::m5_runner::TaskSpec, receipt: Json, result_exists: bool) -> Option<Json> {
    if task.id@ == "host_cancel_timeout"@ && !result_exists
        && (!crate::m5_runner::spec_receipt_valid(task, receipt) || crate::m5_runner::receipt_string(receipt, "status"@) != "stopped"@) {
        Some(stopped_receipt(task))
    } else {
        None
    }
}

/// Decides whether the runner replaces the helper's receipt.
pub fn replacement_receipt(task: &crate::m5_runner::TaskSpec, receipt: &JsonValue, result_exists: bool) -> (r: Option<JsonValue>)
    ensures
        match r {
            Some(v) => spec_replacement_receipt(*task, receipt@, result_exists) == Some(v@),
            None => spec_replacement_receipt(*task, receipt@, result_exists) is None,
        },
{
    if !str_eq(task.id.as_str(), "host_cancel_timeout") || result_exists {
        return None;
    }
    let stopped = match receipt.field_str("status") {
        Some(s) => str_eq(s, "stopped"),
        None => {
            proof {
                reveal_strlit("stopped");
            }
            assert(crate::m5_runner::receipt_string(receipt@, "status"@).len() == 0);
            false
        },
    };
    assert(stopped == (crate::m5_runner::receipt_string(receipt@, "status"@) == "stopped"@));
    if crate::m5_runner::receipt_valid(task, receipt) && stopped {
        return None;
    }
    let mut m: Vec<(String, JsonValue)> = Vec::new();
    assert(member_views(m@) =~= Seq::<(Seq<char>, Json)>::empty());
    push_member(&mut m, "helper", text_value("cancelled-child"));
    push_member(&mut m, "nonce", text_value(task.fixture_nonce.as_str()));
    push_member(&mut m, "status", text_value("stopped"));
    push_member(&mut m, "task", text_value(task.id.as_str()));
    let r = object_of(m);
    assert(r@ =~= stopped_receipt(*task)) by {
        if let Json::Object(a) = r@ {
            if let Json::Object(b) = stopped_receipt(*task) {
                assert(a =~= b);
            }
        }
    }
    Some(r)
}

/// Whether the result, the helper's streams and its exit code are right:
/// a cancelled run is right when it left no result and its processes are
/// gone.
pub open spec fn spec_output_checks(task: crate::m5_runner::TaskSpec, result: Json, result_exists: bool, children_clean: bool,
    streams: crate::m5_runner::HelperStreams, exit_code: i32) -> (bool, bool, bool) {
    let cancel = task.id@ == "host_cancel_timeout"@;
    (
        if cancel { !result_exists && children_clean } else { crate::m5_runner::spec_correct_result(task, result) },
        crate::m5_runner::spec_helper_streams_valid(task, streams, exit_code),
        cancel || exit_code == task.expected_exit_code,
    )
}

/// Checks the result, the helper's streams and its exit code.
pub fn output_checks(task: &crate::m5_runner::TaskSpec, result: &JsonValue, result_exists: bool, children_clean: bool,
    streams: &crate::m5_runner::HelperStreams, exit_code: i32) -> (r: (bool, bool, bool))
    ensures
        r == spec_output_checks(*task, result@, result_exists, children_clean, *streams, exit_code),
{
    let cancel = str_eq(task.id.as_str(), "host_cancel_timeout");
    let result_correct = if cancel { !result_exists && children_clean } else { crate::m5_runner::correct_result(task, result) };
    let streams_correct = crate::m5_runner::helper_streams_valid(task, streams, exit_code);
    (result_correct, streams_correct, cancel || exit_code == task.expected_exit_code)
}

/// Whether a workspace difference kept permissions and symbolic links.
pub open spec fn spec_diff_flags_clean(diff: Json) -> bool {
    crate::json::spec_member(diff, "permissions_unchanged"@) == Some(Json::Bool(true))
        && crate::json::spec_member(diff, "symlinks_unchanged"@) == Some(Json::Bool(true))
}

/// Checks that a workspace difference kept permissions and symbolic links.
pub fn workspace_diff_flags_clean(diff: &JsonValue) -> (r: bool)
    ensures
        r == spec_diff_flags_clean(diff@),
{
    let p = match diff.get("permissions_unchanged") { Some(JsonValue::Bool(true)) => true, _ => false };
    let s = match diff.get("symlinks_unchanged") { Some(JsonValue::Bool(true)) => true, _ => false };
    p && s
}

/// Whether the input at `relative` is the one the task lets the agent edit.
pub open spec fn is_editable(task: crate::m5_runner::TaskSpec, relative: Seq<char>) -> bool {
    match task.editable {
        Some(e) => e@ == relative,
        None => false,
    }
}

/// Whether every input survived: readable at a safe path, and unchanged
/// (the editable one only outside its `main`).
pub open spec fn spec_inputs_preserved(task: crate::m5_runner::TaskSpec, reads: Seq<Option<Seq<char>>>) -> bool {
    forall|i: int| 0 <= i < task.inputs@.len() ==> match #[trigger] reads[i] {
        Some(actual) => if is_editable(task, task.inputs@[i].0@) {
            crate::m5_runner::spec_editable_source_valid(task.inputs@[i].1@, actual)
        } else {
            actual == task.inputs@[i].1@
        },
        None => false,
    }
}

/// Checks the inputs against what was read back at their paths (`None`
/// where the path was unsafe or unreadable), in the task's order.
pub fn inputs_preserved(task: &crate::m5_runner::TaskSpec, reads: &Vec<Option<String>>) -> (r: bool)
    requires
        reads@.len() == task.inputs@.len(),
    ensures
        r == spec_inputs_preserved(*task, reads@.map_values(|o: Option<String>| match o { Some(s) => Some(s@), None => None })),
{
    let ghost rv = reads@.map_values(|o: Option<String>| match o { Some(s) => Some(s@), None => None });
    let mut i: usize = 0;
    while i < task.inputs.len()
        invariant
            i <= task.inputs@.len(),
            reads@.len() == task.inputs@.len(),
            rv == reads@.map_values(|o: Option<String>| match o { Some(s) => Some(s@), None => None }),
            forall|j: int| 0 <= j < i ==> match #[trigger] rv[j] {
                Some(actual) => if is_editable(*task, task.inputs@[j].0@) {
                    crate::m5_runner::spec_editable_source_valid(task.inputs@[j].1@, actual)
                } else {
                    actual == task.inputs@[j].1@
                },
                None => false,
            },
        decreases task.inputs.len() - i,
    {
        let (relative, original) = (&task.inputs[i].0, &task.inputs[i].1);
        let ok = match &reads[i] {
            Some(actual) => {
                let editable = match &task.editable { Some(e) => str_eq(e.as_str(), relative.as_str()), None => false };
                if editable {
                    crate::m5_runner::editable_source_valid(original.as_str(), actual.as_str())
                } else {
                    str_eq(actual.as_str(), original.as_str())
                }
            },
            None => false,
        };
        assert(ok == match rv[i as int] {
            Some(actual) => if is_editable(*task, task.inputs@[i as int].0@) {
                crate::m5_runner::spec_editable_source_valid(task.inputs@[i as int].1@, actual)
            } else {
                actual == task.inputs@[i as int].1@
            },
            None => false,
        });
        if !ok {
            return false;
        }
        i += 1;
    }
    true
}

} // verus!
