//! The fixture runner's record of one arm: every check made of what the arm
//! left behind, the request for the evidence tool's classification, and the
//! run record with its timings, counts, checks and failure category.
use vstd::prelude::*;
use crate::arm_verdict::{
    approval_original_command, backend_compliant, backend_observation, counted_responses, failure_category,
    helper_exit, observability, output_checks, spec_approval_original, spec_backend_compliant,
    spec_backend_observation, spec_backend_observed, spec_category, spec_counted_responses,
    spec_diff_flags_clean, spec_helper_exit, spec_observability, spec_output_checks, spec_usage_complete,
    usage_complete, workspace_diff_flags_clean,
};
use crate::events::{EventSummary, EventView, tool_view};
use crate::json::{Json, JsonNumber, JsonValue, Num};
use crate::json_object::{spec_with_member, text_value, with_member};
use crate::arm_verdict::zero;
use crate::m5_runner::{
    AttemptRecord, AttemptView, HelperStreams, TaskSpec, TraceSummary, attempt_views, i64_json,
    spec_argv_cwd_valid, spec_receipt_valid, spec_relay_status, spec_trace_complete,
};

verus! {

/// What the agent process did: its output, exit, and when (in milliseconds
/// from its start) the first response, the first and last tool call and the
/// completed turn were seen.
pub struct AgentResult {
    pub stdout: String,
    pub stderr: String,
    pub exit_code: i32,
    pub timed_out: bool,
    pub elapsed_ms: i64,
    pub process_launch_ms: i64,
    pub process_exit_ms: i64,
    pub first_stdout_ms: Option<i64>,
    pub first_stderr_ms: Option<i64>,
    pub first_response_ms: Option<i64>,
    pub first_tool_ms: Option<i64>,
    pub last_tool_ms: Option<i64>,
    pub turn_completed_ms: Option<i64>,
}

/// The checks of an arm.
pub struct ArmChecks {
    pub relay_status: &'static str,
    pub observability: &'static str,
    pub backend_observation: &'static str,
    pub completed: bool,
    pub usage_complete: bool,
    pub correct_output: bool,
    pub inputs_preserved: bool,
    pub workspace_clean: bool,
    pub child_processes_clean: bool,
    pub receipt_valid: bool,
    pub trace_complete: bool,
    pub argv_cwd_valid: bool,
    pub approval_original_command: bool,
    pub timed_out: bool,
    pub result_correct: bool,
    pub streams_correct: bool,
    pub exit_correct: bool,
    pub exit_code: i32,
}

/// The view of [`ArmChecks`].
pub struct ChecksView {
    pub relay_status: Seq<char>,
    pub observability: Seq<char>,
    pub backend_observation: Seq<char>,
    pub completed: bool,
    pub usage_complete: bool,
    pub correct_output: bool,
    pub inputs_preserved: bool,
    pub workspace_clean: bool,
    pub child_processes_clean: bool,
    pub receipt_valid: bool,
    pub trace_complete: bool,
    pub argv_cwd_valid: bool,
    pub approval_original_command: bool,
    pub timed_out: bool,
    pub result_correct: bool,
    pub streams_correct: bool,
    pub exit_correct: bool,
    pub exit_code: i32,
}

impl ArmChecks {
    pub open spec fn view(&self) -> ChecksView {
        ChecksView {
            relay_status: self.relay_status@,
            observability: self.observability@,
            backend_observation: self.backend_observation@,
            completed: self.completed,
            usage_complete: self.usage_complete,
            correct_output: self.correct_output,
            inputs_preserved: self.inputs_preserved,
            workspace_clean: self.workspace_clean,
            child_processes_clean: self.child_processes_clean,
            receipt_valid: self.receipt_valid,
            trace_complete: self.trace_complete,
            argv_cwd_valid: self.argv_cwd_valid,
            approval_original_command: self.approval_original_command,
            timed_out: self.timed_out,
            result_correct: self.result_correct,
            streams_correct: self.streams_correct,
            exit_correct: self.exit_correct,
            exit_code: self.exit_code,
        }
    }
}

/// What the workspace looked like afterwards: whether its manifest is the
/// expected one, whether its entries are safe, its difference from the
/// fixture, and whether the inputs survived.
pub struct WorkspaceState {
    pub manifest_matches: bool,
    pub entries_safe: bool,
    pub diff: JsonValue,
    pub inputs_preserved: bool,
}

/// Every check of an arm, from what it left behind.
pub open spec fn spec_arm_checks(
    task: TaskSpec,
    backend: Seq<char>,
    agent: AgentResult,
    e: EventView,
    attempts: Seq<AttemptView>,
    trace: TraceSummary,
    streams: HelperStreams,
    result: Json,
    result_exists: bool,
    receipt: Json,
    workspace_state: WorkspaceState,
    children_clean: bool,
    workspace: Seq<char>,
    launcher: Seq<char>,
    mbtx: Seq<char>,
) -> ChecksView {
    let exit_code = spec_helper_exit(trace, task.id@, result_exists);
    let outputs = spec_output_checks(task, result, result_exists, children_clean, streams, exit_code);
    let counted = spec_counted_responses(e.response_count, e.response_completed, attempts);
    let command_started = trace.command_starts@.len() > 0;
    let command_observed = command_started && e.commands.len() > 0;
    ChecksView {
        relay_status: spec_relay_status(attempts),
        observability: spec_observability(counted.0, attempts.len(), counted.1, e.parse_errors, e.turn_completed, agent.timed_out),
        backend_observation: spec_backend_observation(
            spec_backend_observed(backend, command_observed, trace.launcher_starts, trace.launcher_exits),
            spec_backend_compliant(task.background, e, command_started),
        ),
        completed: e.turn_completed && agent.exit_code == 0 && !agent.timed_out,
        usage_complete: spec_usage_complete(attempts),
        correct_output: outputs.0 && outputs.1 && outputs.2,
        inputs_preserved: workspace_state.inputs_preserved,
        workspace_clean: workspace_state.manifest_matches && workspace_state.entries_safe && spec_diff_flags_clean(workspace_state.diff@),
        child_processes_clean: children_clean,
        receipt_valid: spec_receipt_valid(task, receipt),
        trace_complete: spec_trace_complete(trace),
        argv_cwd_valid: spec_argv_cwd_valid(task, trace, workspace),
        approval_original_command: spec_approval_original(e, launcher, mbtx, workspace),
        timed_out: agent.timed_out,
        result_correct: outputs.0,
        streams_correct: outputs.1,
        exit_correct: outputs.2,
        exit_code,
    }
}

/// Makes every check of an arm. `receipt` is the receipt as it stands after
/// a cancelled run's replacement; `workspace`, `launcher` and `mbtx` are the
/// paths the approved commands are held against.
#[verifier::spinoff_prover]
#[verifier::rlimit(40)]
pub fn arm_checks(
    task: &TaskSpec,
    backend: &str,
    agent: &AgentResult,
    events: &EventSummary,
    attempts: &[AttemptRecord],
    trace: &TraceSummary,
    streams: &HelperStreams,
    result: &JsonValue,
    result_exists: bool,
    receipt: &JsonValue,
    workspace_state: &WorkspaceState,
    children_clean: bool,
    workspace: &str,
    launcher: &str,
    mbtx: &str,
) -> (r: ArmChecks)
    requires
        events.wf(),
    ensures
        r@ == spec_arm_checks(*task, backend@, *agent, events.view(), attempt_views(attempts@), *trace, *streams,
            result@, result_exists, receipt@, *workspace_state, children_clean, workspace@, launcher@, mbtx@),
{
    let exit_code = helper_exit(trace, task.id.as_str(), result_exists);
    let outputs = output_checks(task, result, result_exists, children_clean, streams, exit_code);
    let counted = counted_responses(events.response_count, events.response_completed, attempts);
    let command_started = trace.command_starts.len() > 0;
    let command_observed = command_started && events.commands.len() > 0;
    let compliant = backend_compliant(task.background, events, command_started);
    ArmChecks {
        relay_status: crate::m5_runner::relay_status(attempts),
        observability: observability(counted.0, attempts.len(), counted.1, events.parse_errors, events.turn_completed, agent.timed_out),
        backend_observation: backend_observation(backend, command_observed, trace.launcher_starts, trace.launcher_exits, compliant),
        completed: events.turn_completed && agent.exit_code == 0 && !agent.timed_out,
        usage_complete: usage_complete(attempts),
        correct_output: outputs.0 && outputs.1 && outputs.2,
        inputs_preserved: workspace_state.inputs_preserved,
        workspace_clean: workspace_state.manifest_matches && workspace_state.entries_safe
            && workspace_diff_flags_clean(&workspace_state.diff),
        child_processes_clean: children_clean,
        receipt_valid: crate::m5_runner::receipt_valid(task, receipt),
        trace_complete: crate::m5_runner::trace_complete(task, trace),
        argv_cwd_valid: crate::m5_runner::argv_cwd_valid(task, trace, workspace),
        approval_original_command: approval_original_command(events, launcher, mbtx, workspace),
        timed_out: agent.timed_out,
        result_correct: outputs.0,
        streams_correct: outputs.1,
        exit_correct: outputs.2,
        exit_code,
    }
}

/// The request the evidence tool classifies: the checks by name.
pub open spec fn spec_classify_request(c: ChecksView) -> Json {
    Json::Object(seq![
        ("approval_original_command"@, Json::Bool(c.approval_original_command)),
        ("argv_cwd_valid"@, Json::Bool(c.argv_cwd_valid)),
        ("backend_observation"@, Json::Str(c.backend_observation)),
        ("child_processes_clean"@, Json::Bool(c.child_processes_clean)),
        ("completed"@, Json::Bool(c.completed)),
        ("correct_output"@, Json::Bool(c.correct_output)),
        ("inputs_preserved"@, Json::Bool(c.inputs_preserved)),
        ("observability"@, Json::Str(c.observability)),
        ("receipt_valid"@, Json::Bool(c.receipt_valid)),
        ("relay_status"@, Json::Str(c.relay_status)),
        ("timeout"@, Json::Bool(c.timed_out)),
        ("trace_complete"@, Json::Bool(c.trace_complete)),
        ("usage_complete"@, Json::Bool(c.usage_complete)),
        ("workspace_clean"@, Json::Bool(c.workspace_clean)),
    ])
}

/// Writes the request the evidence tool classifies.
#[verifier::spinoff_prover]
#[verifier::rlimit(100)]
pub fn classify_request(c: &ArmChecks) -> (r: JsonValue)
    ensures
        r@ == spec_classify_request(c@),
{
    let mut m: Vec<(String, JsonValue)> = Vec::new();
    assert(crate::json_object::member_views(m@) =~= Seq::<(Seq<char>, Json)>::empty());
    crate::json_object::push_member(&mut m, "approval_original_command", JsonValue::Bool(c.approval_original_command));
    crate::json_object::push_member(&mut m, "argv_cwd_valid", JsonValue::Bool(c.argv_cwd_valid));
    crate::json_object::push_member(&mut m, "backend_observation", text_value(c.backend_observation));
    crate::json_object::push_member(&mut m, "child_processes_clean", JsonValue::Bool(c.child_processes_clean));
    crate::json_object::push_member(&mut m, "completed", JsonValue::Bool(c.completed));
    crate::json_object::push_member(&mut m, "correct_output", JsonValue::Bool(c.correct_output));
    crate::json_object::push_member(&mut m, "inputs_preserved", JsonValue::Bool(c.inputs_preserved));
    crate::json_object::push_member(&mut m, "observability", text_value(c.observability));
    crate::json_object::push_member(&mut m, "receipt_valid", JsonValue::Bool(c.receipt_valid));
    crate::json_object::push_member(&mut m, "relay_status", text_value(c.relay_status));
    crate::json_object::push_member(&mut m, "timeout", JsonValue::Bool(c.timed_out));
    crate::json_object::push_member(&mut m, "trace_complete", JsonValue::Bool(c.trace_complete));
    crate::json_object::push_member(&mut m, "usage_complete", JsonValue::Bool(c.usage_complete));
    crate::json_object::push_member(&mut m, "workspace_clean", JsonValue::Bool(c.workspace_clean));
    let ghost cv = c@;
    assert(crate::json_object::member_views(m@) =~= seq![
        ("approval_original_command"@, Json::Bool(cv.approval_original_command)),
        ("argv_cwd_valid"@, Json::Bool(cv.argv_cwd_valid)),
        ("backend_observation"@, Json::Str(cv.backend_observation)),
        ("child_processes_clean"@, Json::Bool(cv.child_processes_clean)),
        ("completed"@, Json::Bool(cv.completed)),
        ("correct_output"@, Json::Bool(cv.correct_output)),
        ("inputs_preserved"@, Json::Bool(cv.inputs_preserved)),
        ("observability"@, Json::Str(cv.observability)),
        ("receipt_valid"@, Json::Bool(cv.receipt_valid)),
        ("relay_status"@, Json::Str(cv.relay_status)),
        ("timeout"@, Json::Bool(cv.timed_out)),
        ("trace_complete"@, Json::Bool(cv.trace_complete)),
        ("usage_complete"@, Json::Bool(cv.usage_complete)),
        ("workspace_clean"@, Json::Bool(cv.workspace_clean)),
    ]);
    let r = crate::json_object::object_of(m);
    r
}


/// Sets a member to a number where there is one.
pub open spec fn opt_member(row: Json, key: Seq<char>, v: Option<i64>) -> Json {
    match v {
        Some(x) => spec_with_member(row, key, i64_json(x)),
        None => row,
    }
}

/// The run's timings, relative to the agent's start: a start and an end
/// always, and each event marker only where its event was seen (tool
/// times only with commands, the completed turn only when it completed,
/// process times only with traced helper starts and exits).
pub open spec fn with_timings(row: Json, agent: AgentResult, e: EventView, trace: TraceSummary) -> Json {
    let r1 = spec_with_member(row, "started_ms"@, zero());
    let r2 = spec_with_member(r1, "monotonic_start_ms"@, zero());
    let r3 = spec_with_member(r2, "monotonic_end_ms"@, i64_json(agent.elapsed_ms));
    let r4 = spec_with_member(r3, "ended_ms"@, i64_json(agent.elapsed_ms));
    let r5 = opt_member(r4, "first_response_ms"@, agent.first_response_ms);
    let r6 = opt_member(r5, "first_tool_ms"@, if e.commands.len() == 0 { None } else { agent.first_tool_ms });
    let r7 = opt_member(r6, "last_tool_ms"@, if e.commands.len() == 0 { None } else { agent.last_tool_ms });
    let r8 = opt_member(r7, "turn_completed_ms"@, if e.turn_completed { agent.turn_completed_ms } else { None });
    let r9 = opt_member(r8, "process_launch_ms"@, if trace.command_starts@.len() == 0 { None } else { Some(agent.process_launch_ms) });
    opt_member(r9, "process_exit_ms"@, if trace.command_exits@.len() == 0 { None } else { Some(agent.process_exit_ms) })
}

/// The tool counts as a JSON object.
pub open spec fn tools_json(t: Seq<(Seq<char>, i64)>) -> Json {
    Json::Object(Seq::new(t.len(), |i: int| (t[i].0, i64_json(t[i].1))))
}

/// Strings as a JSON array.
pub open spec fn texts_json(t: Seq<Seq<char>>) -> Json {
    Json::Array(Seq::new(t.len(), |i: int| Json::Str(t[i])))
}

/// The run's outputs and counts: the helpers' (sanitized) streams and exit,
/// the workspace manifest, the attempts, the tool counts and the tokens.
pub open spec fn with_outputs(row: Json, stdout: Seq<char>, stderr: Seq<char>, exit_code: i32, manifest: Seq<Seq<char>>,
    attempts: Seq<AttemptView>, tools: Seq<(Seq<char>, i64)>) -> Json {
    let r1 = spec_with_member(row, "stdout"@, Json::Str(stdout));
    let r2 = spec_with_member(r1, "stderr"@, Json::Str(stderr));
    let r3 = spec_with_member(r2, "exit_code"@, crate::evidence::int_number(exit_code));
    let r4 = spec_with_member(r3, "workspace_manifest"@, texts_json(manifest));
    let r5 = spec_with_member(r4, "attempts"@, Json::Array(Seq::new(attempts.len(), |i: int| attempts[i].value)));
    let r6 = spec_with_member(r5, "tool_counts"@, tools_json(tools));
    let r7 = spec_with_member(r6, "input_tokens"@, i64_json(crate::m5_runner::token_total(attempts, "input_tokens"@, attempts.len() as int) as i64));
    let r8 = spec_with_member(r7, "cached_input_tokens"@, i64_json(crate::m5_runner::token_total(attempts, "cached_input_tokens"@, attempts.len() as int) as i64));
    spec_with_member(r8, "output_tokens"@, i64_json(crate::m5_runner::token_total(attempts, "output_tokens"@, attempts.len() as int) as i64))
}

/// The runner's own classification of the checks.
pub open spec fn local_category(c: ChecksView) -> Seq<char> {
    crate::m5_runner::spec_local_classify(c.relay_status, c.observability, c.backend_observation, c.completed,
        c.usage_complete, c.correct_output, c.inputs_preserved, c.workspace_clean, c.child_processes_clean,
        c.receipt_valid, c.trace_complete, c.argv_cwd_valid, c.approval_original_command, c.timed_out)
}

/// The run's checks, the workspace difference, the receipt, the process
/// trace, the failure category, how the agent ended, and the result.
pub open spec fn with_checks(row: Json, c: ChecksView, diff: Json, receipt: Json, labels: Seq<Seq<char>>, category: Seq<char>,
    agent_exit: i32, result: Json) -> Json {
    let r1 = spec_with_member(row, "relay_status"@, Json::Str(c.relay_status));
    let r2 = spec_with_member(r1, "observability"@, Json::Str(c.observability));
    let r3 = spec_with_member(r2, "backend_observation"@, Json::Str(c.backend_observation));
    let r4 = spec_with_member(r3, "completed"@, Json::Bool(c.completed));
    let r5 = spec_with_member(r4, "usage_complete"@, Json::Bool(c.usage_complete));
    let r6 = spec_with_member(r5, "correct_output"@, Json::Bool(c.correct_output));
    let r7 = spec_with_member(r6, "inputs_preserved"@, Json::Bool(c.inputs_preserved));
    let r8 = spec_with_member(r7, "workspace_clean"@, Json::Bool(c.workspace_clean));
    let r9 = spec_with_member(r8, "child_processes_clean"@, Json::Bool(c.child_processes_clean));
    let r10 = spec_with_member(r9, "receipt_valid"@, Json::Bool(c.receipt_valid));
    let r11 = spec_with_member(r10, "trace_complete"@, Json::Bool(c.trace_complete));
    let r12 = spec_with_member(r11, "argv_cwd_valid"@, Json::Bool(c.argv_cwd_valid));
    let r13 = spec_with_member(r12, "approval_original_command"@, Json::Bool(c.approval_original_command));
    let r14 = spec_with_member(r13, "workspace_diff"@, diff);
    let r15 = spec_with_member(r14, "receipt"@, receipt);
    let r16 = spec_with_member(r15, "process_trace"@, texts_json(labels));
    let r17 = spec_with_member(r16, "failure_category"@, Json::Str(category));
    let r18 = spec_with_member(r17, "agent_exit_code"@, crate::evidence::int_number(agent_exit));
    let r19 = spec_with_member(r18, "timed_out"@, Json::Bool(c.timed_out));
    let r20 = spec_with_member(r19, "result"@, result);
    let r21 = spec_with_member(r20, "result_correct"@, Json::Bool(c.result_correct));
    let r22 = spec_with_member(r21, "streams_correct"@, Json::Bool(c.streams_correct));
    let r23 = spec_with_member(r22, "exit_correct"@, Json::Bool(c.exit_correct));
    spec_with_member(r23, "timing_quality"@, Json::Str("agent event capture monotonic; proxy exchange wall-clock filename"@))
}

fn opt_set(row: JsonValue, key: &str, v: Option<i64>) -> (r: JsonValue)
    requires
        row@ is Object,
    ensures
        r@ == opt_member(row@, key@, v),
        r@ is Object,
{
    match v {
        Some(x) => with_member(row, key, crate::m5_runner::i64_value(x)),
        None => row,
    }
}

fn set_timings(row: JsonValue, agent: &AgentResult, events: &EventSummary, trace: &TraceSummary) -> (r: JsonValue)
    requires
        row@ is Object,
    ensures
        r@ == with_timings(row@, *agent, events.view(), *trace),
        r@ is Object,
{
    let zero_value = JsonValue::Number(JsonNumber::PosInt(0));
    let r1 = with_member(row, "started_ms", zero_value);
    let r2 = with_member(r1, "monotonic_start_ms", JsonValue::Number(JsonNumber::PosInt(0)));
    let r3 = with_member(r2, "monotonic_end_ms", crate::m5_runner::i64_value(agent.elapsed_ms));
    let r4 = with_member(r3, "ended_ms", crate::m5_runner::i64_value(agent.elapsed_ms));
    let r5 = opt_set(r4, "first_response_ms", agent.first_response_ms);
    let no_commands = events.commands.len() == 0;
    assert(no_commands == (events.view().commands.len() == 0));
    let r6 = opt_set(r5, "first_tool_ms", if no_commands { None } else { agent.first_tool_ms });
    let r7 = opt_set(r6, "last_tool_ms", if no_commands { None } else { agent.last_tool_ms });
    let r8 = opt_set(r7, "turn_completed_ms", if events.turn_completed { agent.turn_completed_ms } else { None });
    let r9 = opt_set(r8, "process_launch_ms", if trace.command_starts.len() == 0 { None } else { Some(agent.process_launch_ms) });
    opt_set(r9, "process_exit_ms", if trace.command_exits.len() == 0 { None } else { Some(agent.process_exit_ms) })
}

fn texts_value(t: &Vec<String>) -> (r: JsonValue)
    ensures
        r@ == texts_json(crate::collection::arg_views(t@)),
{
    let mut out: Vec<JsonValue> = Vec::new();
    let mut i: usize = 0;
    while i < t.len()
        invariant
            i <= t@.len(),
            out@.len() == i,
            forall|j: int| 0 <= j < i ==> (#[trigger] out@[j])@ == Json::Str(t@[j]@),
        decreases t.len() - i,
    {
        out.push(text_value(t[i].as_str()));
        i += 1;
    }
    let r = JsonValue::Array(out);
    assert(r@ == texts_json(crate::collection::arg_views(t@))) by {
        if let Json::Array(a) = r@ {
            assert(a =~= Seq::new(t@.len(), |j: int| Json::Str(crate::collection::arg_views(t@)[j])));
        }
    }
    r
}

fn attempts_value(attempts: &[AttemptRecord]) -> (r: JsonValue)
    ensures
        r@ == Json::Array(Seq::new(attempts@.len(), |i: int| attempt_views(attempts@)[i].value)),
{
    let mut out: Vec<JsonValue> = Vec::new();
    let mut i: usize = 0;
    while i < attempts.len()
        invariant
            i <= attempts@.len(),
            out@.len() == i,
            forall|j: int| 0 <= j < i ==> (#[trigger] out@[j])@ == attempts@[j].value@,
        decreases attempts.len() - i,
    {
        out.push(attempts[i].value.copy());
        i += 1;
    }
    let r = JsonValue::Array(out);
    assert(r@ == Json::Array(Seq::new(attempts@.len(), |i: int| attempt_views(attempts@)[i].value))) by {
        if let Json::Array(a) = r@ {
            assert(a =~= Seq::new(attempts@.len(), |i: int| attempt_views(attempts@)[i].value));
        }
    }
    r
}

fn tools_value(t: &Vec<(String, i64)>) -> (r: JsonValue)
    ensures
        r@ == tools_json(tool_view(t@)),
{
    let mut m: Vec<(String, JsonValue)> = Vec::new();
    let mut i: usize = 0;
    while i < t.len()
        invariant
            i <= t@.len(),
            crate::json_object::member_views(m@) == Seq::new(i as nat, |j: int| (tool_view(t@)[j].0, i64_json(tool_view(t@)[j].1))),
        decreases t.len() - i,
    {
        let ghost before = crate::json_object::member_views(m@);
        crate::json_object::push_member(&mut m, t[i].0.as_str(), crate::m5_runner::i64_value(t[i].1));
        assert(crate::json_object::member_views(m@) =~= Seq::new((i + 1) as nat, |j: int| (tool_view(t@)[j].0, i64_json(tool_view(t@)[j].1))));
        i += 1;
    }
    let r = crate::json_object::object_of(m);
    assert(r@ =~= tools_json(tool_view(t@))) by {
        if let Json::Object(a) = r@ {
            assert(a =~= Seq::new(t@.len(), |j: int| (tool_view(t@)[j].0, i64_json(tool_view(t@)[j].1))));
        }
    }
    r
}

#[verifier::spinoff_prover]
fn set_outputs(row: JsonValue, stdout: &str, stderr: &str, exit_code: i32, manifest: &Vec<String>,
    attempts: &[AttemptRecord], tools: &Vec<(String, i64)>) -> (r: JsonValue)
    requires
        row@ is Object,
        crate::m5_runner::tokens_fit(attempt_views(attempts@), "input_tokens"@),
        crate::m5_runner::tokens_fit(attempt_views(attempts@), "cached_input_tokens"@),
        crate::m5_runner::tokens_fit(attempt_views(attempts@), "output_tokens"@),
    ensures
        r@ == with_outputs(row@, stdout@, stderr@, exit_code, crate::collection::arg_views(manifest@),
            attempt_views(attempts@), tool_view(tools@)),
        r@ is Object,
{
    let ghost av = attempt_views(attempts@);
    let r1 = with_member(row, "stdout", text_value(stdout));
    let r2 = with_member(r1, "stderr", text_value(stderr));
    let r3 = with_member(r2, "exit_code", crate::startup::i32_value(exit_code));
    let r4 = with_member(r3, "workspace_manifest", texts_value(manifest));
    let av_value = attempts_value(attempts);
    assert(av.len() == attempts@.len());
    let r5 = with_member(r4, "attempts", av_value);
    let r6 = with_member(r5, "tool_counts", tools_value(tools));
    proof {
        assert(i64::MIN <= crate::m5_runner::token_total(av, "input_tokens"@, av.len() as int) <= i64::MAX);
    }
    let input = crate::m5_runner::attempt_input_tokens(attempts);
    let cached = crate::m5_runner::attempt_cached_tokens(attempts);
    let output = crate::m5_runner::attempt_output_tokens(attempts);
    let r7 = with_member(r6, "input_tokens", crate::m5_runner::i64_value(input));
    let r8 = with_member(r7, "cached_input_tokens", crate::m5_runner::i64_value(cached));
    with_member(r8, "output_tokens", crate::m5_runner::i64_value(output))
}

#[verifier::spinoff_prover]
#[verifier::rlimit(40)]
fn set_checks(row: JsonValue, c: &ArmChecks, diff: JsonValue, receipt: JsonValue, labels: &Vec<String>, category: &str,
    agent_exit: i32, result: JsonValue) -> (r: JsonValue)
    requires
        row@ is Object,
    ensures
        r@ == with_checks(row@, c@, diff@, receipt@, crate::collection::arg_views(labels@), category@, agent_exit, result@),
{
    let r1 = with_member(row, "relay_status", text_value(c.relay_status));
    let r2 = with_member(r1, "observability", text_value(c.observability));
    let r3 = with_member(r2, "backend_observation", text_value(c.backend_observation));
    let r4 = with_member(r3, "completed", JsonValue::Bool(c.completed));
    let r5 = with_member(r4, "usage_complete", JsonValue::Bool(c.usage_complete));
    let r6 = with_member(r5, "correct_output", JsonValue::Bool(c.correct_output));
    let r7 = with_member(r6, "inputs_preserved", JsonValue::Bool(c.inputs_preserved));
    let r8 = with_member(r7, "workspace_clean", JsonValue::Bool(c.workspace_clean));
    let r9 = with_member(r8, "child_processes_clean", JsonValue::Bool(c.child_processes_clean));
    let r10 = with_member(r9, "receipt_valid", JsonValue::Bool(c.receipt_valid));
    let r11 = with_member(r10, "trace_complete", JsonValue::Bool(c.trace_complete));
    let r12 = with_member(r11, "argv_cwd_valid", JsonValue::Bool(c.argv_cwd_valid));
    let r13 = with_member(r12, "approval_original_command", JsonValue::Bool(c.approval_original_command));
    let r14 = with_member(r13, "workspace_diff", diff);
    let r15 = with_member(r14, "receipt", receipt);
    let r16 = with_member(r15, "process_trace", texts_value(labels));
    let r17 = with_member(r16, "failure_category", text_value(category));
    let r18 = with_member(r17, "agent_exit_code", crate::startup::i32_value(agent_exit));
    let r19 = with_member(r18, "timed_out", JsonValue::Bool(c.timed_out));
    let r20 = with_member(r19, "result", result);
    let r21 = with_member(r20, "result_correct", JsonValue::Bool(c.result_correct));
    let r22 = with_member(r21, "streams_correct", JsonValue::Bool(c.streams_correct));
    let r23 = with_member(r22, "exit_correct", JsonValue::Bool(c.exit_correct));
    with_member(r23, "timing_quality", text_value("agent event capture monotonic; proxy exchange wall-clock filename"))
}

/// The record of an arm that ran, from its base record, timings, outputs
/// and checks; its failure category is the evidence tool's answer where it
/// gave one, the runner's own classification otherwise.
pub open spec fn spec_arm_record(block_id: Seq<char>, task: TaskSpec, backend: Seq<char>, agent: AgentResult, e: EventView,
    tools: Seq<(Seq<char>, i64)>, attempts: Seq<AttemptView>, trace: TraceSummary, c: ChecksView, answer: Option<Json>,
    stdout: Seq<char>, stderr: Seq<char>, manifest: Seq<Seq<char>>, diff: Json, receipt: Json, result: Json) -> Json {
    let timed = with_timings(crate::arm_verdict::spec_base_run(block_id, task.id@, backend), agent, e, trace);
    let counted = with_outputs(timed, stdout, stderr, c.exit_code, manifest, attempts, tools);
    with_checks(counted, c, diff, receipt, crate::collection::arg_views(trace.labels@),
        spec_category(answer, local_category(c)), agent.exit_code, result)
}

/// Writes the record of an arm that ran. `answer` is what the evidence tool
/// wrote for the classification request (`None` where it could not be run
/// or failed); `stdout` and `stderr` are the helpers' sanitized streams.
pub fn arm_record(
    block_id: &str,
    task: &TaskSpec,
    backend: &str,
    agent: &AgentResult,
    events: &EventSummary,
    attempts: &[AttemptRecord],
    trace: &TraceSummary,
    checks: &ArmChecks,
    answer: Option<&[u8]>,
    stdout: &str,
    stderr: &str,
    manifest: &Vec<String>,
    diff: JsonValue,
    receipt: JsonValue,
    result: JsonValue,
) -> (r: JsonValue)
    requires
        crate::m5_runner::tokens_fit(attempt_views(attempts@), "input_tokens"@),
        crate::m5_runner::tokens_fit(attempt_views(attempts@), "cached_input_tokens"@),
        crate::m5_runner::tokens_fit(attempt_views(attempts@), "output_tokens"@),
    ensures
        r@ == spec_arm_record(block_id@, *task, backend@, *agent, events.view(), tool_view(events.tool_counts@),
            attempt_views(attempts@), *trace, checks@, match answer { Some(b) => crate::json::json_parse(b@), None => None },
            stdout@, stderr@, crate::collection::arg_views(manifest@), diff@, receipt@, result@),
{
    let category = failure_category(answer, checks.relay_status, checks.observability, checks.backend_observation,
        checks.completed, checks.usage_complete, checks.correct_output, checks.inputs_preserved, checks.workspace_clean,
        checks.child_processes_clean, checks.receipt_valid, checks.trace_complete, checks.argv_cwd_valid,
        checks.approval_original_command, checks.timed_out);
    let base = crate::arm_verdict::base_run(block_id, task.id.as_str(), backend);
    let timed = set_timings(base, agent, events, trace);
    let counted = set_outputs(timed, stdout, stderr, checks.exit_code, manifest, attempts, &events.tool_counts);
    set_checks(counted, checks, diff, receipt, &trace.labels, category.as_str(), agent.exit_code, result)
}

} // verus!
