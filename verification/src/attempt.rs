//! Decisions inside one collected arm: when a fixture is cancelled on
//! purpose, when the arm ended, and which trace rows its result keeps.
use vstd::prelude::*;
use crate::json::{Json, JsonValue, spec_as_str, spec_as_u64, spec_field, spec_is_text, spec_member};
use crate::json::{JsonNumber, Num};
use crate::json_object::{extend_members, json_eq, member_views, object_of, push_member, set_member, spec_extend, spec_set, spec_with_member, text_value, with_member};
use crate::text::{owned, push_all};
use crate::text::{chars_of, ends_with_chars, spec_ends_with};

verus! {

/// How long a fixture must have been ready before its controlled
/// cancellation, so that `exec_command` can publish its session first.
pub const CONTROL_DELAY_NS: u64 = 1250000000;

/// The control mode a task expects of its fixture: `control_mode` where the
/// task has it, else `check`.
pub open spec fn expected_mode(task: Json) -> Json {
    match spec_member(task, "control_mode"@) {
        Some(m) => m,
        None => spec_field(task, "check"@),
    }
}

/// Whether a fixture receipt calls for the controlled cancellation now: the
/// task asks for control, the receipt is a ready receipt in the expected
/// mode, the process was identified and not yet controlled, and it has been
/// ready for at least [`CONTROL_DELAY_NS`] (counted from the spawn where the
/// receipt has no time).
pub open spec fn spec_control_due(task: Json, path: Seq<char>, receipt: Json, identified: bool, controlled: bool, now: u64, begin: u64) -> bool {
    let control = match spec_as_str(spec_field(task, "control"@)) { Some(c) => c, None => "none"@ };
    let ready = match spec_as_u64(spec_field(receipt, "ready_ns"@)) { Some(r) => r, None => begin };
    &&& control != "none"@
    &&& spec_ends_with(path, ".ready.json"@)
    &&& crate::json_object::json_same(spec_field(receipt, "mode"@), expected_mode(task))
    &&& !controlled
    &&& identified
    &&& (if now >= ready { now - ready } else { 0 }) >= CONTROL_DELAY_NS
}

/// Decides whether to cancel a fixture on purpose now.
pub fn control_due(task: &JsonValue, path: &str, receipt: &JsonValue, identified: bool, controlled: bool, now: u64, begin: u64) -> (r: bool)
    ensures
        r == spec_control_due(task@, path@, receipt@, identified, controlled, now, begin),
{
    let control = match task.field_str("control") {
        Some(c) => crate::json::str_eq(c, "none"),
        None => true,
    };
    if control {
        return false;
    }
    let p = chars_of(path);
    let suffix = chars_of(".ready.json");
    if !ends_with_chars(p.as_slice(), suffix.as_slice()) {
        return false;
    }
    let mode = match task.get("control_mode") {
        Some(m) => m.copy(),
        None => task.field("check"),
    };
    if !json_eq(&receipt.field("mode"), &mode) || controlled || !identified {
        return false;
    }
    let ready = match receipt.field("ready_ns").as_u64() {
        Some(r) => r,
        None => begin,
    };
    let waited = if now >= ready { now - ready } else { 0 };
    waited >= CONTROL_DELAY_NS
}

/// When an arm ended: the later of Codex's exit and the end of its output,
/// known only when both are.
pub open spec fn spec_observed_end(wait: Option<u64>, stdout_end: Option<u64>, stderr_end: Option<u64>) -> Option<u64> {
    match (wait, stdout_end, stderr_end) {
        (Some(w), Some(a), Some(b)) => {
            let io = if a >= b { a } else { b };
            Some(if w >= io { w } else { io })
        },
        _ => None,
    }
}

/// When an arm ended.
pub fn observed_end(wait: Option<u64>, stdout_end: Option<u64>, stderr_end: Option<u64>) -> (r: Option<u64>)
    ensures
        r == spec_observed_end(wait, stdout_end, stderr_end),
{
    match (wait, stdout_end, stderr_end) {
        (Some(w), Some(a), Some(b)) => {
            let io = if a >= b { a } else { b };
            Some(if w >= io { w } else { io })
        },
        _ => None,
    }
}

/// The rows among the first `n` that satisfy `keep`, in order.
pub open spec fn kept(rows: Seq<Json>, keep: spec_fn(Json) -> bool, n: int) -> Seq<Json>
    decreases n,
{
    if n <= 0 || n > rows.len() {
        Seq::empty()
    } else if keep(rows[n - 1]) {
        kept(rows, keep, n - 1).push(rows[n - 1])
    } else {
        kept(rows, keep, n - 1)
    }
}

/// Whether a trace row is a tool result.
pub open spec fn is_tool_result(row: Json) -> bool {
    spec_is_text(spec_field(row, "phase"@), "tool"@) && spec_is_text(spec_field(row, "event"@), "result_ready"@)
}

/// The tool results of a trace, in order.
pub fn tool_results(rows: &[JsonValue]) -> (r: Vec<JsonValue>)
    ensures
        crate::evidence::value_views(r@) == kept(crate::evidence::value_views(rows@), |row: Json| is_tool_result(row), rows@.len() as int),
{
    let ghost v = crate::evidence::value_views(rows@);
    let mut out: Vec<JsonValue> = Vec::new();
    let mut i: usize = 0;
    while i < rows.len()
        invariant
            i <= rows.len(),
            v == crate::evidence::value_views(rows@),
            crate::evidence::value_views(out@) == kept(v, |row: Json| is_tool_result(row), i as int),
        decreases rows.len() - i,
    {
        let row = &rows[i];
        assert(v[i as int] == row@);
        let ghost before = crate::evidence::value_views(out@);
        if row.field("phase").is_text("tool") && row.field("event").is_text("result_ready") {
            out.push(row.copy());
            assert(crate::evidence::value_views(out@) =~= before.push(v[i as int]));
        }
        i += 1;
    }
    out
}

/// The shell modes that the trace's execution paths report, in order.
pub open spec fn modes_upto(rows: Seq<Json>, n: int) -> Seq<Json>
    decreases n,
{
    if n <= 0 || n > rows.len() {
        Seq::empty()
    } else if spec_is_text(spec_field(rows[n - 1], "event"@), "execution_path"@) {
        modes_upto(rows, n - 1).push(spec_field(rows[n - 1], "shell_mode"@))
    } else {
        modes_upto(rows, n - 1)
    }
}

/// The shell modes of a trace.
pub fn shell_modes(rows: &[JsonValue]) -> (r: Vec<JsonValue>)
    ensures
        crate::evidence::value_views(r@) == modes_upto(crate::evidence::value_views(rows@), rows@.len() as int),
{
    let ghost v = crate::evidence::value_views(rows@);
    let mut out: Vec<JsonValue> = Vec::new();
    let mut i: usize = 0;
    while i < rows.len()
        invariant
            i <= rows.len(),
            v == crate::evidence::value_views(rows@),
            crate::evidence::value_views(out@) == modes_upto(v, i as int),
        decreases rows.len() - i,
    {
        let row = &rows[i];
        assert(v[i as int] == row@);
        let ghost before = crate::evidence::value_views(out@);
        if row.field("event").is_text("execution_path") {
            let mode = row.field("shell_mode");
            let ghost m = mode@;
            out.push(mode);
            assert(crate::evidence::value_views(out@) =~= before.push(m));
        }
        i += 1;
    }
    out
}

/// The result of a sealed arm that is reused, marked as such.
pub fn reused_row(result: JsonValue) -> (r: JsonValue)
    requires
        result@ is Object || result@ is Null,
    ensures
        r@ == spec_with_member(result@, "reused"@, Json::Bool(true)),
{
    with_member(result, "reused", JsonValue::Bool(true))
}

/// What becomes of an arm whose attempt directory already exists.
pub enum ExistingAttempt {
    /// Its sealed result is reused.
    Reuse,
    /// It was interrupted before it was sealed: it is recorded as censored.
    Censor,
}

/// The decision for an existing attempt directory: a sealed one is reused
/// only where its seal checks out (`verdict` is the seal's status object),
/// and is refused as modified otherwise; an unsealed one is censored.
pub open spec fn spec_existing_attempt(sealed: bool, verdict: Json) -> Result<ExistingAttempt, Seq<char>> {
    if sealed {
        if spec_is_text(spec_field(verdict, "status"@), "success"@) {
            Ok(ExistingAttempt::Reuse)
        } else {
            Err("sealed attempt was modified"@)
        }
    } else {
        Ok(ExistingAttempt::Censor)
    }
}

/// Decides what an existing attempt directory gives; `sealed` tells whether
/// it holds a `seal.json`, and `verdict` is what checking that seal gave.
pub fn existing_attempt(sealed: bool, verdict: &JsonValue) -> (r: Result<ExistingAttempt, String>)
    ensures
        match spec_existing_attempt(sealed, verdict@) {
            Ok(ExistingAttempt::Reuse) => r matches Ok(ExistingAttempt::Reuse),
            Ok(ExistingAttempt::Censor) => r matches Ok(ExistingAttempt::Censor),
            Err(m) => r matches Err(e) && e@ == m,
        },
{
    if sealed {
        if verdict.field("status").is_text("success") {
            Ok(ExistingAttempt::Reuse)
        } else {
            Err(crate::text::owned("sealed attempt was modified"))
        }
    } else {
        Ok(ExistingAttempt::Censor)
    }
}

/// What one collected arm observed, as its facts file records it.
pub struct AttemptEvidence {
    pub task: JsonValue,
    pub platform: String,
    pub collector_pid_namespace: JsonValue,
    pub actual_steps: Vec<JsonValue>,
    pub commands: Vec<JsonValue>,
    pub tool_results: Vec<JsonValue>,
    pub receipts: Vec<JsonValue>,
    pub streams: Vec<JsonValue>,
    pub trace: Vec<JsonValue>,
    pub codex_reported_usage: Option<JsonValue>,
    pub relay_snapshot_complete: bool,
    pub infrastructure: String,
    pub turn_completed: bool,
    pub processes_clean: Option<bool>,
    pub unidentified_live: Vec<JsonValue>,
    pub workspace: String,
    pub home: String,
    pub fixture: String,
}

/// What the facts file says of process clean-up.
pub open spec fn cleanup_scope() -> Seq<char> {
    "observed fixture processes; detached/unobserved descendants are not inferred reaped"@
}

/// The facts of an arm, handed to the evaluation model and kept as
/// `facts.json`.
pub open spec fn spec_attempt_facts(e: AttemptEvidence) -> Json {
    let vv = |v: Vec<JsonValue>| Json::Array(crate::evidence::value_views(v@));
    Json::Object(seq![
        ("actual_steps"@, vv(e.actual_steps)),
        ("cleanup_scope"@, Json::Str(cleanup_scope())),
        ("codex_reported_usage"@, match e.codex_reported_usage { Some(u) => u@, None => Json::Null }),
        ("collector_pid_namespace"@, e.collector_pid_namespace@),
        ("commands"@, vv(e.commands)),
        ("fixture"@, Json::Str(e.fixture@)),
        ("home"@, Json::Str(e.home@)),
        ("infrastructure"@, Json::Str(e.infrastructure@)),
        ("platform"@, Json::Str(e.platform@)),
        ("processes_clean"@, match e.processes_clean { Some(b) => Json::Bool(b), None => Json::Null }),
        ("receipts"@, vv(e.receipts)),
        ("relay_snapshot_complete"@, Json::Bool(e.relay_snapshot_complete)),
        ("streams"@, vv(e.streams)),
        ("task"@, e.task@),
        ("tool_results"@, vv(e.tool_results)),
        ("trace"@, vv(e.trace)),
        ("turn_completed"@, Json::Bool(e.turn_completed)),
        ("unidentified_live"@, vv(e.unidentified_live)),
        ("workspace"@, Json::Str(e.workspace@)),
    ])
}

/// Builds the facts of an arm (see [`spec_attempt_facts`]).
pub fn attempt_facts(e: &AttemptEvidence) -> (r: JsonValue)
    ensures
        r@ == spec_attempt_facts(*e),
{
    let mut m: Vec<(String, JsonValue)> = Vec::new();
    push_member(&mut m, "actual_steps", crate::evidence::array_copy(&e.actual_steps));
    push_member(&mut m, "cleanup_scope", text_value("observed fixture processes; detached/unobserved descendants are not inferred reaped"));
    push_member(&mut m, "codex_reported_usage", match &e.codex_reported_usage { Some(u) => u.copy(), None => JsonValue::Null });
    push_member(&mut m, "collector_pid_namespace", e.collector_pid_namespace.copy());
    push_member(&mut m, "commands", crate::evidence::array_copy(&e.commands));
    push_member(&mut m, "fixture", text_value(e.fixture.as_str()));
    push_member(&mut m, "home", text_value(e.home.as_str()));
    push_member(&mut m, "infrastructure", text_value(e.infrastructure.as_str()));
    push_member(&mut m, "platform", text_value(e.platform.as_str()));
    push_member(&mut m, "processes_clean", match e.processes_clean { Some(b) => JsonValue::Bool(b), None => JsonValue::Null });
    push_member(&mut m, "receipts", crate::evidence::array_copy(&e.receipts));
    push_member(&mut m, "relay_snapshot_complete", JsonValue::Bool(e.relay_snapshot_complete));
    push_member(&mut m, "streams", crate::evidence::array_copy(&e.streams));
    push_member(&mut m, "task", e.task.copy());
    push_member(&mut m, "tool_results", crate::evidence::array_copy(&e.tool_results));
    push_member(&mut m, "trace", crate::evidence::array_copy(&e.trace));
    push_member(&mut m, "turn_completed", JsonValue::Bool(e.turn_completed));
    push_member(&mut m, "unidentified_live", crate::evidence::array_copy(&e.unidentified_live));
    push_member(&mut m, "workspace", text_value(e.workspace.as_str()));
    assert(member_views(m@) =~= match spec_attempt_facts(*e) { Json::Object(ms) => ms, _ => Seq::empty() });
    object_of(m)
}

/// An optional whole number as JSON.
pub open spec fn opt_count_json(n: Option<u64>) -> Json {
    match n {
        Some(v) => Json::Number(Num::PosInt(v)),
        None => Json::Null,
    }
}

/// An optional `i32` as JSON.
pub open spec fn opt_i32_json(n: Option<i32>) -> Json {
    match n {
        Some(v) => crate::evidence::int_number(v),
        None => Json::Null,
    }
}

/// The result of an arm: the evaluation model's assessment, which must
/// have a status, with the arm's context added and its measurements set:
/// the elapsed time (`elapsed`, as the collector computed it), the begin
/// and end of the run, the exit code and signal of Codex, the artifact
/// directory `attempts/<id>`, and the shell modes its trace shows.
pub open spec fn spec_arm_result(assessment: Json, context: Json, elapsed: Json, begin: u64, end: Option<u64>,
    exit_code: Option<i32>, signal: Option<i32>, id: Seq<char>, rows: Seq<Json>) -> Result<Json, Seq<char>> {
    if spec_member(assessment, "status"@) is None {
        Err("evaluation model rejected facts: "@ + crate::json::json_text(assessment))
    } else {
        let m0 = spec_extend(crate::evidence::members_of(assessment), crate::evidence::members_of(context));
        let m1 = spec_set(m0, "elapsed_ms"@, elapsed);
        let m2 = spec_set(m1, "begin_ns"@, Json::Number(Num::PosInt(begin)));
        let m3 = spec_set(m2, "end_ns"@, opt_count_json(end));
        let m4 = spec_set(m3, "exit_code"@, opt_i32_json(exit_code));
        let m5 = spec_set(m4, "signal"@, opt_i32_json(signal));
        let m6 = spec_set(m5, "artifact_dir"@, Json::Str("attempts/"@ + id));
        let m7 = spec_set(m6, "shell_modes"@, Json::Array(modes_upto(rows, rows.len() as int)));
        Ok(Json::Object(m7))
    }
}

fn opt_i32_value(n: Option<i32>) -> (r: JsonValue)
    ensures
        r@ == opt_i32_json(n),
{
    match n {
        Some(v) => if v >= 0 { JsonValue::Number(JsonNumber::PosInt(v as u64)) } else { JsonValue::Number(JsonNumber::NegInt(v as i64)) },
        None => JsonValue::Null,
    }
}

/// Builds the result of an arm (see [`spec_arm_result`]); `context` is the
/// arm's context object and `rows` its trace.
pub fn arm_result(assessment: JsonValue, context: &JsonValue, elapsed: JsonValue, begin: u64, end: Option<u64>,
    exit_code: Option<i32>, signal: Option<i32>, id: &str, rows: &[JsonValue]) -> (r: Result<JsonValue, String>)
    requires
        context@ is Object,
    ensures
        match spec_arm_result(assessment@, context@, elapsed@, begin, end, exit_code, signal, id@, crate::evidence::value_views(rows@)) {
            Ok(v) => r matches Ok(x) && x@ == v,
            Err(m) => r matches Err(e) && e@ == m,
        },
{
    if assessment.get("status").is_none() {
        let mut message = owned("evaluation model rejected facts: ");
        push_all(&mut message, crate::json::to_json_text(&assessment).as_str());
        return Err(message);
    }
    let ghost a = assessment@;
    let mut m = match assessment {
        JsonValue::Object(m) => {
            proof {
                crate::json_object::lemma_object_view(m);
            }
            m
        },
        _ => Vec::new(),
    };
    assert(member_views(m@) == crate::evidence::members_of(a));
    match context {
        JsonValue::Object(cm) => {
            proof {
                crate::json_object::lemma_object_view(*cm);
            }
            extend_members(&mut m, cm);
        },
        _ => {},
    }
    set_member(&mut m, "elapsed_ms", elapsed);
    set_member(&mut m, "begin_ns", JsonValue::Number(JsonNumber::PosInt(begin)));
    set_member(&mut m, "end_ns", match end { Some(e) => JsonValue::Number(JsonNumber::PosInt(e)), None => JsonValue::Null });
    set_member(&mut m, "exit_code", opt_i32_value(exit_code));
    set_member(&mut m, "signal", opt_i32_value(signal));
    let mut dir = owned("attempts/");
    push_all(&mut dir, id);
    set_member(&mut m, "artifact_dir", JsonValue::Str(dir));
    let modes = shell_modes(rows);
    set_member(&mut m, "shell_modes", crate::evidence::array_of(modes));
    Ok(object_of(m))
}

} // verus!
