//! The launcher start-up experiment: which arms run in which order, how
//! each is named and launched, and the row that records it.
use vstd::prelude::*;
use vstd::string::StringSliceAdditionalSpecFns;
use crate::collection::{arg_views, spec_number};
use crate::json::{Json, JsonNumber, JsonValue, Num, str_eq};
use crate::json_object::{member_views, object_of, push_member, text_value};
use crate::text::{decimal, owned, push_all, push_char, push_decimal};

verus! {

/// A number written with at least four digits (`{:04}`).
pub open spec fn four_digits(n: nat) -> Seq<char> {
    if n < 10 {
        "000"@ + decimal(n)
    } else if n < 100 {
        "00"@ + decimal(n)
    } else if n < 1000 {
        "0"@ + decimal(n)
    } else {
        decimal(n)
    }
}

/// The identifier of a start-up pair: `<phase>-<observation>-<workload>-<pair, four digits>`.
pub open spec fn spec_startup_pair_id(phase: Seq<char>, observation: Seq<char>, workload: Seq<char>, pair: usize) -> Seq<char> {
    phase + "-"@ + observation + "-"@ + workload + "-"@ + four_digits(pair as nat)
}

/// Names a start-up pair.
pub fn startup_pair_id(phase: &str, observation: &str, workload: &str, pair: usize) -> (r: String)
    ensures
        r@ == spec_startup_pair_id(phase@, observation@, workload@, pair),
{
    let mut out = owned(phase);
    push_all(&mut out, "-");
    push_all(&mut out, observation);
    push_all(&mut out, "-");
    push_all(&mut out, workload);
    push_all(&mut out, "-");
    if pair < 10 {
        push_all(&mut out, "000");
    } else if pair < 100 {
        push_all(&mut out, "00");
    } else if pair < 1000 {
        push_all(&mut out, "0");
    }
    push_decimal(&mut out, pair as u64);
    proof {
        reveal_strlit("-");
    }
    assert(out@ =~= spec_startup_pair_id(phase@, observation@, workload@, pair));
    out
}

/// The identifier of a start-up arm: its pair's, a hyphen and the backend.
pub fn startup_attempt_id(pair_id: &str, backend: &str) -> (r: String)
    ensures
        r@ == pair_id@ + "-"@ + backend@,
{
    let mut out = owned(pair_id);
    push_all(&mut out, "-");
    push_all(&mut out, backend);
    out
}

/// The fixture's command line: `shell-noop` goes through `/bin/sh`, the
/// native workloads run the fixture directly (`small` or `noop`).
pub open spec fn spec_child_arguments(workload: Seq<char>, fixture: Seq<char>) -> Seq<Seq<char>> {
    if workload == "shell-noop"@ {
        seq!["/bin/sh"@, "-c"@, "exec \"$1\" noop"@, "sh"@, fixture]
    } else {
        seq![fixture, if workload == "native-small"@ { "small"@ } else { "noop"@ }]
    }
}

/// The fixture's command line for a workload.
pub fn child_arguments(workload: &str, fixture: &str) -> (r: Vec<String>)
    ensures
        arg_views(r@) == spec_child_arguments(workload@, fixture@),
{
    let mut v: Vec<String> = Vec::new();
    if str_eq(workload, "shell-noop") {
        v.push(owned("/bin/sh"));
        v.push(owned("-c"));
        v.push(owned("exec \"$1\" noop"));
        v.push(owned("sh"));
        v.push(owned(fixture));
    } else {
        v.push(owned(fixture));
        v.push(owned(if str_eq(workload, "native-small") { "small" } else { "noop" }));
    }
    assert(arg_views(v@) =~= spec_child_arguments(workload@, fixture@));
    v
}

/// The program and arguments of an arm: the transparent arm runs the
/// fixture through `mbtx exec --`, the shell arm runs it directly.
pub open spec fn spec_launch(backend: Seq<char>, mbtx: Seq<char>, child: Seq<Seq<char>>) -> (Seq<char>, Seq<Seq<char>>) {
    if backend == "transparent"@ {
        (mbtx, seq!["exec"@, "--"@] + child)
    } else {
        (child[0], child.drop_first())
    }
}

/// The program and arguments that start an arm.
pub fn launch(backend: &str, mbtx: &str, child: &Vec<String>) -> (r: (String, Vec<String>))
    requires
        child@.len() > 0,
    ensures
        r.0@ == spec_launch(backend@, mbtx@, arg_views(child@)).0,
        arg_views(r.1@) == spec_launch(backend@, mbtx@, arg_views(child@)).1,
{
    let mut args: Vec<String> = Vec::new();
    let program;
    let start: usize;
    let transparent = str_eq(backend, "transparent");
    if transparent {
        program = owned(mbtx);
        args.push(owned("exec"));
        args.push(owned("--"));
        start = 0;
    } else {
        program = owned(child[0].as_str());
        start = 1;
    }
    let ghost head = arg_views(args@);
    let mut i: usize = start;
    while i < child.len()
        invariant
            start <= i <= child@.len(),
            arg_views(args@) == head + arg_views(child@).subrange(start as int, i as int),
        decreases child.len() - i,
    {
        let ghost before = arg_views(args@);
        args.push(owned(child[i].as_str()));
        assert(arg_views(args@) =~= before.push(arg_views(child@)[i as int]));
        assert(arg_views(child@).subrange(start as int, i + 1) =~= arg_views(child@).subrange(start as int, i as int).push(arg_views(child@)[i as int]));
        assert(arg_views(args@) =~= head + arg_views(child@).subrange(start as int, i + 1));
        i += 1;
    }
    proof {
        if transparent {
            assert(head =~= seq!["exec"@, "--"@]);
            assert(arg_views(child@).subrange(0, child@.len() as int) =~= arg_views(child@));
        } else {
            assert(head =~= Seq::<Seq<char>>::empty());
            assert(arg_views(child@).subrange(1, child@.len() as int) =~= arg_views(child@).drop_first());
        }
    }
    (program, args)
}

/// What went wrong with the fixture's ready report: none was read before
/// the deadline, or it predates the spawn.
pub open spec fn spec_ready_error(ready: Option<u64>, begin: u64) -> Option<Seq<char>> {
    match ready {
        None => Some("fixture ready event missing or timed out"@),
        Some(t) => if t < begin { Some("fixture clock precedes spawn; clocks cannot be compared"@) } else { None },
    }
}

/// Checks the fixture's ready report against the spawn time.
pub fn ready_error(ready: Option<u64>, begin: u64) -> (r: Option<String>)
    ensures
        crate::codex_evidence::opt_text(r) == spec_ready_error(ready, begin),
{
    match ready {
        None => Some(owned("fixture ready event missing or timed out")),
        Some(t) => if t < begin { Some(owned("fixture clock precedes spawn; clocks cannot be compared")) } else { None },
    }
}

/// A start-up arm failed the harness when anything went wrong, succeeded
/// when the fixture exited with zero, and failed the backend otherwise.
pub open spec fn spec_startup_status(error: bool, exit_code: Option<i32>) -> Seq<char> {
    if error { "harness_error"@ } else if exit_code == Some(0i32) { "success"@ } else { "backend_failure"@ }
}

/// The status of a start-up arm.
pub fn startup_status(error: bool, exit_code: Option<i32>) -> (r: &'static str)
    ensures
        r@ == spec_startup_status(error, exit_code),
{
    if error { "harness_error" } else if exit_code == Some(0i32) { "success" } else { "backend_failure" }
}

/// The order of a pair's observation modes and backends: alternated from
/// pair to pair.
pub fn pair_orders(pair: usize) -> (r: ([&'static str; 2], [&'static str; 2]))
    ensures
        pair % 2 == 0 ==> r.0[0]@ == "minimal"@ && r.0[1]@ == "full"@ && r.1[0]@ == "shell"@ && r.1[1]@ == "transparent"@,
        pair % 2 == 1 ==> r.0[0]@ == "full"@ && r.0[1]@ == "minimal"@ && r.1[0]@ == "transparent"@ && r.1[1]@ == "shell"@,
{
    if pair % 2 == 0 {
        (["minimal", "full"], ["shell", "transparent"])
    } else {
        (["full", "minimal"], ["transparent", "shell"])
    }
}

/// The sample counts of a start-up run: `--samples` (1000 by default),
/// which must be positive, and `--warmups` (10 by default).
pub open spec fn spec_sample_counts(args: Seq<Seq<char>>) -> Result<(usize, usize), Seq<char>> {
    match spec_number(args, "--samples"@, 1000) {
        Err(e) => Err(e),
        Ok(samples) => match spec_number(args, "--warmups"@, 10) {
            Err(e) => Err(e),
            Ok(warmups) => if samples == 0 { Err("samples must be positive"@) } else { Ok((samples, warmups)) },
        },
    }
}

/// Reads the sample counts of a start-up run.
pub fn sample_counts(args: &[String]) -> (r: Result<(usize, usize), String>)
    ensures
        match r {
            Ok(c) => spec_sample_counts(arg_views(args@)) == Ok::<(usize, usize), Seq<char>>(c),
            Err(e) => spec_sample_counts(arg_views(args@)) == Err::<(usize, usize), Seq<char>>(e@),
        },
{
    let samples = match crate::collection::number(args, "--samples", 1000) {
        Ok(n) => n,
        Err(e) => return Err(e),
    };
    let warmups = match crate::collection::number(args, "--warmups", 10) {
        Ok(n) => n,
        Err(e) => return Err(e),
    };
    if samples == 0 {
        Err(owned("samples must be positive"))
    } else {
        Ok((samples, warmups))
    }
}

/// A formal arm that did not succeed counts as failed.
pub fn counts_as_failed(phase: &str, status: &str) -> (r: bool)
    ensures
        r == (phase@ == "formal"@ && status@ != "success"@),
{
    str_eq(phase, "formal") && !str_eq(status, "success")
}

/// What was observed of one start-up arm.
pub struct StartupObservation {
    pub experiment_id: String,
    pub pair_id: String,
    pub attempt_id: String,
    pub workload: String,
    pub backend: String,
    pub observation: String,
    pub sample_phase: String,
    pub platform: String,
    pub spawn_begin_ns: u64,
    pub spawn_return_ns: u64,
    pub fixture_ready_ns: Option<u64>,
    pub wait_return_ns: u64,
    pub error: Option<String>,
    pub exit_code: Option<i32>,
    pub signal: Option<i32>,
    pub pid: u32,
    pub child_pid: Option<u32>,
}

/// A whole number in JSON.
pub open spec fn u64_json(n: u64) -> Json {
    Json::Number(Num::PosInt(n))
}

/// A signed number in JSON, as `serde_json` holds it.
pub open spec fn i32_json(n: i32) -> Json {
    crate::evidence::int_number(n)
}

/// An optional whole number in JSON.
pub open spec fn opt_u64_json(n: Option<u64>) -> Json {
    match n { Some(v) => u64_json(v), None => Json::Null }
}

/// An optional signed number in JSON.
pub open spec fn opt_i32_json(n: Option<i32>) -> Json {
    match n { Some(v) => i32_json(v), None => Json::Null }
}

/// The row of a start-up arm: its context, the four clock readings, the
/// start-up time (spawn to ready, where ready came after the spawn), and
/// its status.
pub open spec fn spec_startup_row(o: StartupObservation) -> Json {
    Json::Object(seq![
        ("artifact_dir"@, Json::Str("attempts/"@ + o.attempt_id@)),
        ("attempt_id"@, Json::Str(o.attempt_id@)),
        ("backend"@, Json::Str(o.backend@)),
        ("child_pid"@, match o.child_pid { Some(p) => u64_json(p as u64), None => Json::Null }),
        ("clock_domain"@, Json::Str("os-monotonic"@)),
        ("confidence"@, Json::Str("observed"@)),
        ("error"@, match o.error { Some(e) => Json::Str(e@), None => Json::Null }),
        ("event"@, Json::Str("exit"@)),
        ("exit_code"@, opt_i32_json(o.exit_code)),
        ("experiment_id"@, Json::Str(o.experiment_id@)),
        ("failure_class"@, Json::Null),
        ("fixture_ready_ns"@, opt_u64_json(o.fixture_ready_ns)),
        ("observation"@, Json::Str(o.observation@)),
        ("pair_id"@, Json::Str(o.pair_id@)),
        ("parent_id"@, Json::Null),
        ("phase"@, Json::Str("startup"@)),
        ("pid"@, u64_json(o.pid as u64)),
        ("platform"@, Json::Str(o.platform@)),
        ("sample_phase"@, Json::Str(o.sample_phase@)),
        ("schema_version"@, u64_json(2)),
        ("signal"@, opt_i32_json(o.signal)),
        ("spawn_begin_ns"@, u64_json(o.spawn_begin_ns)),
        ("spawn_duration_ns"@, u64_json((o.spawn_return_ns - o.spawn_begin_ns) as u64)),
        ("spawn_return_ns"@, u64_json(o.spawn_return_ns)),
        ("startup_ns"@, match o.fixture_ready_ns {
            Some(r) => if r >= o.spawn_begin_ns { u64_json((r - o.spawn_begin_ns) as u64) } else { Json::Null },
            None => Json::Null,
        }),
        ("status"@, Json::Str(spec_startup_status(o.error is Some, o.exit_code))),
        ("stderr_bytes"@, Json::Null),
        ("stdout_bytes"@, Json::Null),
        ("task_id"@, Json::Str(o.workload@)),
        ("wait_return_ns"@, u64_json(o.wait_return_ns)),
        ("wall_ns"@, u64_json((o.wait_return_ns - o.spawn_begin_ns) as u64)),
    ])
}

pub fn u64_value(n: u64) -> (r: JsonValue)
    ensures
        r@ == u64_json(n),
{
    JsonValue::Number(JsonNumber::PosInt(n))
}

pub fn i32_value(n: i32) -> (r: JsonValue)
    ensures
        r@ == i32_json(n),
{
    if n >= 0 {
        JsonValue::Number(JsonNumber::PosInt(n as u64))
    } else {
        JsonValue::Number(JsonNumber::NegInt(n as i64))
    }
}

pub fn opt_i32_value(n: Option<i32>) -> (r: JsonValue)
    ensures
        r@ == opt_i32_json(n),
{
    match n { Some(v) => i32_value(v), None => JsonValue::Null }
}

pub fn opt_u64_value(n: Option<u64>) -> (r: JsonValue)
    ensures
        r@ == opt_u64_json(n),
{
    match n { Some(v) => u64_value(v), None => JsonValue::Null }
}

fn string_value(s: &String) -> (r: JsonValue)
    ensures
        r@ == Json::Str(s@),
{
    JsonValue::Str(s.clone())
}

/// Writes the row of a start-up arm.
pub fn startup_row(o: &StartupObservation) -> (r: JsonValue)
    requires
        o.spawn_begin_ns <= o.spawn_return_ns,
        o.spawn_begin_ns <= o.wait_return_ns,
    ensures
        r@ == spec_startup_row(*o),
{
    let mut dir = owned("attempts/");
    push_all(&mut dir, o.attempt_id.as_str());
    let startup = match o.fixture_ready_ns {
        Some(r) => if r >= o.spawn_begin_ns { u64_value(r - o.spawn_begin_ns) } else { JsonValue::Null },
        None => JsonValue::Null,
    };
    let mut m: Vec<(String, JsonValue)> = Vec::new();
    assert(member_views(m@) =~= Seq::<(Seq<char>, Json)>::empty());
    push_member(&mut m, "artifact_dir", JsonValue::Str(dir));
    push_member(&mut m, "attempt_id", string_value(&o.attempt_id));
    push_member(&mut m, "backend", string_value(&o.backend));
    push_member(&mut m, "child_pid", match o.child_pid { Some(p) => u64_value(p as u64), None => JsonValue::Null });
    push_member(&mut m, "clock_domain", text_value("os-monotonic"));
    push_member(&mut m, "confidence", text_value("observed"));
    push_member(&mut m, "error", match &o.error { Some(e) => string_value(e), None => JsonValue::Null });
    push_member(&mut m, "event", text_value("exit"));
    push_member(&mut m, "exit_code", opt_i32_value(o.exit_code));
    push_member(&mut m, "experiment_id", string_value(&o.experiment_id));
    push_member(&mut m, "failure_class", JsonValue::Null);
    push_member(&mut m, "fixture_ready_ns", opt_u64_value(o.fixture_ready_ns));
    push_member(&mut m, "observation", string_value(&o.observation));
    push_member(&mut m, "pair_id", string_value(&o.pair_id));
    push_member(&mut m, "parent_id", JsonValue::Null);
    push_member(&mut m, "phase", text_value("startup"));
    push_member(&mut m, "pid", u64_value(o.pid as u64));
    push_member(&mut m, "platform", string_value(&o.platform));
    push_member(&mut m, "sample_phase", string_value(&o.sample_phase));
    push_member(&mut m, "schema_version", u64_value(2));
    push_member(&mut m, "signal", opt_i32_value(o.signal));
    push_member(&mut m, "spawn_begin_ns", u64_value(o.spawn_begin_ns));
    push_member(&mut m, "spawn_duration_ns", u64_value(o.spawn_return_ns - o.spawn_begin_ns));
    push_member(&mut m, "spawn_return_ns", u64_value(o.spawn_return_ns));
    push_member(&mut m, "startup_ns", startup);
    push_member(&mut m, "status", text_value(startup_status(o.error.is_some(), o.exit_code)));
    push_member(&mut m, "stderr_bytes", JsonValue::Null);
    push_member(&mut m, "stdout_bytes", JsonValue::Null);
    push_member(&mut m, "task_id", string_value(&o.workload));
    push_member(&mut m, "wait_return_ns", u64_value(o.wait_return_ns));
    push_member(&mut m, "wall_ns", u64_value(o.wait_return_ns - o.spawn_begin_ns));
    let r = object_of(m);
    assert(r@ =~= spec_startup_row(*o)) by {
        if let Json::Object(a) = r@ {
            if let Json::Object(b) = spec_startup_row(*o) {
                assert(a =~= b);
            }
        }
    }
    r
}

/// The experiment of a start-up run: named after the digest of its output
/// directory.
pub fn startup_experiment_id(root: &str) -> (r: String)
    ensures
        r@ == "launcher-startup-"@ + crate::evidence::spec_hex(crate::evidence::sha256(root.spec_bytes())),
{
    let mut out = owned("launcher-startup-");
    let d = crate::evidence::digest(root.as_bytes());
    push_all(&mut out, d.as_str());
    out
}

} // verus!
