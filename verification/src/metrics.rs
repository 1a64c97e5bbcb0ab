//! The durations the report attributes to one arm, read from its trace:
//! the paired intervals of each stage, the launches followed from spawn to
//! readiness, to the reaping and to the last output, and the time no
//! observed interval explains.
use vstd::prelude::*;
use crate::json::{Json, JsonNumber, JsonValue, Num, spec_as_u64, spec_field, spec_is_text};
use crate::json_object::{json_eq, member_views, object_of, push_member, text_value};
use crate::reporting::{covered, covered_count, holds, event, ns, row_views, span, spec_event, spec_ns, spec_span, spec_sum, spec_union, sum, union};

verus! {

/// Whether two rows belong to the same process stream.
pub open spec fn same_stream(a: Json, b: Json) -> bool {
    crate::json_object::json_same(spec_field(a, "pid"@), spec_field(b, "pid"@))
        && crate::json_object::json_same(spec_field(a, "stream_id"@), spec_field(b, "stream_id"@))
}

/// The first row among the first `n` that returns from the spawn of `begin`.
pub open spec fn spawn_return_of(rows: Seq<Json>, begin: Json, n: int) -> Option<Json>
    decreases n,
{
    if n <= 0 || n > rows.len() {
        None
    } else {
        match spawn_return_of(rows, begin, n - 1) {
            Some(r) => Some(r),
            None => if spec_event(rows[n - 1], "spawn"@, "return"@) && same_stream(rows[n - 1], begin) { Some(rows[n - 1]) } else { None },
        }
    }
}

/// The first row among the first `n` that returns from waiting for the
/// child of `begin`.
pub open spec fn wait_return_of(rows: Seq<Json>, begin: Json, n: int) -> Option<Json>
    decreases n,
{
    if n <= 0 || n > rows.len() {
        None
    } else {
        match wait_return_of(rows, begin, n - 1) {
            Some(r) => Some(r),
            None => if spec_event(rows[n - 1], "child"@, "wait_return"@) && same_stream(rows[n - 1], begin) { Some(rows[n - 1]) } else { None },
        }
    }
}

/// Whether a row reports the child `child` ready (as its process or its
/// process group).
pub open spec fn is_ready_of(row: Json, child: u64) -> bool {
    spec_event(row, "child"@, "ready"@)
        && (spec_as_u64(spec_field(row, "pid"@)) == Some(child) || spec_as_u64(spec_field(row, "pgid"@)) == Some(child))
}

/// The earliest time among the first `n` rows at which `child` was ready.
pub open spec fn ready_of(rows: Seq<Json>, child: u64, n: int) -> Option<u64>
    decreases n,
{
    if n <= 0 || n > rows.len() {
        None
    } else {
        let prev = ready_of(rows, child, n - 1);
        if is_ready_of(rows[n - 1], child) {
            match (prev, spec_ns(rows[n - 1])) {
                (Some(a), Some(b)) => Some(if b < a { b } else { a }),
                (None, Some(b)) => Some(b),
                (p, None) => p,
            }
        } else {
            prev
        }
    }
}

/// The latest time among the first `n` rows at which the stream of `begin`
/// reached the end of its output.
pub open spec fn eof_of(rows: Seq<Json>, begin: Json, n: int) -> Option<u64>
    decreases n,
{
    if n <= 0 || n > rows.len() {
        None
    } else {
        let prev = eof_of(rows, begin, n - 1);
        if spec_event(rows[n - 1], "io"@, "eof"@) && same_stream(rows[n - 1], begin) {
            match (prev, spec_ns(rows[n - 1])) {
                (Some(a), Some(b)) => Some(if b > a { b } else { a }),
                (None, Some(b)) => Some(b),
                (p, None) => p,
            }
        } else {
            prev
        }
    }
}

/// The intervals one launch adds: spawn to readiness, readiness to the
/// reaping, the reaping to the last output; each only when the one before
/// it was observed and time ran forwards.
pub open spec fn launch_spans(rows: Seq<Json>, begin: Json) -> (Seq<(u64, u64)>, Seq<(u64, u64)>, Seq<(u64, u64)>) {
    let n = rows.len() as int;
    match spawn_return_of(rows, begin, n) {
        None => (Seq::empty(), Seq::empty(), Seq::empty()),
        Some(returned) => match spec_as_u64(spec_field(returned, "child_pid"@)) {
            None => (Seq::empty(), Seq::empty(), Seq::empty()),
            Some(child) => match (spec_ns(begin), ready_of(rows, child, n)) {
                (Some(start), Some(end)) => if end >= start {
                    let waited = match wait_return_of(rows, begin, n) { Some(w) => spec_ns(w), None => None };
                    match waited {
                        Some(w) => if w >= end {
                            match eof_of(rows, begin, n) {
                                Some(e) => (seq![(start, end)], seq![(end, w)], seq![(w, if w >= e { w } else { e })]),
                                None => (seq![(start, end)], seq![(end, w)], Seq::empty()),
                            }
                        } else {
                            (seq![(start, end)], Seq::empty(), Seq::empty())
                        },
                        None => (seq![(start, end)], Seq::empty(), Seq::empty()),
                    }
                } else {
                    (Seq::empty(), Seq::empty(), Seq::empty())
                },
                _ => (Seq::empty(), Seq::empty(), Seq::empty()),
            },
        },
    }
}

/// The launch intervals of the spawns among the first `n` rows, in order.
pub open spec fn launches_upto(rows: Seq<Json>, n: int) -> (Seq<(u64, u64)>, Seq<(u64, u64)>, Seq<(u64, u64)>)
    decreases n,
{
    if n <= 0 || n > rows.len() {
        (Seq::empty(), Seq::empty(), Seq::empty())
    } else {
        let prev = launches_upto(rows, n - 1);
        if spec_event(rows[n - 1], "spawn"@, "begin"@) {
            let add = launch_spans(rows, rows[n - 1]);
            (prev.0 + add.0, prev.1 + add.1, prev.2 + add.2)
        } else {
            prev
        }
    }
}

fn same_stream_exec(a: &JsonValue, b: &JsonValue) -> (r: bool)
    ensures
        r == same_stream(a@, b@),
{
    json_eq(&a.field("pid"), &b.field("pid")) && json_eq(&a.field("stream_id"), &b.field("stream_id"))
}

fn find_spawn_return(rows: &[JsonValue], begin: &JsonValue) -> (r: Option<usize>)
    ensures
        match r {
            Some(k) => k < rows@.len() && spawn_return_of(row_views(rows@), begin@, rows@.len() as int) == Some(rows@[k as int]@),
            None => spawn_return_of(row_views(rows@), begin@, rows@.len() as int) is None,
        },
{
    let ghost v = row_views(rows@);
    let mut i: usize = 0;
    while i < rows.len()
        invariant
            i <= rows.len(),
            v == row_views(rows@),
            spawn_return_of(v, begin@, i as int) is None,
        decreases rows.len() - i,
    {
        assert(v[i as int] == rows@[i as int]@);
        if event(&rows[i], "spawn", "return") && same_stream_exec(&rows[i], begin) {
            proof {
                lemma_first_stays(v, begin@, i + 1, rows@.len() as int, true);
            }
            return Some(i);
        }
        i += 1;
    }
    None
}

fn find_wait_return(rows: &[JsonValue], begin: &JsonValue) -> (r: Option<usize>)
    ensures
        match r {
            Some(k) => k < rows@.len() && wait_return_of(row_views(rows@), begin@, rows@.len() as int) == Some(rows@[k as int]@),
            None => wait_return_of(row_views(rows@), begin@, rows@.len() as int) is None,
        },
{
    let ghost v = row_views(rows@);
    let mut i: usize = 0;
    while i < rows.len()
        invariant
            i <= rows.len(),
            v == row_views(rows@),
            wait_return_of(v, begin@, i as int) is None,
        decreases rows.len() - i,
    {
        assert(v[i as int] == rows@[i as int]@);
        if event(&rows[i], "child", "wait_return") && same_stream_exec(&rows[i], begin) {
            proof {
                lemma_first_stays(v, begin@, i + 1, rows@.len() as int, false);
            }
            return Some(i);
        }
        i += 1;
    }
    None
}

/// Once found, the first matching row stays the first as more rows are read.
proof fn lemma_first_stays(rows: Seq<Json>, begin: Json, a: int, b: int, spawn: bool)
    requires
        0 <= a <= b <= rows.len(),
    ensures
        spawn && spawn_return_of(rows, begin, a) is Some ==> spawn_return_of(rows, begin, b) == spawn_return_of(rows, begin, a),
        !spawn && wait_return_of(rows, begin, a) is Some ==> wait_return_of(rows, begin, b) == wait_return_of(rows, begin, a),
    decreases b - a,
{
    if a < b {
        lemma_first_stays(rows, begin, a, b - 1, spawn);
    }
}

fn earliest_ready(rows: &[JsonValue], child: u64) -> (r: Option<u64>)
    ensures
        r == ready_of(row_views(rows@), child, rows@.len() as int),
{
    let ghost v = row_views(rows@);
    let mut best: Option<u64> = None;
    let mut i: usize = 0;
    while i < rows.len()
        invariant
            i <= rows.len(),
            v == row_views(rows@),
            best == ready_of(v, child, i as int),
        decreases rows.len() - i,
    {
        let row = &rows[i];
        assert(v[i as int] == row@);
        let ready = event(row, "child", "ready")
            && (row.field("pid").as_u64() == Some(child) || row.field("pgid").as_u64() == Some(child));
        if ready {
            match (best, ns(row)) {
                (Some(a), Some(b)) => best = Some(if b < a { b } else { a }),
                (None, Some(b)) => best = Some(b),
                (_, None) => {},
            }
        }
        i += 1;
    }
    best
}

fn last_eof(rows: &[JsonValue], begin: &JsonValue) -> (r: Option<u64>)
    ensures
        r == eof_of(row_views(rows@), begin@, rows@.len() as int),
{
    let ghost v = row_views(rows@);
    let mut best: Option<u64> = None;
    let mut i: usize = 0;
    while i < rows.len()
        invariant
            i <= rows.len(),
            v == row_views(rows@),
            best == eof_of(v, begin@, i as int),
        decreases rows.len() - i,
    {
        let row = &rows[i];
        assert(v[i as int] == row@);
        if event(row, "io", "eof") && same_stream_exec(row, begin) {
            match (best, ns(row)) {
                (Some(a), Some(b)) => best = Some(if b > a { b } else { a }),
                (None, Some(b)) => best = Some(b),
                (_, None) => {},
            }
        }
        i += 1;
    }
    best
}

fn launch(rows: &[JsonValue], begin: &JsonValue, ready: &mut Vec<(u64, u64)>, waits: &mut Vec<(u64, u64)>, drains: &mut Vec<(u64, u64)>)
    ensures
        final(ready)@ == old(ready)@ + launch_spans(row_views(rows@), begin@).0,
        final(waits)@ == old(waits)@ + launch_spans(row_views(rows@), begin@).1,
        final(drains)@ == old(drains)@ + launch_spans(row_views(rows@), begin@).2,
{
    let ghost l = launch_spans(row_views(rows@), begin@);
    let ghost r0 = ready@;
    let ghost w0 = waits@;
    let ghost d0 = drains@;
    let returned = match find_spawn_return(rows, begin) {
        Some(k) => k,
        None => {
            assert(r0 + l.0 =~= r0 && w0 + l.1 =~= w0 && d0 + l.2 =~= d0);
            return;
        },
    };
    let child = match rows[returned].field("child_pid").as_u64() {
        Some(c) => c,
        None => {
            assert(r0 + l.0 =~= r0 && w0 + l.1 =~= w0 && d0 + l.2 =~= d0);
            return;
        },
    };
    let start = ns(begin);
    let end = earliest_ready(rows, child);
    let (s, e) = match (start, end) {
        (Some(s), Some(e)) => if e >= s { (s, e) } else {
            assert(r0 + l.0 =~= r0 && w0 + l.1 =~= w0 && d0 + l.2 =~= d0);
            return;
        },
        _ => {
            assert(r0 + l.0 =~= r0 && w0 + l.1 =~= w0 && d0 + l.2 =~= d0);
            return;
        },
    };
    ready.push((s, e));
    assert(ready@ =~= r0 + l.0);
    let waited = match find_wait_return(rows, begin) {
        Some(k) => ns(&rows[k]),
        None => None,
    };
    match waited {
        Some(w) => if w >= e {
            waits.push((e, w));
            assert(waits@ =~= w0 + l.1);
            match last_eof(rows, begin) {
                Some(x) => {
                    drains.push((w, if w >= x { w } else { x }));
                    assert(drains@ =~= d0 + l.2);
                },
                None => {
                    assert(d0 + l.2 =~= d0);
                },
            }
        } else {
            assert(w0 + l.1 =~= w0 && d0 + l.2 =~= d0);
        },
        None => {
            assert(w0 + l.1 =~= w0 && d0 + l.2 =~= d0);
        },
    }
}

/// Follows every launch of the trace.
pub fn launches(rows: &[JsonValue]) -> (r: (Vec<(u64, u64)>, Vec<(u64, u64)>, Vec<(u64, u64)>))
    ensures
        (r.0@, r.1@, r.2@) == launches_upto(row_views(rows@), rows@.len() as int),
{
    let ghost v = row_views(rows@);
    let mut ready: Vec<(u64, u64)> = Vec::new();
    let mut waits: Vec<(u64, u64)> = Vec::new();
    let mut drains: Vec<(u64, u64)> = Vec::new();
    let mut i: usize = 0;
    while i < rows.len()
        invariant
            i <= rows.len(),
            v == row_views(rows@),
            (ready@, waits@, drains@) == launches_upto(v, i as int),
        decreases rows.len() - i,
    {
        let row = &rows[i];
        assert(v[i as int] == row@);
        if event(row, "spawn", "begin") {
            launch(rows, row, &mut ready, &mut waits, &mut drains);
        }
        i += 1;
    }
    (ready, waits, drains)
}

/// Whether every interval runs forwards.
pub open spec fn forwards(spans: Seq<(u64, u64)>) -> bool {
    forall|i: int| 0 <= i < spans.len() ==> (#[trigger] spans[i]).0 <= spans[i].1
}

/// The launch intervals all run forwards.
proof fn lemma_launches_forwards(rows: Seq<Json>, n: int)
    ensures
        forwards(launches_upto(rows, n).0),
        forwards(launches_upto(rows, n).1),
        forwards(launches_upto(rows, n).2),
    decreases n,
{
    if n > 0 && n <= rows.len() {
        lemma_launches_forwards(rows, n - 1);
        let prev = launches_upto(rows, n - 1);
        if spec_event(rows[n - 1], "spawn"@, "begin"@) {
            let add = launch_spans(rows, rows[n - 1]);
            assert(forwards(add.0) && forwards(add.1) && forwards(add.2));
            let cur = launches_upto(rows, n);
            assert forall|i: int| 0 <= i < cur.0.len() implies (#[trigger] cur.0[i]).0 <= cur.0[i].1 by {
                if i < prev.0.len() { assert(cur.0[i] == prev.0[i]); } else { assert(cur.0[i] == add.0[i - prev.0.len()]); }
            }
            assert forall|i: int| 0 <= i < cur.1.len() implies (#[trigger] cur.1[i]).0 <= cur.1[i].1 by {
                if i < prev.1.len() { assert(cur.1[i] == prev.1[i]); } else { assert(cur.1[i] == add.1[i - prev.1.len()]); }
            }
            assert forall|i: int| 0 <= i < cur.2.len() implies (#[trigger] cur.2[i]).0 <= cur.2[i].1 by {
                if i < prev.2.len() { assert(cur.2[i] == prev.2[i]); } else { assert(cur.2[i] == add.2[i - prev.2.len()]); }
            }
        }
    }
}

/// A total length in JSON: `null` where nothing was observed.
pub open spec fn sum_json(spans: Seq<(u64, u64)>) -> Json {
    if spans.len() == 0 { Json::Null } else { Json::Number(Num::PosInt(spec_sum(spans) as u64)) }
}

fn sum_value(spans: &Vec<(u64, u64)>) -> (r: JsonValue)
    requires
        forwards(spans@),
        spec_sum(spans@) <= u64::MAX,
    ensures
        r@ == sum_json(spans@),
{
    match sum(spans.as_slice()) {
        Some(t) => JsonValue::Number(JsonNumber::PosInt(t)),
        None => JsonValue::Null,
    }
}

/// The durations recorded by artifact rows among the first `n`.
pub open spec fn artifact_upto(rows: Seq<Json>, n: int) -> Seq<u64>
    decreases n,
{
    if n <= 0 || n > rows.len() {
        Seq::empty()
    } else {
        let prev = artifact_upto(rows, n - 1);
        if spec_is_text(spec_field(rows[n - 1], "phase"@), "artifact"@) {
            match spec_as_u64(spec_field(rows[n - 1], "duration_ns"@)) { Some(d) => prev.push(d), None => prev }
        } else {
            prev
        }
    }
}

/// The total of some numbers.
pub open spec fn total_of(s: Seq<u64>) -> int
    decreases s.len(),
{
    if s.len() == 0 { 0 } else { total_of(s.drop_last()) + s.last() }
}

/// The file-descriptor snapshots among the first `n` rows.
pub open spec fn fds_upto(rows: Seq<Json>, n: int) -> Seq<Json>
    decreases n,
{
    if n <= 0 || n > rows.len() {
        Seq::empty()
    } else if spec_is_text(spec_field(rows[n - 1], "event"@), "fd_snapshot"@) {
        fds_upto(rows, n - 1).push(Json::Object(seq![
            ("call_id"@, spec_field(rows[n - 1], "call_id"@)),
            ("monotonic_ns"@, spec_field(rows[n - 1], "monotonic_ns"@)),
            ("open_fds"@, spec_field(rows[n - 1], "open_fds"@)),
        ]))
    } else {
        fds_upto(rows, n - 1)
    }
}

/// The stages paired from the trace, in the order they are summed.
pub open spec fn stage(rows: Seq<Json>, k: int) -> Seq<(u64, u64)> {
    if k == 0 { spec_span(rows, "external"@, "request_send"@, "stream_eof"@) }
    else if k == 1 { spec_span(rows, "external"@, "rate_wait_begin"@, "rate_wait_end"@) }
    else if k == 2 { spec_span(rows, "external"@, "gate_queued"@, "gate_acquired"@) }
    else if k == 3 { spec_span(rows, "policy_sandbox"@, "begin"@, "return"@) }
    else if k == 4 { spec_span(rows, "spawn"@, "begin"@, "return"@) }
    else if k == 5 { spec_span(rows, "approval"@, "begin"@, "return"@) }
    else if k == 6 { spec_span(rows, "sandbox_setup_spawn"@, "begin"@, "return"@) }
    else if k == 7 { spec_span(rows, "tool"@, "arguments"@, "result_ready"@) }
    else if k == 8 { spec_span(rows, "external"@, "request_send"@, "first_byte"@) }
    else if k == 9 { spec_span(rows, "launcher"@, "spawn_begin"@, "spawn_return"@) }
    else if k == 10 { spec_span(rows, "launcher"@, "entry"@, "spawn_begin"@) }
    else { spec_span(rows, "child"@, "ready"@, "return"@) }
}

/// Whether every total the metrics add up fits in 64 bits (the report
/// would overflow otherwise).
pub open spec fn metrics_fit(rows: Seq<Json>) -> bool {
    &&& forall|k: int| 0 <= k < 12 ==> spec_sum(#[trigger] stage(rows, k)) <= u64::MAX
    &&& spec_sum(launches_upto(rows, rows.len() as int).0) <= u64::MAX
    &&& spec_sum(launches_upto(rows, rows.len() as int).1) <= u64::MAX
    &&& spec_sum(launches_upto(rows, rows.len() as int).2) <= u64::MAX
    &&& total_of(artifact_upto(rows, rows.len() as int)) <= u64::MAX
}

/// The Codex interval of an arm: from its begin to its end, where both are
/// whole numbers and the end is not earlier.
pub open spec fn codex_total(result: Json) -> Option<(u64, u64)> {
    match (spec_as_u64(spec_field(result, "begin_ns"@)), spec_as_u64(spec_field(result, "end_ns"@))) {
        (Some(a), Some(b)) => if b >= a { Some((a, b)) } else { None },
        _ => None,
    }
}

/// The metrics of an arm: the total of each paired stage (`null` where none
/// was observed), the Codex interval, and the part of it that the union of
/// the model exchange, rate wait, queueing, sandboxed spawns and tool calls
/// does not explain.
pub open spec fn spec_metrics(rows: Seq<Json>, result: Json) -> Json {
    let l = launches_upto(rows, rows.len() as int);
    let art = artifact_upto(rows, rows.len() as int);
    let explained = stage(rows, 0) + stage(rows, 1) + stage(rows, 2) + stage(rows, 3) + stage(rows, 7);
    Json::Object(seq![
        ("approval_ns"@, sum_json(stage(rows, 5))),
        ("artifact_write_ns"@, if art.len() == 0 { Json::Null } else { Json::Number(Num::PosInt(total_of(art) as u64)) }),
        ("attribution"@, Json::Str("Observed intervals can overlap. Unexplained time is the complement of their union, not model compute. Missing spans remain null."@)),
        ("codex_total_ns"@, match codex_total(result) { Some((a, b)) => Json::Number(Num::PosInt((b - a) as u64)), None => Json::Null }),
        ("external_response_ns"@, sum_json(stage(rows, 0))),
        ("fd_snapshots"@, Json::Array(fds_upto(rows, rows.len() as int))),
        ("fixture_runtime_ns"@, sum_json(stage(rows, 11))),
        ("launcher_child_spawn_ns"@, sum_json(stage(rows, 9))),
        ("launcher_prepare_ns"@, sum_json(stage(rows, 10))),
        ("policy_sandbox_spawn_ns"@, sum_json(stage(rows, 3))),
        ("rate_wait_ns"@, sum_json(stage(rows, 1))),
        ("ready_to_wait_observed_ns"@, sum_json(l.1)),
        ("request_gate_queue_ns"@, sum_json(stage(rows, 2))),
        ("request_to_first_byte_ns"@, sum_json(stage(rows, 8))),
        ("sandbox_setup_spawn_ns"@, sum_json(stage(rows, 6))),
        ("spawn_return_ns"@, sum_json(stage(rows, 4))),
        ("startup_to_ready_ns"@, sum_json(l.0)),
        ("tool_call_ns"@, sum_json(stage(rows, 7))),
        ("unexplained_ns"@, match codex_total(result) {
            Some((a, b)) => Json::Number(Num::PosInt(
                (if (b - a) >= spec_union(explained, a, b) { (b - a) - spec_union(explained, a, b) } else { 0 }) as u64)),
            None => Json::Null,
        }),
        ("wait_to_last_observed_eof_ns"@, sum_json(l.2)),
    ])
}

fn stage_value(rows: &[JsonValue], phase: &str, start: &str, end: &str) -> (r: (Vec<(u64, u64)>, JsonValue))
    requires
        spec_sum(spec_span(row_views(rows@), phase@, start@, end@)) <= u64::MAX,
    ensures
        r.0@ == spec_span(row_views(rows@), phase@, start@, end@),
        r.1@ == sum_json(r.0@),
{
    let spans = span(rows, phase, start, end);
    proof {
        crate::reporting::lemma_span_ordered(row_views(rows@), phase@, start@, end@);
    }
    let v = sum_value(&spans);
    (spans, v)
}

fn artifact_total(rows: &[JsonValue]) -> (r: JsonValue)
    requires
        total_of(artifact_upto(row_views(rows@), rows@.len() as int)) <= u64::MAX,
    ensures
        r@ == (if artifact_upto(row_views(rows@), rows@.len() as int).len() == 0 { Json::Null }
            else { Json::Number(Num::PosInt(total_of(artifact_upto(row_views(rows@), rows@.len() as int)) as u64)) }),
{
    let ghost v = row_views(rows@);
    let mut any = false;
    let mut total: u64 = 0;
    let mut i: usize = 0;
    while i < rows.len()
        invariant
            i <= rows.len(),
            v == row_views(rows@),
            total_of(artifact_upto(v, v.len() as int)) <= u64::MAX,
            total == total_of(artifact_upto(v, i as int)),
            any == (artifact_upto(v, i as int).len() > 0),
        decreases rows.len() - i,
    {
        let row = &rows[i];
        assert(v[i as int] == row@);
        proof {
            lemma_artifact_grows(v, i + 1, v.len() as int);
        }
        if row.field("phase").is_text("artifact") {
            match row.field("duration_ns").as_u64() {
                Some(d) => {
                    assert(artifact_upto(v, i + 1).drop_last() == artifact_upto(v, i as int));
                    total = total + d;
                    any = true;
                },
                None => {},
            }
        }
        i += 1;
    }
    if any { JsonValue::Number(JsonNumber::PosInt(total)) } else { JsonValue::Null }
}

proof fn lemma_artifact_grows(rows: Seq<Json>, a: int, b: int)
    requires
        0 <= a <= b <= rows.len(),
    ensures
        total_of(artifact_upto(rows, a)) <= total_of(artifact_upto(rows, b)),
    decreases b - a,
{
    if a < b {
        lemma_artifact_grows(rows, a, b - 1);
        let p = artifact_upto(rows, b - 1);
        let q = artifact_upto(rows, b);
        if q.len() > p.len() {
            assert(q.drop_last() == p);
        }
    }
}

fn fd_snapshots(rows: &[JsonValue]) -> (r: JsonValue)
    ensures
        r@ == Json::Array(fds_upto(row_views(rows@), rows@.len() as int)),
{
    let ghost v = row_views(rows@);
    let mut out: Vec<JsonValue> = Vec::new();
    let mut i: usize = 0;
    while i < rows.len()
        invariant
            i <= rows.len(),
            v == row_views(rows@),
            crate::evidence::value_views(out@) == fds_upto(v, i as int),
        decreases rows.len() - i,
    {
        let row = &rows[i];
        assert(v[i as int] == row@);
        if row.field("event").is_text("fd_snapshot") {
            let mut m: Vec<(String, JsonValue)> = Vec::new();
            assert(member_views(m@) =~= Seq::<(Seq<char>, Json)>::empty());
            push_member(&mut m, "call_id", row.field("call_id"));
            push_member(&mut m, "monotonic_ns", row.field("monotonic_ns"));
            push_member(&mut m, "open_fds", row.field("open_fds"));
            let o = object_of(m);
            let ghost e = Json::Object(seq![
                ("call_id"@, spec_field(row@, "call_id"@)),
                ("monotonic_ns"@, spec_field(row@, "monotonic_ns"@)),
                ("open_fds"@, spec_field(row@, "open_fds"@)),
            ]);
            assert(o@ == e) by {
                if let Json::Object(x) = o@ {
                    if let Json::Object(y) = e {
                        assert(x =~= y);
                    }
                }
            }
            let ghost before = crate::evidence::value_views(out@);
            out.push(o);
            assert(crate::evidence::value_views(out@) =~= before.push(e));
        }
        i += 1;
    }
    let r = JsonValue::Array(out);
    assert(r@ == Json::Array(fds_upto(v, v.len() as int))) by {
        if let Json::Array(x) = r@ {
            assert(x =~= crate::evidence::value_views(out@));
        }
    }
    r
}

fn concat(parts: Vec<&Vec<(u64, u64)>>) -> (r: Vec<(u64, u64)>)
    ensures
        r@ == parts@.fold_left(Seq::<(u64, u64)>::empty(), |acc: Seq<(u64, u64)>, p: &Vec<(u64, u64)>| acc + p@),
{
    let mut out: Vec<(u64, u64)> = Vec::new();
    let mut i: usize = 0;
    assert(parts@.take(0) =~= Seq::<&Vec<(u64, u64)>>::empty());
    while i < parts.len()
        invariant
            i <= parts@.len(),
            out@ == parts@.take(i as int).fold_left(Seq::<(u64, u64)>::empty(), |acc: Seq<(u64, u64)>, p: &Vec<(u64, u64)>| acc + p@),
        decreases parts.len() - i,
    {
        let part = parts[i];
        let ghost before = out@;
        let mut j: usize = 0;
        while j < part.len()
            invariant
                j <= part@.len(),
                out@ == before + part@.take(j as int),
            decreases part.len() - j,
        {
            out.push(part[j]);
            assert(part@.take(j + 1) =~= part@.take(j as int).push(part@[j as int]));
            assert(out@ =~= before + part@.take(j + 1));
            j += 1;
        }
        assert(part@.take(part@.len() as int) =~= part@);
        assert(parts@.take(i + 1).drop_last() =~= parts@.take(i as int));
        i += 1;
    }
    assert(parts@.take(parts@.len() as int) =~= parts@);
    out
}

/// The metrics of an arm from its trace and result.
#[verifier::rlimit(60)]
pub fn metrics(rows: &[JsonValue], result: &JsonValue) -> (r: JsonValue)
    requires
        metrics_fit(row_views(rows@)),
    ensures
        r@ == spec_metrics(row_views(rows@), result@),
{
    let ghost v = row_views(rows@);
    proof {
        assert(spec_sum(stage(v, 0)) <= u64::MAX);
        assert(spec_sum(stage(v, 1)) <= u64::MAX);
        assert(spec_sum(stage(v, 2)) <= u64::MAX);
        assert(spec_sum(stage(v, 3)) <= u64::MAX);
        assert(spec_sum(stage(v, 4)) <= u64::MAX);
        assert(spec_sum(stage(v, 5)) <= u64::MAX);
        assert(spec_sum(stage(v, 6)) <= u64::MAX);
        assert(spec_sum(stage(v, 7)) <= u64::MAX);
        assert(spec_sum(stage(v, 8)) <= u64::MAX);
        assert(spec_sum(stage(v, 9)) <= u64::MAX);
        assert(spec_sum(stage(v, 10)) <= u64::MAX);
        assert(spec_sum(stage(v, 11)) <= u64::MAX);
        lemma_launches_forwards(v, v.len() as int);
    }
    let (external, external_v) = stage_value(rows, "external", "request_send", "stream_eof");
    let (wait, wait_v) = stage_value(rows, "external", "rate_wait_begin", "rate_wait_end");
    let (queue, queue_v) = stage_value(rows, "external", "gate_queued", "gate_acquired");
    let (policy, policy_v) = stage_value(rows, "policy_sandbox", "begin", "return");
    let (_, spawn_v) = stage_value(rows, "spawn", "begin", "return");
    let (_, approval_v) = stage_value(rows, "approval", "begin", "return");
    let (_, sandbox_v) = stage_value(rows, "sandbox_setup_spawn", "begin", "return");
    let (tools, tools_v) = stage_value(rows, "tool", "arguments", "result_ready");
    let (_, first_byte_v) = stage_value(rows, "external", "request_send", "first_byte");
    let (_, launcher_spawn_v) = stage_value(rows, "launcher", "spawn_begin", "spawn_return");
    let (_, launcher_prepare_v) = stage_value(rows, "launcher", "entry", "spawn_begin");
    let (_, fixture_v) = stage_value(rows, "child", "ready", "return");
    let (ready, waits, drains) = launches(rows);
    let ready_v = sum_value(&ready);
    let waits_v = sum_value(&waits);
    let drains_v = sum_value(&drains);
    let explained = concat(vec![&external, &wait, &queue, &policy, &tools]);
    proof {
        let parts = seq![&external, &wait, &queue, &policy, &tools];
        reveal_with_fuel(Seq::fold_left, 6);
        assert(parts.drop_last().drop_last().drop_last().drop_last().drop_last() =~= Seq::<&Vec<(u64, u64)>>::empty());
        assert(explained@ =~= stage(v, 0) + stage(v, 1) + stage(v, 2) + stage(v, 3) + stage(v, 7));
    }
    let total = match (result.field("begin_ns").as_u64(), result.field("end_ns").as_u64()) {
        (Some(a), Some(b)) => if b >= a { Some((a, b)) } else { None },
        _ => None,
    };
    let (codex_v, unexplained_v) = match total {
        Some((a, b)) => {
            let covered = union(explained.as_slice(), a, b);
            let span = b - a;
            (JsonValue::Number(JsonNumber::PosInt(span)),
                JsonValue::Number(JsonNumber::PosInt(if span >= covered { span - covered } else { 0 })))
        },
        None => (JsonValue::Null, JsonValue::Null),
    };
    let mut m: Vec<(String, JsonValue)> = Vec::new();
    assert(member_views(m@) =~= Seq::<(Seq<char>, Json)>::empty());
    push_member(&mut m, "approval_ns", approval_v);
    push_member(&mut m, "artifact_write_ns", artifact_total(rows));
    push_member(&mut m, "attribution", text_value("Observed intervals can overlap. Unexplained time is the complement of their union, not model compute. Missing spans remain null."));
    push_member(&mut m, "codex_total_ns", codex_v);
    push_member(&mut m, "external_response_ns", external_v);
    push_member(&mut m, "fd_snapshots", fd_snapshots(rows));
    push_member(&mut m, "fixture_runtime_ns", fixture_v);
    push_member(&mut m, "launcher_child_spawn_ns", launcher_spawn_v);
    push_member(&mut m, "launcher_prepare_ns", launcher_prepare_v);
    push_member(&mut m, "policy_sandbox_spawn_ns", policy_v);
    push_member(&mut m, "rate_wait_ns", wait_v);
    push_member(&mut m, "ready_to_wait_observed_ns", waits_v);
    push_member(&mut m, "request_gate_queue_ns", queue_v);
    push_member(&mut m, "request_to_first_byte_ns", first_byte_v);
    push_member(&mut m, "sandbox_setup_spawn_ns", sandbox_v);
    push_member(&mut m, "spawn_return_ns", spawn_v);
    push_member(&mut m, "startup_to_ready_ns", ready_v);
    push_member(&mut m, "tool_call_ns", tools_v);
    push_member(&mut m, "unexplained_ns", unexplained_v);
    push_member(&mut m, "wait_to_last_observed_eof_ns", drains_v);
    let r = object_of(m);
    assert(r@ =~= spec_metrics(v, result@)) by {
        if let Json::Object(a) = r@ {
            if let Json::Object(b) = spec_metrics(v, result@) {
                assert(a =~= b);
            }
        }
    }
    r
}

fn sum_fits(spans: &Vec<(u64, u64)>) -> (r: bool)
    requires
        forwards(spans@),
    ensures
        r == (spec_sum(spans@) <= u64::MAX),
{
    let mut total: u64 = 0;
    let mut i: usize = 0;
    while i < spans.len()
        invariant
            i <= spans@.len(),
            forwards(spans@),
            total == spec_sum(spans@.take(i as int)),
        decreases spans.len() - i,
    {
        let (a, b) = spans[i];
        assert(spans@.take(i + 1).drop_last() =~= spans@.take(i as int));
        assert(spans@[i as int].0 <= spans@[i as int].1);
        if b - a > u64::MAX - total {
            proof {
                crate::reporting::lemma_sum_prefix(spans@, i + 1);
            }
            return false;
        }
        total = total + (b - a);
        i += 1;
    }
    assert(spans@.take(spans@.len() as int) =~= spans@);
    true
}

fn stage_fits(rows: &[JsonValue], phase: &str, start: &str, end: &str) -> (r: bool)
    ensures
        r == (spec_sum(spec_span(row_views(rows@), phase@, start@, end@)) <= u64::MAX),
{
    let spans = span(rows, phase, start, end);
    proof {
        crate::reporting::lemma_span_ordered(row_views(rows@), phase@, start@, end@);
    }
    sum_fits(&spans)
}

fn artifact_fits(rows: &[JsonValue]) -> (r: bool)
    ensures
        r == (total_of(artifact_upto(row_views(rows@), rows@.len() as int)) <= u64::MAX),
{
    let ghost v = row_views(rows@);
    let mut total: u64 = 0;
    let mut i: usize = 0;
    while i < rows.len()
        invariant
            i <= rows.len(),
            v == row_views(rows@),
            total == total_of(artifact_upto(v, i as int)),
        decreases rows.len() - i,
    {
        let row = &rows[i];
        assert(v[i as int] == row@);
        if row.field("phase").is_text("artifact") {
            match row.field("duration_ns").as_u64() {
                Some(d) => {
                    assert(artifact_upto(v, i + 1).drop_last() == artifact_upto(v, i as int));
                    if d > u64::MAX - total {
                        proof {
                            lemma_artifact_grows(v, i + 1, v.len() as int);
                        }
                        return false;
                    }
                    total = total + d;
                },
                None => {},
            }
        }
        i += 1;
    }
    true
}

/// Whether every total of an arm's metrics fits in 64 bits.
pub fn metrics_fit_exec(rows: &[JsonValue]) -> (r: bool)
    ensures
        r == metrics_fit(row_views(rows@)),
{
    let ghost v = row_views(rows@);
    let f0 = stage_fits(rows, "external", "request_send", "stream_eof");
    let f1 = stage_fits(rows, "external", "rate_wait_begin", "rate_wait_end");
    let f2 = stage_fits(rows, "external", "gate_queued", "gate_acquired");
    let f3 = stage_fits(rows, "policy_sandbox", "begin", "return");
    let f4 = stage_fits(rows, "spawn", "begin", "return");
    let f5 = stage_fits(rows, "approval", "begin", "return");
    let f6 = stage_fits(rows, "sandbox_setup_spawn", "begin", "return");
    let f7 = stage_fits(rows, "tool", "arguments", "result_ready");
    let f8 = stage_fits(rows, "external", "request_send", "first_byte");
    let f9 = stage_fits(rows, "launcher", "spawn_begin", "spawn_return");
    let f10 = stage_fits(rows, "launcher", "entry", "spawn_begin");
    let f11 = stage_fits(rows, "child", "ready", "return");
    let (ready, waits, drains) = launches(rows);
    proof {
        lemma_launches_forwards(v, v.len() as int);
    }
    let g0 = sum_fits(&ready);
    let g1 = sum_fits(&waits);
    let g2 = sum_fits(&drains);
    let h = artifact_fits(rows);
    let all = f0 && f1 && f2 && f3 && f4 && f5 && f6 && f7 && f8 && f9 && f10 && f11 && g0 && g1 && g2 && h;
    proof {
        if all {
            assert forall|k: int| 0 <= k < 12 implies spec_sum(#[trigger] stage(v, k)) <= u64::MAX by {
                if k == 0 {} else if k == 1 {} else if k == 2 {} else if k == 3 {} else if k == 4 {} else if k == 5 {}
                else if k == 6 {} else if k == 7 {} else if k == 8 {} else if k == 9 {} else if k == 10 {} else {}
            }
        } else {
            if !f0 { assert(spec_sum(stage(v, 0)) > u64::MAX); }
            if !f1 { assert(spec_sum(stage(v, 1)) > u64::MAX); }
            if !f2 { assert(spec_sum(stage(v, 2)) > u64::MAX); }
            if !f3 { assert(spec_sum(stage(v, 3)) > u64::MAX); }
            if !f4 { assert(spec_sum(stage(v, 4)) > u64::MAX); }
            if !f5 { assert(spec_sum(stage(v, 5)) > u64::MAX); }
            if !f6 { assert(spec_sum(stage(v, 6)) > u64::MAX); }
            if !f7 { assert(spec_sum(stage(v, 7)) > u64::MAX); }
            if !f8 { assert(spec_sum(stage(v, 8)) > u64::MAX); }
            if !f9 { assert(spec_sum(stage(v, 9)) > u64::MAX); }
            if !f10 { assert(spec_sum(stage(v, 10)) > u64::MAX); }
            if !f11 { assert(spec_sum(stage(v, 11)) > u64::MAX); }
        }
    }
    all
}

/// Whether the instant `t` lies in a span that explains Codex's time: a
/// model exchange (request sent to end of stream), a rate-limit wait, a wait
/// in the request gate, a sandboxed policy spawn, or a tool call.
pub open spec fn busy_at(rows: Seq<Json>, t: int) -> bool {
    ||| covered(spec_span(rows, "external"@, "request_send"@, "stream_eof"@), t)
    ||| covered(spec_span(rows, "external"@, "rate_wait_begin"@, "rate_wait_end"@), t)
    ||| covered(spec_span(rows, "external"@, "gate_queued"@, "gate_acquired"@), t)
    ||| covered(spec_span(rows, "policy_sandbox"@, "begin"@, "return"@), t)
    ||| covered(spec_span(rows, "tool"@, "arguments"@, "result_ready"@), t)
}

/// The instants of `[lo, hi)` that no explaining span holds.
pub open spec fn idle_instants(rows: Seq<Json>, lo: int, hi: int) -> nat
    decreases hi - lo,
{
    if hi <= lo {
        0
    } else {
        idle_instants(rows, lo, hi - 1) + if busy_at(rows, hi - 1) { 0nat } else { 1nat }
    }
}

proof fn lemma_covered_concat(x: Seq<(u64, u64)>, y: Seq<(u64, u64)>, t: int)
    ensures
        covered(x + y, t) <==> (covered(x, t) || covered(y, t)),
{
    let z = x + y;
    if covered(z, t) {
        let i = choose|i: int| 0 <= i < z.len() && #[trigger] holds(z[i], t);
        if i < x.len() {
            assert(z[i] == x[i]);
            assert(holds(x[i], t));
        } else {
            assert(z[i] == y[i - x.len()]);
            assert(holds(y[i - x.len()], t));
        }
    }
    if covered(x, t) {
        let i = choose|i: int| 0 <= i < x.len() && #[trigger] holds(x[i], t);
        assert(z[i] == x[i]);
        assert(holds(z[i], t));
    }
    if covered(y, t) {
        let i = choose|i: int| 0 <= i < y.len() && #[trigger] holds(y[i], t);
        assert(z[i + x.len()] == y[i]);
        assert(holds(z[i + x.len()], t));
    }
}

proof fn lemma_idle_complement(rows: Seq<Json>, lo: int, hi: int)
    requires
        lo <= hi,
    ensures
        covered_count(stage(rows, 0) + stage(rows, 1) + stage(rows, 2) + stage(rows, 3) + stage(rows, 7), lo, hi)
            + idle_instants(rows, lo, hi) == hi - lo,
    decreases hi - lo,
{
    if hi > lo {
        lemma_idle_complement(rows, lo, hi - 1);
        let t = hi - 1;
        let s0 = stage(rows, 0);
        let s1 = stage(rows, 1);
        let s2 = stage(rows, 2);
        let s3 = stage(rows, 3);
        let s7 = stage(rows, 7);
        lemma_covered_concat(s0 + s1 + s2 + s3, s7, t);
        lemma_covered_concat(s0 + s1 + s2, s3, t);
        lemma_covered_concat(s0 + s1, s2, t);
        lemma_covered_concat(s0, s1, t);
    }
}

/// Where the Codex interval begins.
pub open spec fn interval_begin(result: Json) -> int {
    match codex_total(result) { Some((a, _)) => a as int, None => 0 }
}

/// Where the Codex interval ends.
pub open spec fn interval_end(result: Json) -> int {
    match codex_total(result) { Some((_, b)) => b as int, None => 0 }
}

/// The unexplained part of the Codex interval `[begin, end)` is exactly the
/// number of its instants that no explaining span holds (see [`busy_at`]):
/// an instant inside a model exchange, a rate wait, a gate wait, a
/// sandboxed spawn or a tool call is never counted as unexplained, and
/// every other instant is.
pub proof fn lemma_unexplained_is_idle(rows: Seq<Json>, result: Json)
    requires
        codex_total(result) is Some,
    ensures
        crate::json::spec_member(spec_metrics(rows, result), "unexplained_ns"@)
            == Some(Json::Number(Num::PosInt(idle_instants(rows, interval_begin(result), interval_end(result)) as u64))),
{
    let (a, b) = codex_total(result)->0;
    lemma_idle_complement(rows, a as int, b as int);
    reveal_strlit("approval_ns");
    reveal_strlit("artifact_write_ns");
    reveal_strlit("attribution");
    reveal_strlit("codex_total_ns");
    reveal_strlit("external_response_ns");
    reveal_strlit("fd_snapshots");
    reveal_strlit("fixture_runtime_ns");
    reveal_strlit("launcher_child_spawn_ns");
    reveal_strlit("launcher_prepare_ns");
    reveal_strlit("policy_sandbox_spawn_ns");
    reveal_strlit("rate_wait_ns");
    reveal_strlit("ready_to_wait_observed_ns");
    reveal_strlit("request_gate_queue_ns");
    reveal_strlit("request_to_first_byte_ns");
    reveal_strlit("sandbox_setup_spawn_ns");
    reveal_strlit("spawn_return_ns");
    reveal_strlit("startup_to_ready_ns");
    reveal_strlit("tool_call_ns");
    reveal_strlit("unexplained_ns");
    assert("approval_ns"@.len() == 11 && "artifact_write_ns"@.len() == 17 && "attribution"@.len() == 11 && "codex_total_ns"@.len() == 14 && "external_response_ns"@.len() == 20 && "fd_snapshots"@.len() == 12 && "fixture_runtime_ns"@.len() == 18 && "launcher_child_spawn_ns"@.len() == 23 && "launcher_prepare_ns"@.len() == 19 && "policy_sandbox_spawn_ns"@.len() == 23 && "rate_wait_ns"@.len() == 12 && "ready_to_wait_observed_ns"@.len() == 25 && "request_gate_queue_ns"@.len() == 21 && "request_to_first_byte_ns"@.len() == 24 && "sandbox_setup_spawn_ns"@.len() == 22 && "spawn_return_ns"@.len() == 15 && "startup_to_ready_ns"@.len() == 19 && "tool_call_ns"@.len() == 12 && "unexplained_ns"@.len() == 14);
    assert("codex_total_ns"@[0] != "unexplained_ns"@[0]);
    match spec_metrics(rows, result) {
        Json::Object(ms) => {
            crate::json::lemma_lookup_at(ms, "unexplained_ns"@, 18);
        },
        _ => {},
    }
}

} // verus!
