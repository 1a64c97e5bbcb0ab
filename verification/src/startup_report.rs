//! The report of a launcher start-up run: each arm's result once its seal
//! was checked, the clock readings it adds to the trace, and how the formal
//! arms are grouped into strata and pairs.
use vstd::prelude::*;
use crate::arms::{last_index_of, slot, text_or_unknown};
use crate::json::{Json, JsonNumber, JsonValue, Num, spec_as_u64, spec_field, spec_is_text, str_eq};
use crate::json_object::{member_views, object_of, push_member, spec_with_member, text_value, with_member};
use crate::text::{chars_of, owned, push_all, spec_ends_with, spec_starts_with, string_of};

verus! {

/// The pair and backend a start-up arm's directory name gives: split at the
/// last hyphen, or the whole name and `unknown`.
pub open spec fn spec_startup_identity(name: Seq<char>) -> (Seq<char>, Seq<char>) {
    match last_index_of(name, '-') {
        Some(k) => (name.take(k), name.skip(k + 1)),
        None => (name, "unknown"@),
    }
}

fn last_dash(s: &Vec<char>) -> (r: Option<usize>)
    ensures
        match r {
            Some(k) => last_index_of(s@, '-') == Some(k as int) && k < s@.len(),
            None => last_index_of(s@, '-') is None,
        },
{
    let mut n: usize = s.len();
    assert(s@.take(n as int) =~= s@);
    while n > 0
        invariant
            n <= s@.len(),
            last_index_of(s@, '-') == last_index_of(s@.take(n as int), '-'),
        decreases n,
    {
        let ghost t = s@.take(n as int);
        if s[n - 1] == '-' {
            assert(t.last() == '-');
            return Some(n - 1);
        }
        assert(t.drop_last() =~= s@.take(n - 1));
        n -= 1;
    }
    None
}

/// Splits a start-up arm's directory name into pair and backend.
pub fn startup_identity(name: &str) -> (r: (String, String))
    ensures
        r.0@ == spec_startup_identity(name@).0,
        r.1@ == spec_startup_identity(name@).1,
{
    let chars = chars_of(name);
    match last_dash(&chars) {
        Some(k) => {
            let a = crate::text::slice_chars(chars.as_slice(), 0, k);
            let b = crate::text::slice_chars(chars.as_slice(), k + 1, chars.len());
            assert(a@ =~= name@.take(k as int));
            assert(b@ =~= name@.skip(k + 1));
            (string_of(a.as_slice()), string_of(b.as_slice()))
        },
        None => (owned(name), owned("unknown")),
    }
}

/// The result of a start-up arm whose directory holds no readable result:
/// censored, its phase read from its name.
pub open spec fn spec_startup_missing(name: Seq<char>) -> Json {
    let (pair, backend) = spec_startup_identity(name);
    Json::Object(seq![
        ("artifact_dir"@, Json::Str("attempts/"@ + name)),
        ("attempt_id"@, Json::Str(name)),
        ("backend"@, Json::Str(backend)),
        ("pair_id"@, Json::Str(pair)),
        ("phase"@, Json::Str("startup"@)),
        ("sample_phase"@, Json::Str(if spec_starts_with(name, "warmup-"@) { "warmup"@ } else { "formal"@ })),
        ("status"@, Json::Str("censored"@)),
    ])
}

/// The result of a start-up arm without a readable result.
pub fn startup_missing(name: &str) -> (r: JsonValue)
    ensures
        r@ == spec_startup_missing(name@),
{
    let (pair, backend) = startup_identity(name);
    let mut dir = owned("attempts/");
    push_all(&mut dir, name);
    let phase = if crate::text::starts_with(name, "warmup-") { "warmup" } else { "formal" };
    let mut m: Vec<(String, JsonValue)> = Vec::new();
    assert(member_views(m@) =~= Seq::<(Seq<char>, Json)>::empty());
    push_member(&mut m, "artifact_dir", JsonValue::Str(dir));
    push_member(&mut m, "attempt_id", text_value(name));
    push_member(&mut m, "backend", JsonValue::Str(backend));
    push_member(&mut m, "pair_id", JsonValue::Str(pair));
    push_member(&mut m, "phase", text_value("startup"));
    push_member(&mut m, "sample_phase", text_value(phase));
    push_member(&mut m, "status", text_value("censored"));
    let r = object_of(m);
    assert(r@ =~= spec_startup_missing(name@)) by {
        if let Json::Object(a) = r@ {
            if let Json::Object(b) = spec_startup_missing(name@) {
                assert(a =~= b);
            }
        }
    }
    r
}

/// A start-up arm's result once its seal was checked: comparable only when
/// the seal holds, the arm succeeded and its start-up time is known; a
/// success on a broken seal is censored; the spawn and the reaping bound the
/// arm.
pub open spec fn spec_startup_checked(result: Json, seal: Json) -> Json {
    let sealed = spec_is_text(spec_field(seal, "status"@), "success"@);
    let success = spec_is_text(spec_field(result, "status"@), "success"@);
    let a = spec_with_member(result, "strict_comparable"@,
        Json::Bool(sealed && success && spec_as_u64(spec_field(result, "startup_ns"@)) is Some));
    let b = if !sealed && success { spec_with_member(a, "status"@, Json::Str("censored"@)) } else { a };
    let c = spec_with_member(b, "begin_ns"@, spec_field(b, "spawn_begin_ns"@));
    spec_with_member(c, "end_ns"@, spec_field(c, "wait_return_ns"@))
}

/// Applies the seal check to a start-up arm's result.
pub fn startup_checked(result: JsonValue, seal: &JsonValue) -> (r: JsonValue)
    requires
        result@ is Object || result@ is Null,
    ensures
        r@ == spec_startup_checked(result@, seal@),
{
    let sealed = seal.field("status").is_text("success");
    let success = result.field("status").is_text("success");
    let timed = result.field("startup_ns").as_u64().is_some();
    let a = with_member(result, "strict_comparable", JsonValue::Bool(sealed && timed && success));
    let b = if !sealed && success { with_member(a, "status", text_value("censored")) } else { a };
    let begin = b.field("spawn_begin_ns");
    let c = with_member(b, "begin_ns", begin);
    let end = c.field("wait_return_ns");
    with_member(c, "end_ns", end)
}

/// The clock readings of a start-up result that become trace rows, in this
/// order: spawn begin, spawn return, fixture ready, wait return.
pub open spec fn clock_fields() -> Seq<(Seq<char>, Seq<char>)> {
    seq![("spawn_begin"@, "spawn_begin_ns"@), ("spawn_return"@, "spawn_return_ns"@),
        ("fixture_ready"@, "fixture_ready_ns"@), ("wait_return"@, "wait_return_ns"@)]
}

/// The trace row for one clock reading: the result with the event and its
/// monotonic time.
pub open spec fn clock_row(result: Json, event: Seq<char>, name: Seq<char>) -> Json {
    spec_with_member(spec_with_member(result, "event"@, Json::Str(event)), "monotonic_ns"@, spec_field(result, name))
}

/// The trace rows of the readings among the first `n` that are whole numbers.
pub open spec fn clock_rows_upto(result: Json, n: int) -> Seq<Json>
    decreases n,
{
    if n <= 0 || n > 4 {
        Seq::empty()
    } else {
        let prev = clock_rows_upto(result, n - 1);
        let (event, name) = clock_fields()[n - 1];
        if spec_as_u64(spec_field(result, name)) is Some { prev.push(clock_row(result, event, name)) } else { prev }
    }
}

/// Adds to the trace the clock readings of a start-up result.
pub fn clock_rows(result: &JsonValue) -> (r: Vec<JsonValue>)
    requires
        result@ is Object || result@ is Null,
    ensures
        crate::evidence::value_views(r@) == clock_rows_upto(result@, 4),
{
    let events = ["spawn_begin", "spawn_return", "fixture_ready", "wait_return"];
    let names = ["spawn_begin_ns", "spawn_return_ns", "fixture_ready_ns", "wait_return_ns"];
    let mut out: Vec<JsonValue> = Vec::new();
    let mut i: usize = 0;
    while i < 4
        invariant
            i <= 4,
            result@ is Object || result@ is Null,
            forall|j: int| 0 <= j < 4 ==> (#[trigger] events@[j])@ == clock_fields()[j].0 && names@[j]@ == clock_fields()[j].1,
            crate::evidence::value_views(out@) == clock_rows_upto(result@, i as int),
        decreases 4 - i,
    {
        let ghost before = crate::evidence::value_views(out@);
        let reading = result.field(names[i]);
        assert(events@[i as int]@ == clock_fields()[i as int].0);
        if reading.as_u64().is_some() {
            let row = with_member(with_member(result.copy(), "event", text_value(events[i])), "monotonic_ns", reading);
            out.push(row);
            assert(crate::evidence::value_views(out@) =~= before.push(clock_row(result@, clock_fields()[i as int].0, clock_fields()[i as int].1)));
        }
        i += 1;
    }
    out
}

/// An arm of the start-up report: its two measured durations, its result,
/// its trace and its seal.
pub open spec fn spec_startup_arm(result: Json, trace: Seq<Json>, seal: Json) -> Json {
    Json::Object(seq![
        ("metrics"@, Json::Object(seq![
            ("codex_total_ns"@, Json::Null),
            ("spawn_return_ns"@, spec_field(result, "spawn_duration_ns"@)),
            ("startup_to_ready_ns"@, spec_field(result, "startup_ns"@)),
        ])),
        ("result"@, result),
        ("seal"@, seal),
        ("trace"@, Json::Array(trace)),
    ])
}

/// Writes an arm of the start-up report.
pub fn startup_arm(result: JsonValue, trace: Vec<JsonValue>, seal: JsonValue) -> (r: JsonValue)
    ensures
        r@ == spec_startup_arm(result@, crate::evidence::value_views(trace@), seal@),
{
    let ghost rv = result@;
    let ghost sv = seal@;
    let ghost tv = crate::evidence::value_views(trace@);
    let mut metrics: Vec<(String, JsonValue)> = Vec::new();
    assert(member_views(metrics@) =~= Seq::<(Seq<char>, Json)>::empty());
    push_member(&mut metrics, "codex_total_ns", JsonValue::Null);
    push_member(&mut metrics, "spawn_return_ns", result.field("spawn_duration_ns"));
    push_member(&mut metrics, "startup_to_ready_ns", result.field("startup_ns"));
    assert(member_views(metrics@) =~= seq![
        ("codex_total_ns"@, Json::Null),
        ("spawn_return_ns"@, spec_field(rv, "spawn_duration_ns"@)),
        ("startup_to_ready_ns"@, spec_field(rv, "startup_ns"@)),
    ]);
    let metrics_value = object_of(metrics);
    let trace_value = JsonValue::Array(trace);
    assert(trace_value@ == Json::Array(tv)) by {
        if let Json::Array(a) = trace_value@ {
            assert(a =~= tv);
        }
    }
    let mut m: Vec<(String, JsonValue)> = Vec::new();
    assert(member_views(m@) =~= Seq::<(Seq<char>, Json)>::empty());
    push_member(&mut m, "metrics", metrics_value);
    push_member(&mut m, "result", result);
    push_member(&mut m, "seal", seal);
    push_member(&mut m, "trace", trace_value);
    let r = object_of(m);
    assert(r@ =~= spec_startup_arm(rv, tv, sv)) by {
        if let Json::Object(a) = r@ {
            if let Json::Object(b) = spec_startup_arm(rv, tv, sv) {
                assert(a =~= b);
            }
        }
    }
    r
}

/// Whether a row is a formal start-up arm.
pub open spec fn spec_formal_startup(row: Json) -> bool {
    spec_is_text(spec_field(row, "phase"@), "startup"@) && spec_is_text(spec_field(row, "sample_phase"@), "formal"@)
}

/// Whether a row is a formal start-up arm.
pub fn formal_startup(row: &JsonValue) -> (r: bool)
    ensures
        r == spec_formal_startup(row@),
{
    row.field("phase").is_text("startup") && row.field("sample_phase").is_text("formal")
}

/// The stratum of a start-up row: platform, workload and observation mode.
pub open spec fn spec_startup_group(row: Json) -> Seq<char> {
    text_or_unknown(row, "platform"@) + " / "@ + text_or_unknown(row, "task_id"@) + " / "@ + text_or_unknown(row, "observation"@)
}

fn push_or_unknown(out: &mut String, v: &JsonValue, name: &str)
    ensures
        final(out)@ == old(out)@ + text_or_unknown(v@, name@),
{
    match v.field_str(name) {
        Some(s) => push_all(out, s),
        None => push_all(out, "unknown"),
    }
}

/// Labels the stratum of a start-up row.
pub fn startup_group(row: &JsonValue) -> (r: String)
    ensures
        r@ == spec_startup_group(row@),
{
    let mut out = String::new();
    push_or_unknown(&mut out, row, "platform");
    push_all(&mut out, " / ");
    push_or_unknown(&mut out, row, "task_id");
    push_all(&mut out, " / ");
    push_or_unknown(&mut out, row, "observation");
    out
}

/// The place of a start-up row among its stratum's pairs.
pub fn startup_key(row: &JsonValue) -> (r: crate::arms::ArmKey)
    ensures
        r.pair@ == text_or_unknown(row@, "pair_id"@),
        r.backend@ == text_or_unknown(row@, "backend"@),
        r.formal,
{
    let pair = match row.field_str("pair_id") { Some(p) => owned(p), None => owned("unknown") };
    let backend = match row.field_str("backend") { Some(b) => owned(b), None => owned("unknown") };
    crate::arms::ArmKey { pair, backend, formal: true }
}

/// The start-up time a row contributes to its stratum: its own when it is
/// comparable, else `null`.
pub open spec fn spec_startup_value(row: Json) -> Json {
    if spec_field(row, "strict_comparable"@) == Json::Bool(true) { spec_field(row, "startup_ns"@) } else { Json::Null }
}

/// The values of a stratum's pairs, in pair order: `{"shell", "transparent"}`,
/// `null` for a missing arm.
pub open spec fn spec_stratum_values(rows: Seq<Json>, slots: Seq<(Option<nat>, Option<nat>)>) -> Json {
    Json::Array(Seq::new(slots.len(), |i: int| Json::Object(seq![
        ("shell"@, match slots[i].0 { Some(k) => spec_startup_value(rows[k as int]), None => Json::Null }),
        ("transparent"@, match slots[i].1 { Some(k) => spec_startup_value(rows[k as int]), None => Json::Null }),
    ])))
}

fn value_of(row: &JsonValue) -> (r: JsonValue)
    ensures
        r@ == spec_startup_value(row@),
{
    match row.field("strict_comparable") {
        JsonValue::Bool(true) => row.field("startup_ns"),
        _ => JsonValue::Null,
    }
}

/// Collects the values of a stratum's pairs, given the rows of the stratum
/// and their index (see [`crate::arms::index_arms`]).
pub fn stratum_values(rows: &Vec<JsonValue>, slots: &Vec<crate::arms::PairSlots>) -> (r: JsonValue)
    requires
        forall|i: int| 0 <= i < slots@.len() ==> match (#[trigger] slots@[i]).shell { Some(k) => k < rows@.len(), None => true },
        forall|i: int| 0 <= i < slots@.len() ==> match (#[trigger] slots@[i]).transparent { Some(k) => k < rows@.len(), None => true },
    ensures
        r@ == spec_stratum_values(crate::evidence::value_views(rows@),
            crate::arms::slots_view(slots@).map_values(|e: (Seq<char>, (Option<nat>, Option<nat>))| e.1)),
{
    let ghost rv = crate::evidence::value_views(rows@);
    let ghost sv = crate::arms::slots_view(slots@).map_values(|e: (Seq<char>, (Option<nat>, Option<nat>))| e.1);
    let mut items: Vec<JsonValue> = Vec::new();
    let mut i: usize = 0;
    while i < slots.len()
        invariant
            i <= slots@.len(),
            rv == crate::evidence::value_views(rows@),
            sv == crate::arms::slots_view(slots@).map_values(|e: (Seq<char>, (Option<nat>, Option<nat>))| e.1),
            forall|j: int| 0 <= j < slots@.len() ==> match (#[trigger] slots@[j]).shell { Some(k) => k < rows@.len(), None => true },
            forall|j: int| 0 <= j < slots@.len() ==> match (#[trigger] slots@[j]).transparent { Some(k) => k < rows@.len(), None => true },
            crate::evidence::value_views(items@) == Seq::new(i as nat, |j: int| Json::Object(seq![
                ("shell"@, match sv[j].0 { Some(k) => spec_startup_value(rv[k as int]), None => Json::Null }),
                ("transparent"@, match sv[j].1 { Some(k) => spec_startup_value(rv[k as int]), None => Json::Null }),
            ])),
        decreases slots.len() - i,
    {
        let s = &slots[i];
        let shell = match s.shell { Some(k) => value_of(&rows[k]), None => JsonValue::Null };
        let transparent = match s.transparent { Some(k) => value_of(&rows[k]), None => JsonValue::Null };
        let mut m: Vec<(String, JsonValue)> = Vec::new();
        assert(member_views(m@) =~= Seq::<(Seq<char>, Json)>::empty());
        push_member(&mut m, "shell", shell);
        push_member(&mut m, "transparent", transparent);
        let o = object_of(m);
        let ghost e = Json::Object(seq![
            ("shell"@, match sv[i as int].0 { Some(k) => spec_startup_value(rv[k as int]), None => Json::Null }),
            ("transparent"@, match sv[i as int].1 { Some(k) => spec_startup_value(rv[k as int]), None => Json::Null }),
        ]);
        assert(o@ == e) by {
            if let Json::Object(x) = o@ {
                if let Json::Object(y) = e {
                    assert(x =~= y);
                }
            }
        }
        let ghost before = crate::evidence::value_views(items@);
        items.push(o);
        assert(crate::evidence::value_views(items@) =~= before.push(e));
        assert(crate::evidence::value_views(items@) =~= Seq::new((i + 1) as nat, |j: int| Json::Object(seq![
            ("shell"@, match sv[j].0 { Some(k) => spec_startup_value(rv[k as int]), None => Json::Null }),
            ("transparent"@, match sv[j].1 { Some(k) => spec_startup_value(rv[k as int]), None => Json::Null }),
        ])));
        i += 1;
    }
    let r = JsonValue::Array(items);
    assert(r@ == spec_stratum_values(rv, sv)) by {
        if let Json::Array(a) = r@ {
            assert(a =~= crate::evidence::value_views(items@));
        }
    }
    r
}

/// Whether a stratum supports the claim that the launcher starts at least
/// ten percent faster: the minimal observation mode, at least a thousand
/// pairs, and the statistics say so.
pub open spec fn spec_claim_supported(group: Seq<char>, statistics: Json) -> bool {
    spec_ends_with(group, "minimal"@)
        && match spec_as_u64(spec_field(statistics, "pairs"@)) { Some(n) => n >= 1000, None => false }
        && spec_field(statistics, "at_least_ten_percent_faster"@) == Json::Bool(true)
}

/// A row of the start-up report's statistics.
pub open spec fn spec_startup_statistic(group: Seq<char>, statistics: Json) -> Json {
    Json::Object(seq![
        ("at_least_ten_percent_supported"@, Json::Bool(spec_claim_supported(group, statistics))),
        ("confidence"@, Json::Str("inferred"@)),
        ("metric"@, Json::Str("spawn_begin_to_fixture_ready"@)),
        ("statistics"@, statistics),
        ("stratum"@, Json::Str(group)),
        ("units"@, Json::Str("ns"@)),
    ])
}

/// Writes a row of the start-up report's statistics.
pub fn startup_statistic(group: &str, statistics: JsonValue) -> (r: JsonValue)
    ensures
        r@ == spec_startup_statistic(group@, statistics@),
{
    let ghost sv = statistics@;
    let g = chars_of(group);
    let suffix = chars_of("minimal");
    let minimal = crate::text::ends_with_chars(g.as_slice(), suffix.as_slice());
    let enough = match statistics.field("pairs").as_u64() { Some(n) => n >= 1000, None => false };
    let faster = match statistics.field("at_least_ten_percent_faster") { JsonValue::Bool(true) => true, _ => false };
    let mut m: Vec<(String, JsonValue)> = Vec::new();
    assert(member_views(m@) =~= Seq::<(Seq<char>, Json)>::empty());
    push_member(&mut m, "at_least_ten_percent_supported", JsonValue::Bool(minimal && enough && faster));
    push_member(&mut m, "confidence", text_value("inferred"));
    push_member(&mut m, "metric", text_value("spawn_begin_to_fixture_ready"));
    push_member(&mut m, "statistics", statistics);
    push_member(&mut m, "stratum", text_value(group));
    push_member(&mut m, "units", text_value("ns"));
    let r = object_of(m);
    assert(r@ =~= spec_startup_statistic(group@, sv)) by {
        if let Json::Object(a) = r@ {
            if let Json::Object(b) = spec_startup_statistic(group@, sv) {
                assert(a =~= b);
            }
        }
    }
    r
}

/// A pair of the start-up report: taken from its shell arm where there is
/// one, else its transparent arm, with the positions of both arms and
/// whether both are comparable.
pub open spec fn spec_startup_pair(pair_id: Seq<char>, manifest: Json, shell: Option<(nat, Json)>, transparent: Option<(nat, Json)>) -> Json {
    let rep = match shell { Some(a) => a.1, None => match transparent { Some(b) => b.1, None => Json::Null } };
    let result = spec_field(rep, "result"@);
    Json::Object(seq![
        ("category"@, spec_field(result, "observation"@)),
        ("pair_id"@, Json::Str(pair_id)),
        ("platform"@, spec_field(manifest, "platform"@)),
        ("shell"@, crate::arms::slot_json(match shell { Some(a) => Some(a.0), None => None })),
        ("strict_comparable"@, Json::Bool(crate::arms::spec_comparable(
            match shell { Some(a) => Some(spec_field(a.1, "result"@)), None => None },
            match transparent { Some(b) => Some(spec_field(b.1, "result"@)), None => None }))),
        ("task_id"@, spec_field(result, "task_id"@)),
        ("transparent"@, crate::arms::slot_json(match transparent { Some(b) => Some(b.0), None => None })),
    ])
}

/// Writes a pair of the start-up report from its arms and their positions.
pub fn startup_pair(pair_id: &str, manifest: &JsonValue, shell: Option<(usize, &JsonValue)>, transparent: Option<(usize, &JsonValue)>) -> (r: JsonValue)
    requires
        shell is Some || transparent is Some,
    ensures
        r@ == spec_startup_pair(pair_id@, manifest@,
            match shell { Some(a) => Some((a.0 as nat, a.1@)), None => None },
            match transparent { Some(b) => Some((b.0 as nat, b.1@)), None => None }),
{
    let rep = match shell { Some(a) => a.1, None => match transparent { Some(b) => b.1, None => manifest } };
    let result = rep.field("result");
    let left = match shell { Some(a) => Some(a.1.field("result")), None => None };
    let right = match transparent { Some(b) => Some(b.1.field("result")), None => None };
    let strict = crate::arms::comparable(left.as_ref(), right.as_ref());
    let mut m: Vec<(String, JsonValue)> = Vec::new();
    assert(member_views(m@) =~= Seq::<(Seq<char>, Json)>::empty());
    push_member(&mut m, "category", result.field("observation"));
    push_member(&mut m, "pair_id", text_value(pair_id));
    push_member(&mut m, "platform", manifest.field("platform"));
    push_member(&mut m, "shell", match shell { Some(a) => JsonValue::Number(JsonNumber::PosInt(a.0 as u64)), None => JsonValue::Null });
    push_member(&mut m, "strict_comparable", JsonValue::Bool(strict));
    push_member(&mut m, "task_id", result.field("task_id"));
    push_member(&mut m, "transparent", match transparent { Some(b) => JsonValue::Number(JsonNumber::PosInt(b.0 as u64)), None => JsonValue::Null });
    let r = object_of(m);
    let ghost sv = match shell { Some(a) => Some((a.0 as nat, a.1@)), None => None };
    let ghost tv = match transparent { Some(b) => Some((b.0 as nat, b.1@)), None => None };
    assert(r@ =~= spec_startup_pair(pair_id@, manifest@, sv, tv)) by {
        if let Json::Object(a) = r@ {
            if let Json::Object(b) = spec_startup_pair(pair_id@, manifest@, sv, tv) {
                assert(a =~= b);
            }
        }
    }
    r
}

/// How many of the first `n` rows are formal start-up arms that did not
/// succeed.
pub open spec fn failures_upto(rows: Seq<Json>, n: int) -> nat
    decreases n,
{
    if n <= 0 || n > rows.len() {
        0
    } else {
        failures_upto(rows, n - 1) + if spec_formal_startup(rows[n - 1]) && !spec_is_text(spec_field(rows[n - 1], "status"@), "success"@) { 1nat } else { 0nat }
    }
}

/// Counts the formal start-up arms that did not succeed.
pub fn startup_failures(rows: &[JsonValue]) -> (r: usize)
    ensures
        r == failures_upto(crate::evidence::value_views(rows@), rows@.len() as int),
{
    let ghost v = crate::evidence::value_views(rows@);
    let mut n: usize = 0;
    let mut i: usize = 0;
    while i < rows.len()
        invariant
            i <= rows.len(),
            n <= i,
            v == crate::evidence::value_views(rows@),
            n == failures_upto(v, i as int),
        decreases rows.len() - i,
    {
        assert(v[i as int] == rows@[i as int]@);
        if formal_startup(&rows[i]) && !rows[i].field("status").is_text("success") {
            n += 1;
        }
        i += 1;
    }
    n
}

/// The pairs the statistics of the first `n` strata found comparable.
pub open spec fn valid_upto(statistics: Seq<Json>, n: int) -> nat
    decreases n,
{
    if n <= 0 || n > statistics.len() {
        0
    } else {
        valid_upto(statistics, n - 1) + match spec_as_u64(spec_field(statistics[n - 1], "pairs"@)) { Some(p) => p as nat, None => 0nat }
    }
}

/// Adds up the comparable pairs of the strata's statistics.
pub fn valid_pairs(statistics: &[JsonValue]) -> (r: u64)
    requires
        valid_upto(crate::evidence::value_views(statistics@), statistics@.len() as int) <= u64::MAX,
    ensures
        r == valid_upto(crate::evidence::value_views(statistics@), statistics@.len() as int),
{
    let ghost v = crate::evidence::value_views(statistics@);
    let mut total: u64 = 0;
    let mut i: usize = 0;
    while i < statistics.len()
        invariant
            i <= statistics.len(),
            v == crate::evidence::value_views(statistics@),
            valid_upto(v, v.len() as int) <= u64::MAX,
            total == valid_upto(v, i as int),
        decreases statistics.len() - i,
    {
        assert(v[i as int] == statistics@[i as int]@);
        proof {
            lemma_valid_grows(v, i + 1, v.len() as int);
        }
        match statistics[i].field("pairs").as_u64() {
            Some(p) => total = total + p,
            None => {},
        }
        i += 1;
    }
    total
}

proof fn lemma_valid_grows(v: Seq<Json>, a: int, b: int)
    requires
        0 <= a <= b <= v.len(),
    ensures
        valid_upto(v, a) <= valid_upto(v, b),
    decreases b - a,
{
    if a < b {
        lemma_valid_grows(v, a, b - 1);
    }
}

/// The planned pairs of a start-up run: six strata (three workloads, two
/// observation modes) of the pairs per stratum.
pub open spec fn startup_target(manifest: Json) -> Option<int> {
    match spec_as_u64(spec_field(manifest, "pairs_per_workload_observation"@)) {
        Some(n) => Some(n * 6),
        None => None,
    }
}

/// The summary of a start-up report.
pub open spec fn spec_startup_summary(failed: nat, complete: bool, manifest: Json, valid: nat, attempted: nat) -> Json {
    Json::Object(seq![
        ("complete_jsonl"@, Json::Bool(complete)),
        ("failed_arms"@, Json::Number(Num::PosInt(failed as u64))),
        ("formal_pairs_per_stratum"@, spec_field(manifest, "pairs_per_workload_observation"@)),
        ("intention_to_treat"@, Json::Object(seq![("attempted_pairs"@, Json::Number(Num::PosInt(attempted as u64)))])),
        ("limits"@, Json::Array(seq![
            Json::Str("Minimal observation is primary. Full trace is a separate perturbation calibration."@),
            Json::Str("All arms create new processes. Warmup is not process reuse."@),
        ])),
        ("partial"@, Json::Bool(match startup_target(manifest) { Some(t) => valid < t, None => true })),
        ("strict_comparable_pairs"@, Json::Number(Num::PosInt(valid as u64))),
        ("target_pairs"@, match startup_target(manifest) { Some(t) => Json::Number(Num::PosInt(t as u64)), None => Json::Null }),
    ])
}

/// Writes the summary of a start-up report.
pub fn startup_summary(failed: usize, complete: bool, manifest: &JsonValue, valid: u64, attempted: usize) -> (r: JsonValue)
    requires
        match startup_target(manifest@) { Some(t) => t <= u64::MAX, None => true },
    ensures
        r@ == spec_startup_summary(failed as nat, complete, manifest@, valid as nat, attempted as nat),
{
    let target = match manifest.field("pairs_per_workload_observation").as_u64() {
        Some(n) => Some(n * 6),
        None => None,
    };
    let mut itt: Vec<(String, JsonValue)> = Vec::new();
    assert(member_views(itt@) =~= Seq::<(Seq<char>, Json)>::empty());
    push_member(&mut itt, "attempted_pairs", JsonValue::Number(JsonNumber::PosInt(attempted as u64)));
    let mut limits: Vec<JsonValue> = Vec::new();
    limits.push(text_value("Minimal observation is primary. Full trace is a separate perturbation calibration."));
    limits.push(text_value("All arms create new processes. Warmup is not process reuse."));
    let limits_value = JsonValue::Array(limits);
    assert(limits_value@ == Json::Array(seq![
        Json::Str("Minimal observation is primary. Full trace is a separate perturbation calibration."@),
        Json::Str("All arms create new processes. Warmup is not process reuse."@),
    ])) by {
        if let Json::Array(a) = limits_value@ {
            assert(a =~= seq![
                Json::Str("Minimal observation is primary. Full trace is a separate perturbation calibration."@),
                Json::Str("All arms create new processes. Warmup is not process reuse."@),
            ]);
        }
    }
    let itt_value = object_of(itt);
    let mut m: Vec<(String, JsonValue)> = Vec::new();
    assert(member_views(m@) =~= Seq::<(Seq<char>, Json)>::empty());
    push_member(&mut m, "complete_jsonl", JsonValue::Bool(complete));
    push_member(&mut m, "failed_arms", JsonValue::Number(JsonNumber::PosInt(failed as u64)));
    push_member(&mut m, "formal_pairs_per_stratum", manifest.field("pairs_per_workload_observation"));
    push_member(&mut m, "intention_to_treat", itt_value);
    push_member(&mut m, "limits", limits_value);
    push_member(&mut m, "partial", JsonValue::Bool(match target { Some(t) => valid < t, None => true }));
    push_member(&mut m, "strict_comparable_pairs", JsonValue::Number(JsonNumber::PosInt(valid)));
    push_member(&mut m, "target_pairs", match target { Some(t) => JsonValue::Number(JsonNumber::PosInt(t)), None => JsonValue::Null });
    let r = object_of(m);
    assert(r@ =~= spec_startup_summary(failed as nat, complete, manifest@, valid as nat, attempted as nat)) by {
        if let Json::Object(a) = r@ {
            if let Json::Object(b) = spec_startup_summary(failed as nat, complete, manifest@, valid as nat, attempted as nat) {
                assert(a =~= b);
            }
        }
    }
    r
}

} // verus!
