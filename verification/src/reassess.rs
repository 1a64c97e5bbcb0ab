//! Re-reading an online evaluation from its raw Codex evidence: each exit of
//! Codex in the online experiment is assessed again from the stream and
//! metadata it left, and the child's exit of the same attempt takes the
//! command outcome of that assessment.
use vstd::prelude::*;
use crate::codex_evidence::{
    Assessment, AssessmentView, CommandOracle, OracleView, ParsedView, ProcessEvidence, assess,
    http_error_status, parse_codex_output, spec_assess, spec_http_status, spec_parse_codex,
};
use crate::eval::{field, spec_field_text};
use crate::json::{Json, JsonNumber, JsonValue, Num, spec_as_bool, spec_as_i64, spec_as_str, spec_field, str_eq};
use crate::json_object::{spec_with_member, text_value, with_member};
use crate::pairs::is_codex_exit;

verus! {

/// The experiment whose rows are re-assessed.
pub open spec fn online_experiment() -> Seq<char> {
    "codex-relay-online-v1"@
}

/// Whether a row is the exit of the command's child process.
pub open spec fn is_child_exit(row: Json) -> bool {
    spec_field_text(row, "phase"@) == "child"@ && spec_field_text(row, "event"@) == "exit"@
}

/// What an attempt left behind: its metadata, Codex's standard output and
/// its standard error.
pub struct RawEvidence {
    pub metadata: JsonValue,
    pub stdout: Vec<u8>,
    pub stderr: String,
}

/// The view of [`RawEvidence`].
pub struct RawView {
    pub metadata: Json,
    pub stdout: Seq<u8>,
    pub stderr: Seq<char>,
}

impl RawEvidence {
    pub open spec fn view(&self) -> RawView {
        RawView { metadata: self.metadata@, stdout: self.stdout@, stderr: self.stderr@ }
    }
}

/// A whole number that fits in an `i32` (`i32::try_from`).
pub open spec fn fit_i32(n: Option<i64>) -> Option<i32> {
    match n {
        Some(c) => if i32::MIN <= c <= i32::MAX { Some(c as i32) } else { None },
        None => None,
    }
}

/// How Codex ended, by the metadata: its exit code, whether it timed out
/// (the flag, else a `codex_timeout` failure class), and whether it could
/// not be spawned (a spawn error, or a `codex_spawn` failure class).
pub open spec fn spec_process_evidence(metadata: Json) -> ProcessEvidence {
    ProcessEvidence {
        exit_code: fit_i32(spec_as_i64(spec_field(metadata, "codex_exit_code"@))),
        timed_out: match spec_as_bool(spec_field(metadata, "timed_out"@)) {
            Some(b) => b,
            None => spec_field(metadata, "failure_class"@) == Json::Str("codex_timeout"@),
        },
        spawn_failed: spec_field(metadata, "spawn_error"@) is Str
            || spec_field(metadata, "failure_class"@) == Json::Str("codex_spawn"@),
    }
}

/// What the command was expected to do, by the metadata.
pub open spec fn spec_oracle(metadata: Json) -> OracleView {
    OracleView {
        expected_exit: fit_i32(spec_as_i64(spec_field(metadata, "expected_command_exit"@))),
        expected_marker: spec_as_str(spec_field(metadata, "expected_marker"@)),
        forbidden_path_exists: spec_as_bool(spec_field(metadata, "forbidden_path_exists"@)),
    }
}

fn fit(n: Option<i64>) -> (r: Option<i32>)
    ensures
        r == fit_i32(n),
{
    match n {
        Some(c) => if -2147483648i64 <= c && c <= 2147483647i64 { Some(c as i32) } else { None },
        None => None,
    }
}

/// Reads how Codex ended from the attempt's metadata.
pub fn process_evidence(metadata: &JsonValue) -> (r: ProcessEvidence)
    ensures
        r == spec_process_evidence(metadata@),
{
    let exit_code = fit(metadata.field("codex_exit_code").as_i64());
    let timed_out = match metadata.field("timed_out").as_bool() {
        Some(b) => b,
        None => metadata.field("failure_class").is_text("codex_timeout"),
    };
    let spawn_error = match metadata.get("spawn_error") {
        Some(JsonValue::Str(_)) => true,
        _ => false,
    };
    let spawn_failed = spawn_error || metadata.field("failure_class").is_text("codex_spawn");
    ProcessEvidence { exit_code, timed_out, spawn_failed }
}

/// Reads what the command was expected to do from the attempt's metadata.
pub fn command_oracle(metadata: &JsonValue) -> (r: CommandOracle<'_>)
    ensures
        r@ == spec_oracle(metadata@),
{
    CommandOracle {
        expected_exit: fit(metadata.field("expected_command_exit").as_i64()),
        expected_marker: metadata.field_str("expected_marker"),
        forbidden_path_exists: metadata.field("forbidden_path_exists").as_bool(),
    }
}


/// `null` or the string.
pub open spec fn opt_text_json(o: Option<Seq<char>>) -> Json {
    match o {
        Some(t) => Json::Str(t),
        None => Json::Null,
    }
}

/// `null` or the status code.
pub open spec fn opt_status_json(o: Option<u16>) -> Json {
    match o {
        Some(c) => Json::Number(Num::PosInt(c as u64)),
        None => Json::Null,
    }
}

/// The row with the recorded status and failure class kept aside.
pub open spec fn recorded_row(row: Json) -> Json {
    let r1 = spec_with_member(row, "recorded_status"@, spec_field(row, "status"@));
    spec_with_member(r1, "recorded_failure_class"@, spec_field(r1, "failure_class"@))
}

/// The row of an attempt whose raw evidence could not be read.
pub open spec fn missing_evidence_row(row: Json) -> Json {
    let r1 = spec_with_member(row, "status"@, Json::Str("harness_error"@));
    let r2 = spec_with_member(r1, "failure_class"@, Json::Str("missing_raw_codex_evidence"@));
    let r3 = spec_with_member(r2, "command_outcome"@, Json::Str("unknown"@));
    let r4 = spec_with_member(r3, "command_failure_class"@, Json::Str("missing_raw_codex_evidence"@));
    spec_with_member(r4, "classification_source"@, Json::Str("raw_evidence_unavailable"@))
}

/// The row of an attempt assessed from its raw evidence.
pub open spec fn assessed_row(row: Json, a: AssessmentView, p: ParsedView, stderr: Seq<char>) -> Json {
    let r1 = spec_with_member(row, "status"@, Json::Str(a.status));
    let r2 = spec_with_member(r1, "failure_class"@, opt_text_json(a.failure_class));
    let r3 = spec_with_member(r2, "command_outcome"@, Json::Str(a.command_outcome));
    let r4 = spec_with_member(r3, "command_failure_class"@, opt_text_json(a.command_failure_class));
    let r5 = spec_with_member(r4, "command_events"@, Json::Number(Num::PosInt(p.command_events as u64)));
    let r6 = spec_with_member(r5, "command_exit_code"@, crate::startup::opt_i32_json(p.command_exit_code));
    let r7 = spec_with_member(r6, "http_status"@, opt_status_json(spec_http_status(p, stderr)));
    let r8 = spec_with_member(r7, "turn_completed"@, Json::Bool(p.turn_completed));
    let r9 = spec_with_member(r8, "usage"@, match p.usage { Some(u) => u, None => Json::Null });
    let r10 = spec_with_member(r9, "error_messages"@, Json::Array(p.messages.map_values(|m: Seq<char>| Json::Str(m))));
    spec_with_member(r10, "classification_source"@, Json::Str("raw_codex_evidence_v2"@))
}

/// The assessment of an attempt from its raw evidence.
pub open spec fn assessment_of(e: RawView) -> AssessmentView {
    spec_assess(spec_parse_codex(e.stdout), e.stderr, spec_process_evidence(e.metadata), spec_oracle(e.metadata))
}

/// A Codex exit row re-assessed: rows of other experiments stay as they
/// are; the others keep their recorded verdict aside and take the new one,
/// or a harness error where the raw evidence is missing.
pub open spec fn spec_reassess_codex_row(row: Json, evidence: Option<RawView>) -> Json {
    if spec_field_text(row, "experiment_id"@) != online_experiment() {
        row
    } else {
        match evidence {
            None => missing_evidence_row(recorded_row(row)),
            Some(e) => assessed_row(recorded_row(row), assessment_of(e), spec_parse_codex(e.stdout), e.stderr),
        }
    }
}

/// A child exit row given the assessment of its attempt, where there is one.
pub open spec fn spec_reassess_child_row(row: Json, a: Option<AssessmentView>) -> Json {
    match a {
        None => row,
        Some(a) => {
            let r1 = spec_with_member(row, "recorded_status"@, spec_field(row, "status"@));
            let r2 = spec_with_member(r1, "status"@, Json::Str(a.command_outcome));
            let r3 = spec_with_member(r2, "failure_class"@, opt_text_json(a.command_failure_class));
            spec_with_member(r3, "classification_source"@, Json::Str("raw_codex_evidence_v2"@))
        },
    }
}

/// A row whose `phase` is a string is an object.
pub proof fn lemma_text_field_object(row: Json, name: Seq<char>)
    requires
        spec_field_text(row, name) != "unknown"@,
    ensures
        row is Object,
{
}

fn opt_text_value(o: &Option<String>) -> (r: JsonValue)
    ensures
        r@ == opt_text_json(crate::codex_evidence::opt_text(*o)),
{
    match o {
        Some(t) => text_value(t.as_str()),
        None => JsonValue::Null,
    }
}

fn messages_value(messages: &Vec<String>) -> (r: JsonValue)
    ensures
        r@ == Json::Array(Seq::new(messages@.len(), |i: int| messages@[i]@).map_values(|m: Seq<char>| Json::Str(m))),
{
    let mut out: Vec<JsonValue> = Vec::new();
    let mut i: usize = 0;
    while i < messages.len()
        invariant
            i <= messages@.len(),
            out@.len() == i,
            forall|j: int| 0 <= j < i ==> (#[trigger] out@[j])@ == Json::Str(messages@[j]@),
        decreases messages.len() - i,
    {
        out.push(text_value(messages[i].as_str()));
        i += 1;
    }
    let r = JsonValue::Array(out);
    assert(r@ == Json::Array(Seq::new(messages@.len(), |i: int| messages@[i]@).map_values(|m: Seq<char>| Json::Str(m)))) by {
        if let Json::Array(a) = r@ {
            assert(a =~= Seq::new(messages@.len(), |i: int| messages@[i]@).map_values(|m: Seq<char>| Json::Str(m)));
        }
    }
    r
}

/// Keeps the row's recorded status and failure class aside.
fn record(row: JsonValue) -> (r: JsonValue)
    requires
        row@ is Object,
    ensures
        r@ == recorded_row(row@),
        r@ is Object,
{
    let status = row.field("status");
    let r1 = with_member(row, "recorded_status", status);
    let class = r1.field("failure_class");
    with_member(r1, "recorded_failure_class", class)
}

/// Re-assesses one Codex exit row from the attempt's raw evidence (`None`
/// where it could not be read); gives the assessment where one was made.
pub fn reassess_codex_row(row: JsonValue, evidence: Option<&RawEvidence>) -> (r: (JsonValue, Option<Assessment>))
    requires
        is_codex_exit(row@),
    ensures
        r.0@ == spec_reassess_codex_row(row@, match evidence { Some(e) => Some(e@), None => None }),
        match r.1 {
            Some(a) => spec_field_text(row@, "experiment_id"@) == online_experiment() && evidence is Some
                && a@ == assessment_of(evidence.unwrap()@),
            None => spec_field_text(row@, "experiment_id"@) != online_experiment() || evidence is None,
        },
{
    proof {
        reveal_strlit("codex");
        reveal_strlit("unknown");
        assert("codex"@.len() != "unknown"@.len());
        lemma_text_field_object(row@, "phase"@);
    }
    if !str_eq(field(&row, "experiment_id"), "codex-relay-online-v1") {
        return (row, None);
    }
    let recorded = record(row);
    match evidence {
        None => {
            let r1 = with_member(recorded, "status", text_value("harness_error"));
            let r2 = with_member(r1, "failure_class", text_value("missing_raw_codex_evidence"));
            let r3 = with_member(r2, "command_outcome", text_value("unknown"));
            let r4 = with_member(r3, "command_failure_class", text_value("missing_raw_codex_evidence"));
            let r5 = with_member(r4, "classification_source", text_value("raw_evidence_unavailable"));
            (r5, None)
        },
        Some(e) => {
            let parsed = parse_codex_output(e.stdout.as_slice());
            let process = process_evidence(&e.metadata);
            let oracle = command_oracle(&e.metadata);
            let a = assess(&parsed, e.stderr.as_str(), process, oracle);
            let status = http_error_status(&parsed, e.stderr.as_str());
            let r1 = with_member(recorded, "status", text_value(a.status.as_str()));
            let r2 = with_member(r1, "failure_class", opt_text_value(&a.failure_class));
            let r3 = with_member(r2, "command_outcome", text_value(a.command_outcome.as_str()));
            let r4 = with_member(r3, "command_failure_class", opt_text_value(&a.command_failure_class));
            let r5 = with_member(r4, "command_events", JsonValue::Number(JsonNumber::PosInt(parsed.command_events as u64)));
            let r6 = with_member(r5, "command_exit_code", crate::startup::opt_i32_value(parsed.command_exit_code));
            let sv = match status { Some(c) => JsonValue::Number(JsonNumber::PosInt(c as u64)), None => JsonValue::Null };
            let r7 = with_member(r6, "http_status", sv);
            let r8 = with_member(r7, "turn_completed", JsonValue::Bool(parsed.turn_completed));
            let uv = match &parsed.usage { Some(u) => u.copy(), None => JsonValue::Null };
            let r9 = with_member(r8, "usage", uv);
            let r10 = with_member(r9, "error_messages", messages_value(&parsed.messages));
            let r11 = with_member(r10, "classification_source", text_value("raw_codex_evidence_v2"));
            (r11, Some(a))
        },
    }
}

/// Gives a child exit row the command outcome of its attempt's assessment.
pub fn reassess_child_row(row: JsonValue, assessment: Option<&Assessment>) -> (r: JsonValue)
    requires
        is_child_exit(row@),
    ensures
        r@ == spec_reassess_child_row(row@, match assessment { Some(a) => Some(a@), None => None }),
{
    proof {
        reveal_strlit("child");
        reveal_strlit("unknown");
        assert("child"@.len() != "unknown"@.len());
        lemma_text_field_object(row@, "phase"@);
    }
    match assessment {
        None => row,
        Some(a) => {
            let status = row.field("status");
            let r1 = with_member(row, "recorded_status", status);
            let r2 = with_member(r1, "status", text_value(a.command_outcome.as_str()));
            let r3 = with_member(r2, "failure_class", opt_text_value(&a.command_failure_class));
            with_member(r3, "classification_source", text_value("raw_codex_evidence_v2"))
        },
    }
}


/// The views of the evidence list.
pub open spec fn evidence_views(e: Seq<Option<RawEvidence>>) -> Seq<Option<RawView>> {
    Seq::new(e.len(), |i: int| match e[i] { Some(x) => Some(x@), None => None })
}

/// The assessment a row yields: a Codex exit of the online experiment whose
/// raw evidence was read.
pub open spec fn codex_assessment(row: Json, evidence: Option<RawView>) -> Option<AssessmentView> {
    if is_codex_exit(row) && spec_field_text(row, "experiment_id"@) == online_experiment() && evidence is Some {
        Some(assessment_of(evidence.unwrap()))
    } else {
        None
    }
}

/// The assessments made by the first `n` rows, with their attempt IDs, in
/// order.
pub open spec fn assessments_upto(rows: Seq<Json>, evidence: Seq<Option<RawView>>, n: int) -> Seq<(Seq<char>, AssessmentView)>
    decreases n,
{
    if n <= 0 {
        Seq::empty()
    } else {
        let before = assessments_upto(rows, evidence, n - 1);
        match codex_assessment(rows[n - 1], evidence[n - 1]) {
            Some(a) => before.push((spec_field_text(rows[n - 1], "attempt_id"@), a)),
            None => before,
        }
    }
}

/// The last assessment among the first `n` entries for the attempt `id`.
pub open spec fn last_for(t: Seq<(Seq<char>, AssessmentView)>, id: Seq<char>, n: int) -> Option<AssessmentView>
    decreases n,
{
    if n <= 0 {
        None
    } else if t[n - 1].0 == id {
        Some(t[n - 1].1)
    } else {
        last_for(t, id, n - 1)
    }
}

/// A row after the re-assessment: Codex exits re-assessed, a child's exit
/// given the last assessment made for its attempt, other rows unchanged.
pub open spec fn reassessed_row(rows: Seq<Json>, evidence: Seq<Option<RawView>>, i: int) -> Json {
    let t = assessments_upto(rows, evidence, rows.len() as int);
    if is_codex_exit(rows[i]) {
        spec_reassess_codex_row(rows[i], evidence[i])
    } else if is_child_exit(rows[i]) {
        spec_reassess_child_row(rows[i], last_for(t, spec_field_text(rows[i], "attempt_id"@), t.len() as int))
    } else {
        rows[i]
    }
}

/// The rows after the re-assessment.
pub open spec fn spec_reassessed(rows: Seq<Json>, evidence: Seq<Option<RawView>>) -> Seq<Json> {
    Seq::new(rows.len(), |i: int| reassessed_row(rows, evidence, i))
}

/// The views of a table of assessments.
pub open spec fn table_views(t: Seq<(String, Assessment)>) -> Seq<(Seq<char>, AssessmentView)> {
    Seq::new(t.len(), |i: int| (t[i].0@, t[i].1@))
}

fn is_codex_exit_row(row: &JsonValue) -> (r: bool)
    ensures
        r == is_codex_exit(row@),
{
    str_eq(field(row, "phase"), "codex") && str_eq(field(row, "event"), "exit")
}

fn is_child_exit_row(row: &JsonValue) -> (r: bool)
    ensures
        r == is_child_exit(row@),
{
    str_eq(field(row, "phase"), "child") && str_eq(field(row, "event"), "exit")
}

fn last_assessment<'a>(table: &'a Vec<(String, Assessment)>, id: &str) -> (r: Option<&'a Assessment>)
    ensures
        match r { Some(a) => Some(a@), None => None } == last_for(table_views(table@), id@, table@.len() as int),
{
    let ghost t = table_views(table@);
    let mut k: usize = table.len();
    while k > 0
        invariant
            k <= table@.len(),
            t == table_views(table@),
            last_for(t, id@, table@.len() as int) == last_for(t, id@, k as int),
        decreases k,
    {
        if str_eq(table[k - 1].0.as_str(), id) {
            assert(t[k - 1] == (table@[k - 1].0@, table@[k - 1].1@));
            return Some(&table[k - 1].1);
        }
        assert(t[k - 1].0 == table@[k - 1].0@);
        k -= 1;
    }
    None
}

/// Re-assesses the rows of an online evaluation. `evidence[i]` is the raw
/// evidence read back for row `i` where it is a Codex exit whose artifact
/// directory could be read, `None` elsewhere.
pub fn reassess_online_events(rows: &mut Vec<JsonValue>, evidence: &Vec<Option<RawEvidence>>)
    requires
        old(rows)@.len() == evidence@.len(),
    ensures
        crate::evidence::value_views(final(rows)@) == spec_reassessed(crate::evidence::value_views(old(rows)@), evidence_views(evidence@)),
{
    let ghost rv = crate::evidence::value_views(rows@);
    let ghost ev = evidence_views(evidence@);
    let mut table: Vec<(String, Assessment)> = Vec::new();
    let mut out: Vec<JsonValue> = Vec::new();
    let mut i: usize = 0;
    while i < rows.len()
        invariant
            i <= rows@.len(),
            rows@.len() == evidence@.len(),
            rv == crate::evidence::value_views(rows@),
            ev == evidence_views(evidence@),
            table_views(table@) == assessments_upto(rv, ev, i as int),
            out@.len() == i,
            forall|j: int| 0 <= j < i ==> (#[trigger] out@[j])@ == (if is_codex_exit(rv[j]) { spec_reassess_codex_row(rv[j], ev[j]) } else { rv[j] }),
        decreases rows.len() - i,
    {
        assert(rv[i as int] == rows@[i as int]@);
        assert(ev[i as int] == match evidence@[i as int] { Some(x) => Some(x@), None => None });
        let ghost before = table_views(table@);
        if is_codex_exit_row(&rows[i]) {
            let e = match &evidence[i] { Some(x) => Some(x), None => None };
            let id = crate::text::owned(field(&rows[i], "attempt_id"));
            let (row, a) = reassess_codex_row(rows[i].copy(), e);
            out.push(row);
            match a {
                Some(a) => {
                    let ghost av = a@;
                    table.push((id, a));
                    assert(table_views(table@) =~= before.push((spec_field_text(rv[i as int], "attempt_id"@), av)));
                },
                None => {
                    assert(table_views(table@) =~= before);
                },
            }
        } else {
            out.push(rows[i].copy());
            assert(table_views(table@) =~= before);
        }
        i += 1;
    }
    let ghost t = table_views(table@);
    let mut fin: Vec<JsonValue> = Vec::new();
    let mut i: usize = 0;
    while i < rows.len()
        invariant
            i <= rows@.len(),
            out@.len() == rows@.len(),
            rv == crate::evidence::value_views(rows@),
            t == table_views(table@),
            t == assessments_upto(rv, ev, rv.len() as int),
            forall|j: int| 0 <= j < rows@.len() ==> (#[trigger] out@[j])@ == (if is_codex_exit(rv[j]) { spec_reassess_codex_row(rv[j], ev[j]) } else { rv[j] }),
            fin@.len() == i,
            forall|j: int| 0 <= j < i ==> (#[trigger] fin@[j])@ == reassessed_row(rv, ev, j),
        decreases rows.len() - i,
    {
        assert(rv[i as int] == rows@[i as int]@);
        if is_child_exit_row(&rows[i]) && !is_codex_exit_row(&rows[i]) {
            let a = last_assessment(&table, field(&rows[i], "attempt_id"));
            fin.push(reassess_child_row(rows[i].copy(), a));
        } else {
            fin.push(out[i].copy());
        }
        i += 1;
    }
    proof {
        assert(crate::evidence::value_views(fin@) =~= spec_reassessed(rv, ev));
    }
    *rows = fin;
}


/// Whether a path is relative and made of plain names only (every
/// `Path::components` entry is `Normal`): not rooted, not starting with a
/// `.` segment, and without a `..` segment. Empty and interior `.`
/// segments are no components.
pub open spec fn spec_normal_relative(path: Seq<char>) -> bool {
    let segments = crate::text::spec_split(path, '/');
    &&& !(path.len() > 0 && path[0] == '/')
    &&& segments[0] != "."@
    &&& forall|k: int| 0 <= k < segments.len() ==> #[trigger] segments[k] != ".."@
}

/// Decides whether an artifact directory names a path inside the run.
pub fn normal_relative_path(path: &str) -> (r: bool)
    ensures
        r == spec_normal_relative(path@),
{
    let chars = crate::text::chars_of(path);
    if chars.len() > 0 && chars[0] == '/' {
        return false;
    }
    let segments = crate::text::split_on(chars.as_slice(), '/');
    let ghost sv = crate::text::char_views(segments@);
    assert(sv == crate::text::spec_split(path@, '/'));
    proof {
        reveal_strlit(".");
        reveal_strlit("..");
        crate::text::lemma_split_nonempty(chars@, '/');
    }
    let dot: Vec<char> = vec!['.'];
    let dots: Vec<char> = vec!['.', '.'];
    assert(dot@ =~= "."@);
    assert(dots@ =~= ".."@);
    assert(sv[0] == segments@[0]@);
    if crate::text::chars_eq(segments[0].as_slice(), dot.as_slice()) {
        assert(sv[0] =~= "."@);
        return false;
    }
    let mut k: usize = 0;
    while k < segments.len()
        invariant
            k <= segments@.len(),
            sv == crate::text::char_views(segments@),
            sv == crate::text::spec_split(path@, '/'),
            dots@ == ".."@,
            forall|j: int| 0 <= j < k ==> #[trigger] sv[j] != ".."@,
        decreases segments.len() - k,
    {
        assert(sv[k as int] == segments@[k as int]@);
        if crate::text::chars_eq(segments[k].as_slice(), dots.as_slice()) {
            assert(sv[k as int] =~= ".."@);
            return false;
        }
        k += 1;
    }
    true
}


/// Setting a key other than `other` keeps the member under `other`.
proof fn lemma_keeps(value: Json, key: Seq<char>, v: Json, other: Seq<char>)
    requires
        value is Object || value is Null,
        key != other,
    ensures
        crate::json::spec_member(spec_with_member(value, key, v), other) == crate::json::spec_member(value, other),
        spec_with_member(value, key, v) is Object,
{
    crate::json_object::lemma_with_member_lookup(value, key, v, other);
}

/// A re-assessed Codex exit of the online experiment keeps the status it
/// was stored with as its `recorded_status`, whether or not its raw
/// evidence could be read.
pub proof fn lemma_reassessed_keeps_recorded_status(row: Json, evidence: Option<RawView>)
    requires
        is_codex_exit(row),
        spec_field_text(row, "experiment_id"@) == online_experiment(),
    ensures
        crate::json::spec_member(spec_reassess_codex_row(row, evidence), "recorded_status"@) == Some(spec_field(row, "status"@)),
{
    let rs = "recorded_status"@;
    reveal_strlit("codex");
    reveal_strlit("unknown");
    reveal_strlit("recorded_status");
    reveal_strlit("recorded_failure_class");
    reveal_strlit("status");
    reveal_strlit("failure_class");
    reveal_strlit("command_outcome");
    reveal_strlit("command_failure_class");
    reveal_strlit("classification_source");
    reveal_strlit("command_events");
    reveal_strlit("command_exit_code");
    reveal_strlit("http_status");
    reveal_strlit("turn_completed");
    reveal_strlit("usage");
    reveal_strlit("error_messages");
    assert("codex"@.len() != "unknown"@.len());
    lemma_text_field_object(row, "phase"@);
    let r1 = spec_with_member(row, rs, spec_field(row, "status"@));
    crate::json_object::lemma_with_member_lookup(row, rs, spec_field(row, "status"@), rs);
    assert("recorded_failure_class"@.len() != rs.len());
    lemma_keeps(r1, "recorded_failure_class"@, spec_field(r1, "failure_class"@), rs);
    let r = recorded_row(row);
    assert(crate::json::spec_member(r, rs) == Some(spec_field(row, "status"@)));
    assert("status"@.len() != rs.len());
    assert("failure_class"@.len() != rs.len());
    assert("command_outcome"@[0] != rs[0]);
    assert("command_failure_class"@.len() != rs.len());
    assert("classification_source"@.len() != rs.len());
    match evidence {
        None => {
            let q1 = spec_with_member(r, "status"@, Json::Str("harness_error"@));
            lemma_keeps(r, "status"@, Json::Str("harness_error"@), rs);
            let q2 = spec_with_member(q1, "failure_class"@, Json::Str("missing_raw_codex_evidence"@));
            lemma_keeps(q1, "failure_class"@, Json::Str("missing_raw_codex_evidence"@), rs);
            let q3 = spec_with_member(q2, "command_outcome"@, Json::Str("unknown"@));
            lemma_keeps(q2, "command_outcome"@, Json::Str("unknown"@), rs);
            let q4 = spec_with_member(q3, "command_failure_class"@, Json::Str("missing_raw_codex_evidence"@));
            lemma_keeps(q3, "command_failure_class"@, Json::Str("missing_raw_codex_evidence"@), rs);
            lemma_keeps(q4, "classification_source"@, Json::Str("raw_evidence_unavailable"@), rs);
        },
        Some(e) => {
            let a = assessment_of(e);
            let p = spec_parse_codex(e.stdout);
            assert("command_events"@.len() != rs.len());
            assert("command_exit_code"@.len() != rs.len());
            assert("http_status"@.len() != rs.len());
            assert("turn_completed"@.len() != rs.len());
            assert("usage"@.len() != rs.len());
            assert("error_messages"@.len() != rs.len());
            let q1 = spec_with_member(r, "status"@, Json::Str(a.status));
            lemma_keeps(r, "status"@, Json::Str(a.status), rs);
            let q2 = spec_with_member(q1, "failure_class"@, opt_text_json(a.failure_class));
            lemma_keeps(q1, "failure_class"@, opt_text_json(a.failure_class), rs);
            let q3 = spec_with_member(q2, "command_outcome"@, Json::Str(a.command_outcome));
            lemma_keeps(q2, "command_outcome"@, Json::Str(a.command_outcome), rs);
            let q4 = spec_with_member(q3, "command_failure_class"@, opt_text_json(a.command_failure_class));
            lemma_keeps(q3, "command_failure_class"@, opt_text_json(a.command_failure_class), rs);
            let q5 = spec_with_member(q4, "command_events"@, Json::Number(Num::PosInt(p.command_events as u64)));
            lemma_keeps(q4, "command_events"@, Json::Number(Num::PosInt(p.command_events as u64)), rs);
            let q6 = spec_with_member(q5, "command_exit_code"@, crate::startup::opt_i32_json(p.command_exit_code));
            lemma_keeps(q5, "command_exit_code"@, crate::startup::opt_i32_json(p.command_exit_code), rs);
            let q7 = spec_with_member(q6, "http_status"@, opt_status_json(spec_http_status(p, e.stderr)));
            lemma_keeps(q6, "http_status"@, opt_status_json(spec_http_status(p, e.stderr)), rs);
            let q8 = spec_with_member(q7, "turn_completed"@, Json::Bool(p.turn_completed));
            lemma_keeps(q7, "turn_completed"@, Json::Bool(p.turn_completed), rs);
            let u = match p.usage { Some(u) => u, None => Json::Null };
            let q9 = spec_with_member(q8, "usage"@, u);
            lemma_keeps(q8, "usage"@, u, rs);
            let msgs = Json::Array(p.messages.map_values(|m: Seq<char>| Json::Str(m)));
            let q10 = spec_with_member(q9, "error_messages"@, msgs);
            lemma_keeps(q9, "error_messages"@, msgs, rs);
            lemma_keeps(q10, "classification_source"@, Json::Str("raw_codex_evidence_v2"@), rs);
        },
    }
}

} // verus!
