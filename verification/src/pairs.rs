//! The report's view of an evaluation: which rows end an arm, the pairs of
//! arms, how each pair compares, and the counts of the summary.
use vstd::prelude::*;
use crate::eval::{field, spec_field_text, spec_text_field, text_field};
use crate::json::{Json, JsonNumber, JsonValue, Num, spec_as_str, spec_as_u64, spec_field, str_eq};
use crate::json_object::{member_views, object_of, push_member, text_value};
use crate::order::{key_lt, keys_of, locate, sorted_table, strictly_sorted};
use crate::text::owned;

verus! {

/// Whether a row is the exit of Codex.
pub open spec fn is_codex_exit(row: Json) -> bool {
    spec_field_text(row, "phase"@) == "codex"@ && spec_field_text(row, "event"@) == "exit"@
}

/// Whether Codex's exit was recorded for the attempt `attempt`.
pub open spec fn codex_exited(rows: Seq<Json>, attempt: Seq<char>) -> bool {
    exists|i: int| 0 <= i < rows.len() && is_codex_exit(#[trigger] rows[i])
        && spec_field_text(rows[i], "attempt_id"@) == attempt
}

/// Whether a row ends an arm: Codex's exit, or the child's exit of an
/// attempt whose Codex exit was not recorded.
pub open spec fn ends_arm(rows: Seq<Json>, row: Json) -> bool {
    spec_field_text(row, "event"@) == "exit"@
        && (spec_field_text(row, "phase"@) == "codex"@
            || (spec_field_text(row, "phase"@) == "child"@
                && !codex_exited(rows, spec_field_text(row, "attempt_id"@))))
}

/// The rows among the first `n` that end an arm, in order.
pub open spec fn exits_upto(rows: Seq<Json>, n: int) -> Seq<Json>
    decreases n,
{
    if n <= 0 || n > rows.len() {
        Seq::empty()
    } else if ends_arm(rows, rows[n - 1]) {
        exits_upto(rows, n - 1).push(rows[n - 1])
    } else {
        exits_upto(rows, n - 1)
    }
}

/// The rows that end an arm.
pub open spec fn spec_exit_rows(rows: Seq<Json>) -> Seq<Json> {
    exits_upto(rows, rows.len() as int)
}

/// Whether `s` holds the text `t`.
pub open spec fn holds_text(s: Seq<String>, t: Seq<char>) -> bool {
    exists|i: int| 0 <= i < s.len() && #[trigger] s[i]@ == t
}

fn has_text(s: &Vec<String>, t: &str) -> (r: bool)
    ensures
        r == holds_text(s@, t@),
{
    let mut i: usize = 0;
    while i < s.len()
        invariant
            i <= s.len(),
            forall|j: int| 0 <= j < i ==> #[trigger] s@[j]@ != t@,
        decreases s.len() - i,
    {
        if str_eq(s[i].as_str(), t) {
            return true;
        }
        i += 1;
    }
    false
}

/// The rows that end an arm.
pub fn exit_rows(rows: &[JsonValue]) -> (r: Vec<JsonValue>)
    ensures
        crate::evidence::value_views(r@) == spec_exit_rows(crate::evidence::value_views(rows@)),
{
    let ghost v = crate::evidence::value_views(rows@);
    let mut attempts: Vec<String> = Vec::new();
    let mut i: usize = 0;
    while i < rows.len()
        invariant
            i <= rows.len(),
            v == crate::evidence::value_views(rows@),
            forall|t: Seq<char>| holds_text(attempts@, t) <==> exists|j: int| 0 <= j < i && is_codex_exit(#[trigger] v[j])
                && spec_field_text(v[j], "attempt_id"@) == t,
        decreases rows.len() - i,
    {
        let row = &rows[i];
        assert(v[i as int] == row@);
        let ghost before = attempts@;
        if str_eq(field(row, "phase"), "codex") && str_eq(field(row, "event"), "exit") {
            attempts.push(owned(field(row, "attempt_id")));
            assert forall|t: Seq<char>| holds_text(attempts@, t) <==> exists|j: int| 0 <= j < i + 1 && is_codex_exit(#[trigger] v[j])
                && spec_field_text(v[j], "attempt_id"@) == t by {
                if holds_text(attempts@, t) {
                    let k = choose|k: int| 0 <= k < attempts@.len() && #[trigger] attempts@[k]@ == t;
                    if k < before.len() {
                        assert(before[k] == attempts@[k]);
                        assert(holds_text(before, t));
                    } else {
                        assert(is_codex_exit(v[i as int]));
                    }
                }
                if exists|j: int| 0 <= j < i + 1 && is_codex_exit(#[trigger] v[j]) && spec_field_text(v[j], "attempt_id"@) == t {
                    let j = choose|j: int| 0 <= j < i + 1 && is_codex_exit(#[trigger] v[j]) && spec_field_text(v[j], "attempt_id"@) == t;
                    if j < i {
                        assert(holds_text(before, t));
                        let k = choose|k: int| 0 <= k < before.len() && #[trigger] before[k]@ == t;
                        assert(attempts@[k] == before[k]);
                    } else {
                        assert(attempts@[before.len() as int]@ == t);
                    }
                }
            }
        } else {
            assert forall|t: Seq<char>| holds_text(attempts@, t) <==> exists|j: int| 0 <= j < i + 1 && is_codex_exit(#[trigger] v[j])
                && spec_field_text(v[j], "attempt_id"@) == t by {
                if exists|j: int| 0 <= j < i + 1 && is_codex_exit(#[trigger] v[j]) && spec_field_text(v[j], "attempt_id"@) == t {
                    let j = choose|j: int| 0 <= j < i + 1 && is_codex_exit(#[trigger] v[j]) && spec_field_text(v[j], "attempt_id"@) == t;
                    assert(j != i);
                }
            }
        }
        i += 1;
    }
    let mut out: Vec<JsonValue> = Vec::new();
    let mut k: usize = 0;
    while k < rows.len()
        invariant
            k <= rows.len(),
            v == crate::evidence::value_views(rows@),
            forall|t: Seq<char>| holds_text(attempts@, t) <==> codex_exited(v, t),
            crate::evidence::value_views(out@) == exits_upto(v, k as int),
        decreases rows.len() - k,
    {
        let row = &rows[k];
        assert(v[k as int] == row@);
        let phase = field(row, "phase");
        let keep = str_eq(field(row, "event"), "exit")
            && (str_eq(phase, "codex") || (str_eq(phase, "child") && !has_text(&attempts, field(row, "attempt_id"))));
        let ghost before = crate::evidence::value_views(out@);
        if keep {
            out.push(row.copy());
            assert(crate::evidence::value_views(out@) =~= before.push(v[k as int]));
        }
        k += 1;
    }
    out
}

/// The two arms of a pair, each as the row that ended it.
pub struct PairArms {
    pub task_id: String,
    pub shell: Option<JsonValue>,
    pub transparent: Option<JsonValue>,
}

/// What a pair holds, as plain values.
pub struct PairView {
    pub task_id: Seq<char>,
    pub shell: Option<Json>,
    pub transparent: Option<Json>,
}

/// An optional row by its value.
pub open spec fn opt_view(o: Option<JsonValue>) -> Option<Json> {
    match o {
        Some(v) => Some(v@),
        None => None,
    }
}

impl PairArms {
    pub open spec fn view(&self) -> PairView {
        PairView { task_id: self.task_id@, shell: opt_view(self.shell), transparent: opt_view(self.transparent) }
    }
}

/// A table of pairs by its values.
pub open spec fn table_view(t: Seq<(String, PairArms)>) -> Seq<(Seq<char>, PairView)> {
    Seq::new(t.len(), |i: int| (t[i].0@, t[i].1.view()))
}

/// Whether a row belongs to one of the two compared backends.
pub open spec fn is_arm(row: Json) -> bool {
    spec_field_text(row, "backend"@) == "shell"@ || spec_field_text(row, "backend"@) == "transparent"@
}

/// The pairs formed by the first `n` exit rows: a pair takes its task from
/// its first row, and each arm is the last row of its backend.
pub open spec fn pairs_upto(exits: Seq<Json>, n: int) -> Map<Seq<char>, PairView>
    decreases n,
{
    if n <= 0 || n > exits.len() {
        Map::empty()
    } else {
        let m = pairs_upto(exits, n - 1);
        let row = exits[n - 1];
        if !is_arm(row) {
            m
        } else {
            let k = spec_field_text(row, "pair_id"@);
            let p = if m.contains_key(k) {
                m[k]
            } else {
                PairView { task_id: spec_field_text(row, "task_id"@), shell: None, transparent: None }
            };
            if spec_field_text(row, "backend"@) == "shell"@ {
                m.insert(k, PairView { task_id: p.task_id, shell: Some(row), transparent: p.transparent })
            } else {
                m.insert(k, PairView { task_id: p.task_id, shell: p.shell, transparent: Some(row) })
            }
        }
    }
}

/// The pairs of the exit rows, by pair identifier.
pub open spec fn spec_pairs(exits: Seq<Json>) -> Map<Seq<char>, PairView> {
    pairs_upto(exits, exits.len() as int)
}

/// Groups the exit rows into pairs, sorted by pair identifier.
pub fn pair_map(exits: &[JsonValue]) -> (r: Vec<(String, PairArms)>)
    ensures
        sorted_table(table_view(r@), spec_pairs(crate::evidence::value_views(exits@))),
        r@.len() <= exits@.len(),
{
    let ghost v = crate::evidence::value_views(exits@);
    let mut table: Vec<(String, PairArms)> = Vec::new();
    proof {
        crate::order::lemma_table_empty::<PairView>();
        assert(table_view(table@) =~= Seq::<(Seq<char>, PairView)>::empty());
    }
    let mut i: usize = 0;
    while i < exits.len()
        invariant
            i <= exits.len(),
            v == crate::evidence::value_views(exits@),
            sorted_table(table_view(table@), pairs_upto(v, i as int)),
            table@.len() <= i,
        decreases exits.len() - i,
    {
        let row = &exits[i];
        assert(v[i as int] == row@);
        let backend = field(row, "backend");
        let shell = str_eq(backend, "shell");
        if shell || str_eq(backend, "transparent") {
            let key = field(row, "pair_id");
            let ghost tv = table_view(table@);
            let ghost m = pairs_upto(v, i as int);
            assert forall|a: int, b: int| 0 <= a < b < keys_of(table@).len() implies
                key_lt(#[trigger] keys_of(table@)[a], #[trigger] keys_of(table@)[b]) by {
                assert(keys_of(table@)[a] == tv[a].0 && keys_of(table@)[b] == tv[b].0);
            }
            let (pos, found) = locate(&table, key);
            if found {
                let (k, old) = table.remove(pos);
                let arms = if shell {
                    PairArms { task_id: old.task_id, shell: Some(row.copy()), transparent: old.transparent }
                } else {
                    PairArms { task_id: old.task_id, shell: old.shell, transparent: Some(row.copy()) }
                };
                let ghost pv = arms.view();
                table.insert(pos, (k, arms));
                proof {
                    assert(tv[pos as int].0 == key@);
                    assert(m.contains_key(key@));
                    assert(m[key@] == tv[pos as int].1);
                    crate::order::lemma_table_update(tv, m, pos as int, pv);
                    assert(table_view(table@) =~= tv.update(pos as int, (tv[pos as int].0, pv)));
                }
            } else {
                let arms = if shell {
                    PairArms { task_id: owned(field(row, "task_id")), shell: Some(row.copy()), transparent: None }
                } else {
                    PairArms { task_id: owned(field(row, "task_id")), shell: None, transparent: Some(row.copy()) }
                };
                let ghost pv = arms.view();
                table.insert(pos, (owned(key), arms));
                proof {
                    assert forall|a: int| 0 <= a < pos implies key_lt(#[trigger] tv[a].0, key@) by {}
                    assert forall|a: int| pos <= a < tv.len() implies key_lt(key@, #[trigger] tv[a].0) by {}
                    if m.contains_key(key@) {
                        let a = choose|a: int| 0 <= a < tv.len() && tv[a].0 == key@;
                        crate::order::lemma_key_order(key@, key@, key@);
                        if a < pos {
                            assert(key_lt(tv[a].0, key@));
                        } else {
                            assert(key_lt(key@, tv[a].0));
                        }
                    }
                    crate::order::lemma_table_insert(tv, m, pos as int, key@, pv);
                    assert(table_view(table@) =~= tv.insert(pos as int, (key@, pv)));
                }
            }
        }
        i += 1;
    }
    table
}

/// An arm in the report: its status and classification, its timing and
/// command result as recorded (`null` where absent), and its evidence.
pub open spec fn spec_arm_json(arm: Option<Json>) -> Json {
    match arm {
        None => Json::Null,
        Some(row) => Json::Object(seq![
            ("artifact_dir"@, Json::Str(spec_text_field(row, "artifact_dir"@))),
            ("command_exit_code"@, spec_field(row, "command_exit_code"@)),
            ("command_failure_class"@, spec_field(row, "command_failure_class"@)),
            ("command_outcome"@, spec_field(row, "command_outcome"@)),
            ("elapsed_ms"@, spec_field(row, "elapsed_ms"@)),
            ("failure_class"@, Json::Str(spec_text_field(row, "failure_class"@))),
            ("status"@, Json::Str(spec_field_text(row, "status"@))),
            ("turn_completed"@, spec_field(row, "turn_completed"@)),
        ]),
    }
}

/// Whether an arm is present and succeeded.
pub open spec fn succeeded(arm: Option<Json>) -> bool {
    match arm {
        Some(row) => spec_field_text(row, "status"@) == "success"@,
        None => false,
    }
}

/// Whether an arm is present and its command met the oracle.
pub open spec fn command_succeeded(arm: Option<Json>) -> bool {
    match arm {
        Some(row) => spec_as_str(spec_field(row, "command_outcome"@)) == Some("success"@),
        None => false,
    }
}

/// Which arm was observed to be faster, when both succeeded with a whole
/// number of milliseconds.
pub open spec fn spec_observed_difference(p: PairView) -> Seq<char> {
    match (p.shell, p.transparent) {
        (Some(s), Some(t)) => if spec_field_text(s, "status"@) != "success"@ || spec_field_text(t, "status"@) != "success"@ {
            "insufficient_evidence"@
        } else {
            match (spec_as_u64(spec_field(s, "elapsed_ms"@)), spec_as_u64(spec_field(t, "elapsed_ms"@))) {
                (Some(a), Some(b)) => if a < b {
                    "shell_faster_observed"@
                } else if b < a {
                    "transparent_faster_observed"@
                } else {
                    "no_observed_difference"@
                },
                _ => "unknown"@,
            }
        },
        _ => "insufficient_evidence"@,
    }
}

/// The first field in which the two arms differ.
pub open spec fn spec_first_difference(p: PairView) -> Seq<char> {
    match (p.shell, p.transparent) {
        (Some(s), Some(t)) => if spec_field_text(s, "status"@) != spec_field_text(t, "status"@) {
            "status"@
        } else if !crate::json_object::json_same(spec_field(s, "command_exit_code"@), spec_field(t, "command_exit_code"@)) {
            "command_exit_code"@
        } else if !crate::json_object::json_same(spec_field(s, "elapsed_ms"@), spec_field(t, "elapsed_ms"@)) {
            "elapsed_ms"@
        } else {
            "none_observed"@
        },
        _ => "missing_arm"@,
    }
}

/// A pair in the report.
pub open spec fn spec_pair_json(pair_id: Seq<char>, p: PairView) -> Json {
    let complete = succeeded(p.shell) && succeeded(p.transparent);
    Json::Object(seq![
        ("command_oracle_pair"@, Json::Bool(command_succeeded(p.shell) && command_succeeded(p.transparent))),
        ("complete_pair"@, Json::Bool(complete)),
        ("first_difference"@, Json::Str(spec_first_difference(p))),
        ("observed_difference"@, Json::Str(spec_observed_difference(p))),
        ("pair_id"@, Json::Str(pair_id)),
        ("shell"@, spec_arm_json(p.shell)),
        ("task_id"@, Json::Str(p.task_id)),
        ("transparent"@, spec_arm_json(p.transparent)),
        ("valid_comparable"@, Json::Bool(complete)),
    ])
}

fn arm_json(arm: &Option<JsonValue>) -> (r: JsonValue)
    ensures
        r@ == spec_arm_json(opt_view(*arm)),
{
    match arm {
        None => JsonValue::Null,
        Some(row) => {
            let mut m: Vec<(String, JsonValue)> = Vec::new();
            assert(member_views(m@) =~= Seq::<(Seq<char>, Json)>::empty());
            push_member(&mut m, "artifact_dir", JsonValue::Str(text_field(row, "artifact_dir")));
            push_member(&mut m, "command_exit_code", row.field("command_exit_code"));
            push_member(&mut m, "command_failure_class", row.field("command_failure_class"));
            push_member(&mut m, "command_outcome", row.field("command_outcome"));
            push_member(&mut m, "elapsed_ms", row.field("elapsed_ms"));
            push_member(&mut m, "failure_class", JsonValue::Str(text_field(row, "failure_class")));
            push_member(&mut m, "status", text_value(field(row, "status")));
            push_member(&mut m, "turn_completed", row.field("turn_completed"));
            let r = object_of(m);
            assert(r@ =~= spec_arm_json(opt_view(*arm))) by {
                if let Json::Object(a) = r@ {
                    if let Json::Object(b) = spec_arm_json(opt_view(*arm)) {
                        assert(a =~= b);
                    }
                }
            }
            r
        },
    }
}

fn arm_status_is(arm: &Option<JsonValue>, status: &str) -> (r: bool)
    ensures
        r == match opt_view(*arm) {
            Some(row) => spec_field_text(row, "status"@) == status@,
            None => false,
        },
{
    match arm {
        Some(row) => str_eq(field(row, "status"), status),
        None => false,
    }
}

fn command_success(arm: &Option<JsonValue>) -> (r: bool)
    ensures
        r == command_succeeded(opt_view(*arm)),
{
    match arm {
        Some(row) => row.field("command_outcome").is_text("success"),
        None => false,
    }
}

/// Compares the two arms of a pair.
pub fn pair_json(pair_id: &str, pair: &PairArms) -> (r: JsonValue)
    ensures
        r@ == spec_pair_json(pair_id@, pair.view()),
{
    let complete = arm_status_is(&pair.shell, "success") && arm_status_is(&pair.transparent, "success");
    let observed = match (&pair.shell, &pair.transparent) {
        (Some(s), Some(t)) => {
            if !str_eq(field(s, "status"), "success") || !str_eq(field(t, "status"), "success") {
                "insufficient_evidence"
            } else {
                match (s.field("elapsed_ms").as_u64(), t.field("elapsed_ms").as_u64()) {
                    (Some(a), Some(b)) => if a < b {
                        "shell_faster_observed"
                    } else if b < a {
                        "transparent_faster_observed"
                    } else {
                        "no_observed_difference"
                    },
                    _ => "unknown",
                }
            }
        },
        _ => "insufficient_evidence",
    };
    let first = match (&pair.shell, &pair.transparent) {
        (Some(s), Some(t)) => {
            if !str_eq(field(s, "status"), field(t, "status")) {
                "status"
            } else if !crate::json_object::json_eq(&s.field("command_exit_code"), &t.field("command_exit_code")) {
                "command_exit_code"
            } else if !crate::json_object::json_eq(&s.field("elapsed_ms"), &t.field("elapsed_ms")) {
                "elapsed_ms"
            } else {
                "none_observed"
            }
        },
        _ => "missing_arm",
    };
    let oracle = command_success(&pair.shell) && command_success(&pair.transparent);
    let mut m: Vec<(String, JsonValue)> = Vec::new();
    assert(member_views(m@) =~= Seq::<(Seq<char>, Json)>::empty());
    push_member(&mut m, "command_oracle_pair", JsonValue::Bool(oracle));
    push_member(&mut m, "complete_pair", JsonValue::Bool(complete));
    push_member(&mut m, "first_difference", text_value(first));
    push_member(&mut m, "observed_difference", text_value(observed));
    push_member(&mut m, "pair_id", text_value(pair_id));
    push_member(&mut m, "shell", arm_json(&pair.shell));
    push_member(&mut m, "task_id", text_value(pair.task_id.as_str()));
    push_member(&mut m, "transparent", arm_json(&pair.transparent));
    push_member(&mut m, "valid_comparable", JsonValue::Bool(complete));
    proof {
        reveal_strlit("insufficient_evidence");
        reveal_strlit("shell_faster_observed");
        reveal_strlit("transparent_faster_observed");
        reveal_strlit("no_observed_difference");
        reveal_strlit("unknown");
        reveal_strlit("status");
        reveal_strlit("command_exit_code");
        reveal_strlit("elapsed_ms");
        reveal_strlit("none_observed");
        reveal_strlit("missing_arm");
    }
    let r = object_of(m);
    assert(r@ =~= spec_pair_json(pair_id@, pair.view())) by {
        if let Json::Object(a) = r@ {
            if let Json::Object(b) = spec_pair_json(pair_id@, pair.view()) {
                assert(a =~= b);
            }
        }
    }
    r
}

/// How many of the first `n` rows have `name` equal to `a` or `b`.
pub open spec fn count_where(rows: Seq<Json>, name: Seq<char>, a: Seq<char>, b: Seq<char>, n: int) -> nat
    decreases n,
{
    if n <= 0 || n > rows.len() {
        0
    } else {
        count_where(rows, name, a, b, n - 1) + if spec_field_text(rows[n - 1], name) == a || spec_field_text(rows[n - 1], name) == b { 1nat } else { 0nat }
    }
}

fn count_matching(rows: &[JsonValue], name: &str, a: &str, b: &str) -> (r: usize)
    ensures
        r == count_where(crate::evidence::value_views(rows@), name@, a@, b@, rows@.len() as int),
        r <= rows@.len(),
{
    let ghost v = crate::evidence::value_views(rows@);
    let mut n: usize = 0;
    let mut i: usize = 0;
    while i < rows.len()
        invariant
            i <= rows.len(),
            n <= i,
            v == crate::evidence::value_views(rows@),
            n == count_where(v, name@, a@, b@, i as int),
        decreases rows.len() - i,
    {
        assert(v[i as int] == rows@[i as int]@);
        let t = field(&rows[i], name);
        if str_eq(t, a) || str_eq(t, b) {
            n += 1;
        }
        i += 1;
    }
    n
}

/// The number of exit rows of each status among the first `n`.
pub open spec fn status_counts_upto(exits: Seq<Json>, n: int) -> Map<Seq<char>, nat>
    decreases n,
{
    if n <= 0 || n > exits.len() {
        Map::empty()
    } else {
        let m = status_counts_upto(exits, n - 1);
        let k = spec_field_text(exits[n - 1], "status"@);
        m.insert(k, if m.contains_key(k) { m[k] + 1 } else { 1nat })
    }
}

/// A table of counts by its values.
pub open spec fn count_view(t: Seq<(String, usize)>) -> Seq<(Seq<char>, nat)> {
    Seq::new(t.len(), |i: int| (t[i].0@, t[i].1 as nat))
}

/// Counts rows by status, sorted by status.
pub fn status_counts(exits: &[JsonValue]) -> (r: Vec<(String, usize)>)
    ensures
        sorted_table(count_view(r@), status_counts_upto(crate::evidence::value_views(exits@), exits@.len() as int)),
{
    let ghost v = crate::evidence::value_views(exits@);
    let mut table: Vec<(String, usize)> = Vec::new();
    proof {
        crate::order::lemma_table_empty::<nat>();
        assert(count_view(table@) =~= Seq::<(Seq<char>, nat)>::empty());
    }
    let mut i: usize = 0;
    while i < exits.len()
        invariant
            i <= exits.len(),
            v == crate::evidence::value_views(exits@),
            sorted_table(count_view(table@), status_counts_upto(v, i as int)),
            forall|j: int| 0 <= j < table@.len() ==> #[trigger] table@[j].1 <= i,
        decreases exits.len() - i,
    {
        assert(v[i as int] == exits@[i as int]@);
        let key = field(&exits[i], "status");
        let ghost tv = count_view(table@);
        let ghost m = status_counts_upto(v, i as int);
        assert forall|a: int, b: int| 0 <= a < b < keys_of(table@).len() implies
            key_lt(#[trigger] keys_of(table@)[a], #[trigger] keys_of(table@)[b]) by {
            assert(keys_of(table@)[a] == tv[a].0 && keys_of(table@)[b] == tv[b].0);
        }
        let (pos, found) = locate(&table, key);
        if found {
            let (k, c) = table.remove(pos);
            assert(c <= i);
            table.insert(pos, (k, c + 1));
            proof {
                assert(tv[pos as int].0 == key@);
                assert(m.contains_key(key@));
                crate::order::lemma_table_update(tv, m, pos as int, (c + 1) as nat);
                assert(count_view(table@) =~= tv.update(pos as int, (tv[pos as int].0, (c + 1) as nat)));
            }
        } else {
            table.insert(pos, (owned(key), 1));
            proof {
                if m.contains_key(key@) {
                    let a = choose|a: int| 0 <= a < tv.len() && tv[a].0 == key@;
                    crate::order::lemma_key_order(key@, key@, key@);
                    if a < pos {
                        assert(key_lt(tv[a].0, key@));
                    } else {
                        assert(key_lt(key@, tv[a].0));
                    }
                }
                crate::order::lemma_table_insert(tv, m, pos as int, key@, 1nat);
                assert(count_view(table@) =~= tv.insert(pos as int, (key@, 1nat)));
            }
        }
        i += 1;
    }
    table
}

/// A whole number in JSON.
pub open spec fn nat_json(n: nat) -> Json {
    Json::Number(Num::PosInt(n as u64))
}

/// How many of the first `n` pairs are complete (both arms succeeded).
pub open spec fn complete_count(t: Seq<(Seq<char>, PairView)>, n: int) -> nat
    decreases n,
{
    if n <= 0 || n > t.len() {
        0
    } else {
        complete_count(t, n - 1) + if succeeded(t[n - 1].1.shell) && succeeded(t[n - 1].1.transparent) { 1nat } else { 0nat }
    }
}

/// How many of the first `n` pairs met the command oracle in both arms.
pub open spec fn oracle_count(t: Seq<(Seq<char>, PairView)>, n: int) -> nat
    decreases n,
{
    if n <= 0 || n > t.len() {
        0
    } else {
        oracle_count(t, n - 1) + if command_succeeded(t[n - 1].1.shell) && command_succeeded(t[n - 1].1.transparent) { 1nat } else { 0nat }
    }
}

/// The pairs in the report, in order of pair identifier.
pub open spec fn spec_pair_rows(t: Seq<(Seq<char>, PairView)>) -> Seq<Json> {
    Seq::new(t.len(), |i: int| spec_pair_json(t[i].0, t[i].1))
}

/// The counts by status as a JSON object, sorted by status.
pub open spec fn counts_json(t: Seq<(Seq<char>, nat)>) -> Json {
    Json::Object(Seq::new(t.len(), |i: int| (t[i].0, nat_json(t[i].1))))
}

/// `a - b`, or zero where `b` is larger.
pub open spec fn saturating(a: int, b: int) -> nat {
    if a >= b { (a - b) as nat } else { 0 }
}

/// The report's summary of an evaluation: the planned arms (two per planned
/// pair; the observed pairs where no plan is given) against the observed
/// ones, the successes, complete and comparable pairs, and the failures
/// counted apart by whom they come from.
pub open spec fn spec_summary(rows: Seq<Json>, planned: Option<usize>) -> Json {
    let exits = spec_exit_rows(rows);
    let pairs = crate::order::sorted_entries(spec_pairs(exits));
    let n = exits.len() as int;
    let observed_arms = exits.len();
    let planned_pairs: nat = match planned { Some(p) => p as nat, None => pairs.len() };
    let planned_arms: nat = planned_pairs * 2;
    let successful = count_where(exits, "status"@, "success"@, "success"@, n);
    let complete = complete_count(pairs, pairs.len() as int);
    Json::Object(seq![
        ("backend_failures"@, nat_json(count_where(exits, "status"@, "backend_failure"@, "backend_failure"@, n))),
        ("command_oracle_failures"@, nat_json(count_where(exits, "command_outcome"@, "backend_failure"@, "backend_failure"@, n))),
        ("command_oracle_pairs"@, nat_json(oracle_count(pairs, pairs.len() as int))),
        ("command_oracle_successful_arms"@, nat_json(count_where(exits, "command_outcome"@, "success"@, "success"@, n))),
        ("complete_pairs"@, nat_json(complete)),
        ("external_failures"@, nat_json(count_where(exits, "status"@, "relay_error"@, "provider_error"@, n))),
        ("intention_to_treat"@, Json::Object(seq![
            ("failed_or_unknown_arms"@, nat_json(saturating(observed_arms as int, successful as int))),
            ("observed_arms"@, nat_json(observed_arms)),
            ("planned_arms"@, nat_json(planned_arms)),
            ("successful_arms"@, nat_json(successful)),
        ])),
        ("not_observed_arms"@, nat_json(saturating(planned_arms as int, observed_arms as int))),
        ("observed_arms"@, nat_json(observed_arms)),
        ("observed_pairs"@, nat_json(pairs.len())),
        ("partial"@, Json::Bool(complete < planned_pairs)),
        ("planned_arms"@, nat_json(planned_arms)),
        ("planned_pairs"@, nat_json(planned_pairs)),
        ("status_counts"@, counts_json(crate::order::sorted_entries(status_counts_upto(exits, n)))),
        ("valid_comparable_pairs"@, nat_json(complete)),
    ])
}

fn pair_rows(table: &Vec<(String, PairArms)>) -> (r: (Vec<JsonValue>, usize, usize))
    ensures
        crate::evidence::value_views(r.0@) == spec_pair_rows(table_view(table@)),
        r.1 == complete_count(table_view(table@), table@.len() as int),
        r.2 == oracle_count(table_view(table@), table@.len() as int),
{
    let ghost t = table_view(table@);
    let mut out: Vec<JsonValue> = Vec::new();
    let mut complete: usize = 0;
    let mut oracle: usize = 0;
    let mut i: usize = 0;
    while i < table.len()
        invariant
            i <= table.len(),
            t == table_view(table@),
            complete <= i,
            oracle <= i,
            crate::evidence::value_views(out@) == spec_pair_rows(t).take(i as int),
            complete == complete_count(t, i as int),
            oracle == oracle_count(t, i as int),
        decreases table.len() - i,
    {
        let entry = &table[i];
        assert(t[i as int] == (entry.0@, entry.1.view()));
        let ghost before = crate::evidence::value_views(out@);
        let row = pair_json(entry.0.as_str(), &entry.1);
        assert(row@ == spec_pair_rows(t)[i as int]);
        out.push(row);
        assert(crate::evidence::value_views(out@) =~= before.push(row@));
        assert(spec_pair_rows(t).take(i + 1) =~= spec_pair_rows(t).take(i as int).push(spec_pair_rows(t)[i as int]));
        if arm_status_is(&entry.1.shell, "success") && arm_status_is(&entry.1.transparent, "success") {
            complete += 1;
        }
        if command_success(&entry.1.shell) && command_success(&entry.1.transparent) {
            oracle += 1;
        }
        i += 1;
    }
    assert(spec_pair_rows(t).take(table.len() as int) =~= spec_pair_rows(t));
    (out, complete, oracle)
}

/// A table of counts as a JSON object.
pub fn counts_object(table: &Vec<(String, usize)>) -> (r: JsonValue)
    ensures
        r@ == counts_json(count_view(table@)),
{
    let mut m: Vec<(String, JsonValue)> = Vec::new();
    let mut i: usize = 0;
    while i < table.len()
        invariant
            i <= table.len(),
            member_views(m@) == Seq::new(i as nat, |j: int| (count_view(table@)[j].0, nat_json(count_view(table@)[j].1))),
        decreases table.len() - i,
    {
        push_member(&mut m, table[i].0.as_str(), JsonValue::Number(JsonNumber::PosInt(table[i].1 as u64)));
        assert(member_views(m@) =~= Seq::new((i + 1) as nat, |j: int| (count_view(table@)[j].0, nat_json(count_view(table@)[j].1))));
        i += 1;
    }
    let r = object_of(m);
    assert(r@ == counts_json(count_view(table@))) by {
        assert(Seq::new(table@.len(), |j: int| (count_view(table@)[j].0, nat_json(count_view(table@)[j].1)))
            =~= Seq::new(count_view(table@).len(), |j: int| (count_view(table@)[j].0, nat_json(count_view(table@)[j].1))));
    }
    r
}

fn nat_value(n: usize) -> (r: JsonValue)
    ensures
        r@ == nat_json(n as nat),
{
    JsonValue::Number(JsonNumber::PosInt(n as u64))
}

/// The summary and the pairs of an evaluation's events.
pub fn report_summary(rows: &[JsonValue], planned_pairs: Option<usize>) -> (r: (JsonValue, Vec<JsonValue>))
    requires
        rows@.len() <= usize::MAX / 2,
        match planned_pairs { Some(p) => p <= usize::MAX / 2, None => true },
    ensures
        r.0@ == spec_summary(crate::evidence::value_views(rows@), planned_pairs),
        crate::evidence::value_views(r.1@) == spec_pair_rows(crate::order::sorted_entries(spec_pairs(spec_exit_rows(crate::evidence::value_views(rows@))))),
{
    let ghost v = crate::evidence::value_views(rows@);
    let exits = exit_rows(rows);
    let ghost e = spec_exit_rows(v);
    assert(exits@.len() == e.len());
    proof {
        lemma_exits_len(v, v.len() as int);
    }
    let table = pair_map(exits.as_slice());
    proof {
        crate::order::lemma_sorted_entries(table_view(table@), spec_pairs(e));
    }
    let (pairs, complete, oracle) = pair_rows(&table);
    let counts = status_counts(exits.as_slice());
    proof {
        crate::order::lemma_sorted_entries(count_view(counts@), status_counts_upto(e, e.len() as int));
    }
    let observed = exits.len();
    let planned = match planned_pairs { Some(p) => p, None => table.len() };
    let planned_arms = planned * 2;
    let successful = count_matching(exits.as_slice(), "status", "success", "success");
    let mut itt: Vec<(String, JsonValue)> = Vec::new();
    assert(member_views(itt@) =~= Seq::<(Seq<char>, Json)>::empty());
    push_member(&mut itt, "failed_or_unknown_arms", nat_value(if observed >= successful { observed - successful } else { 0 }));
    push_member(&mut itt, "observed_arms", nat_value(observed));
    push_member(&mut itt, "planned_arms", nat_value(planned_arms));
    push_member(&mut itt, "successful_arms", nat_value(successful));
    let ghost observed_n = observed as nat;
    let ghost successful_n = successful as nat;
    let ghost planned_n = planned_arms as nat;
    assert(member_views(itt@) =~= seq![
        ("failed_or_unknown_arms"@, nat_json(saturating(observed_n as int, successful_n as int))),
        ("observed_arms"@, nat_json(observed_n)),
        ("planned_arms"@, nat_json(planned_n)),
        ("successful_arms"@, nat_json(successful_n)),
    ]);
    let itt_value = object_of(itt);
    let mut m: Vec<(String, JsonValue)> = Vec::new();
    assert(member_views(m@) =~= Seq::<(Seq<char>, Json)>::empty());
    push_member(&mut m, "backend_failures", nat_value(count_matching(exits.as_slice(), "status", "backend_failure", "backend_failure")));
    push_member(&mut m, "command_oracle_failures", nat_value(count_matching(exits.as_slice(), "command_outcome", "backend_failure", "backend_failure")));
    push_member(&mut m, "command_oracle_pairs", nat_value(oracle));
    push_member(&mut m, "command_oracle_successful_arms", nat_value(count_matching(exits.as_slice(), "command_outcome", "success", "success")));
    push_member(&mut m, "complete_pairs", nat_value(complete));
    push_member(&mut m, "external_failures", nat_value(count_matching(exits.as_slice(), "status", "relay_error", "provider_error")));
    push_member(&mut m, "intention_to_treat", itt_value);
    push_member(&mut m, "not_observed_arms", nat_value(if planned_arms >= observed { planned_arms - observed } else { 0 }));
    push_member(&mut m, "observed_arms", nat_value(observed));
    push_member(&mut m, "observed_pairs", nat_value(table.len()));
    push_member(&mut m, "partial", JsonValue::Bool(complete < planned));
    push_member(&mut m, "planned_arms", nat_value(planned_arms));
    push_member(&mut m, "planned_pairs", nat_value(planned));
    push_member(&mut m, "status_counts", counts_object(&counts));
    push_member(&mut m, "valid_comparable_pairs", nat_value(complete));
    let summary = object_of(m);
    assert(summary@ =~= spec_summary(v, planned_pairs)) by {
        if let Json::Object(a) = summary@ {
            if let Json::Object(b) = spec_summary(v, planned_pairs) {
                assert(a =~= b);
            }
        }
    }
    (summary, pairs)
}

proof fn lemma_exits_len(rows: Seq<Json>, n: int)
    ensures
        exits_upto(rows, n).len() <= (if n < 0 { 0 } else { n }),
    decreases n,
{
    if n > 0 && n <= rows.len() {
        lemma_exits_len(rows, n - 1);
    }
}



/// How many of the first `n` rows are exits in phase `phase` of attempt `a`.
pub open spec fn exits_of(rows: Seq<Json>, phase: Seq<char>, a: Seq<char>, n: int) -> nat
    decreases n,
{
    if n <= 0 || n > rows.len() {
        0
    } else {
        exits_of(rows, phase, a, n - 1) + (if spec_field_text(rows[n - 1], "event"@) == "exit"@
            && spec_field_text(rows[n - 1], "phase"@) == phase
            && spec_field_text(rows[n - 1], "attempt_id"@) == a { 1nat } else { 0nat })
    }
}

/// How many rows of `s` belong to attempt `a`.
pub open spec fn rows_of(s: Seq<Json>, a: Seq<char>) -> nat
    decreases s.len(),
{
    if s.len() == 0 {
        0
    } else {
        rows_of(s.drop_last(), a) + (if spec_field_text(s.last(), "attempt_id"@) == a { 1nat } else { 0nat })
    }
}

proof fn lemma_exits_of_positive(rows: Seq<Json>, a: Seq<char>, n: int)
    requires
        0 <= n <= rows.len(),
    ensures
        (exits_of(rows, "codex"@, a, n) > 0) == (exists|i: int| 0 <= i < n && is_codex_exit(#[trigger] rows[i])
            && spec_field_text(rows[i], "attempt_id"@) == a),
    decreases n,
{
    if n > 0 {
        lemma_exits_of_positive(rows, a, n - 1);
        if exists|i: int| 0 <= i < n && is_codex_exit(#[trigger] rows[i]) && spec_field_text(rows[i], "attempt_id"@) == a {
            let i = choose|i: int| 0 <= i < n && is_codex_exit(#[trigger] rows[i]) && spec_field_text(rows[i], "attempt_id"@) == a;
            if i < n - 1 {
                assert(exists|j: int| 0 <= j < n - 1 && is_codex_exit(#[trigger] rows[j]) && spec_field_text(rows[j], "attempt_id"@) == a);
            }
        }
    }
}

proof fn lemma_arm_rows_upto(rows: Seq<Json>, a: Seq<char>, n: int)
    requires
        0 <= n <= rows.len(),
    ensures
        rows_of(exits_upto(rows, n), a) == exits_of(rows, "codex"@, a, n)
            + (if codex_exited(rows, a) { 0nat } else { exits_of(rows, "child"@, a, n) }),
    decreases n,
{
    reveal_strlit("codex");
    reveal_strlit("child");
    assert("codex"@.len() == 5 && "child"@.len() == 5 && "codex"@[1] != "child"@[1]);
    if n > 0 {
        lemma_arm_rows_upto(rows, a, n - 1);
        let prev = exits_upto(rows, n - 1);
        if ends_arm(rows, rows[n - 1]) {
            assert(exits_upto(rows, n).drop_last() =~= prev);
        }
    }
}

/// Each arm is counted once in the summary: among the rows that end an
/// arm, an attempt has as many as it has Codex exits, or, where Codex's exit
/// was not recorded, as many as it has child exits. So an arm that wrote one
/// Codex exit and one child exit is counted once in `observed_arms`.
pub proof fn lemma_arm_counted_once(rows: Seq<Json>, a: Seq<char>)
    ensures
        rows_of(spec_exit_rows(rows), a) == (if exits_of(rows, "codex"@, a, rows.len() as int) > 0 {
            exits_of(rows, "codex"@, a, rows.len() as int)
        } else {
            exits_of(rows, "child"@, a, rows.len() as int)
        }),
{
    lemma_arm_rows_upto(rows, a, rows.len() as int);
    lemma_exits_of_positive(rows, a, rows.len() as int);
}

/// Whether an arm ended in a failure outside the backends: the relay or
/// the model provider.
pub open spec fn external_failure(row: Json) -> bool {
    spec_field_text(row, "status"@) == "relay_error"@ || spec_field_text(row, "status"@) == "provider_error"@
}

proof fn lemma_count_is_filter(rows: Seq<Json>, n: int)
    requires
        0 <= n <= rows.len(),
    ensures
        count_where(rows, "status"@, "relay_error"@, "provider_error"@, n)
            == rows.take(n).filter(|r: Json| external_failure(r)).len(),
    decreases n,
{
    reveal(Seq::filter);
    if n > 0 {
        lemma_count_is_filter(rows, n - 1);
        assert(rows.take(n).drop_last() =~= rows.take(n - 1));
        assert(rows.take(n).last() == rows[n - 1]);
    } else {
        assert(rows.take(0) =~= Seq::<Json>::empty());
    }
}

/// Whether an arm ended in a failure of the backend under test.
pub open spec fn backend_failure(row: Json) -> bool {
    spec_field_text(row, "status"@) == "backend_failure"@
}

proof fn lemma_backend_count_is_filter(rows: Seq<Json>, n: int)
    requires
        0 <= n <= rows.len(),
    ensures
        count_where(rows, "status"@, "backend_failure"@, "backend_failure"@, n)
            == rows.take(n).filter(|r: Json| backend_failure(r)).len(),
    decreases n,
{
    reveal(Seq::filter);
    if n > 0 {
        lemma_backend_count_is_filter(rows, n - 1);
        assert(rows.take(n).drop_last() =~= rows.take(n - 1));
        assert(rows.take(n).last() == rows[n - 1]);
    } else {
        assert(rows.take(0) =~= Seq::<Json>::empty());
    }
}

/// The summary counts as backend failures exactly the arms that ended with
/// a backend failure, apart from the external ones.
pub proof fn lemma_backend_failures_counted(rows: Seq<Json>, planned: Option<usize>)
    ensures
        crate::json::spec_member(spec_summary(rows, planned), "backend_failures"@)
            == Some(Json::Number(Num::PosInt(spec_exit_rows(rows).filter(|r: Json| backend_failure(r)).len() as u64))),
{
    let exits = spec_exit_rows(rows);
    lemma_backend_count_is_filter(exits, exits.len() as int);
    assert(exits.take(exits.len() as int) =~= exits);
    match spec_summary(rows, planned) {
        Json::Object(ms) => {
            crate::json::lemma_lookup_at(ms, "backend_failures"@, 0);
        },
        _ => {},
    }
}

/// The summary counts as external failures exactly the arms that ended
/// with a relay or provider error: one for each such arm-ending row.
pub proof fn lemma_external_failures_counted(rows: Seq<Json>, planned: Option<usize>)
    ensures
        crate::json::spec_member(spec_summary(rows, planned), "external_failures"@)
            == Some(Json::Number(Num::PosInt(spec_exit_rows(rows).filter(|r: Json| external_failure(r)).len() as u64))),
{
    let exits = spec_exit_rows(rows);
    lemma_count_is_filter(exits, exits.len() as int);
    assert(exits.take(exits.len() as int) =~= exits);
    reveal_strlit("backend_failures");
    reveal_strlit("command_oracle_failures");
    reveal_strlit("command_oracle_pairs");
    reveal_strlit("command_oracle_successful_arms");
    reveal_strlit("complete_pairs");
    reveal_strlit("external_failures");
    assert("backend_failures"@.len() == 16 && "command_oracle_failures"@.len() == 23 && "command_oracle_pairs"@.len() == 20
        && "command_oracle_successful_arms"@.len() == 30 && "complete_pairs"@.len() == 14 && "external_failures"@.len() == 17);
    match spec_summary(rows, planned) {
        Json::Object(ms) => {
            crate::json::lemma_lookup_at(ms, "external_failures"@, 5);
        },
        _ => {},
    }
}

} // verus!
