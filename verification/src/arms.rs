//! Reading a run's arms back for the report: the result of an arm whose
//! evidence is missing or damaged, which pair and backend an arm belongs
//! to, and how the formal arms are indexed into pairs.
use vstd::prelude::*;
use crate::json::{Json, JsonNumber, JsonValue, Num, spec_as_str, spec_field, spec_is_text, str_eq};
use crate::json_object::{member_views, object_of, push_member, spec_with_member, text_value, with_member};
use crate::text::{chars_of, owned, push_all, spec_starts_with, string_of};
use crate::order::{key_lt, keys_of, locate, sorted_table};

verus! {

/// How `serde_json` writes an operating-system file name on Unix: a
/// one-member object `{"Unix": [bytes...]}`.
pub open spec fn os_name_json(bytes: Seq<u8>) -> Json {
    Json::Object(seq![("Unix"@, Json::Array(Seq::new(bytes.len(), |i: int| Json::Number(Num::PosInt(bytes[i] as u64)))))])
}

/// The result of an arm whose directory holds no readable result: censored
/// as interrupted, never comparable. Its `attempt_id` is the directory's
/// file name as `serde_json` writes an `OsString`.
pub open spec fn spec_missing_result(name: Seq<char>, name_bytes: Seq<u8>) -> Json {
    Json::Object(seq![
        ("artifact_dir"@, Json::Str("attempts/"@ + name)),
        ("attempt_id"@, os_name_json(name_bytes)),
        ("failure_class"@, Json::Str("collector_interrupted"@)),
        ("status"@, Json::Str("censored"@)),
        ("strict_comparable"@, Json::Bool(false)),
    ])
}

fn os_name_value(bytes: &[u8]) -> (r: JsonValue)
    ensures
        r@ == os_name_json(bytes@),
{
    let mut items: Vec<JsonValue> = Vec::new();
    let mut i: usize = 0;
    while i < bytes.len()
        invariant
            i <= bytes.len(),
            crate::evidence::value_views(items@) == Seq::new(i as nat, |j: int| Json::Number(Num::PosInt(bytes@[j] as u64))),
        decreases bytes.len() - i,
    {
        let ghost before = crate::evidence::value_views(items@);
        let item = JsonValue::Number(JsonNumber::PosInt(bytes[i] as u64));
        assert(item@ == Json::Number(Num::PosInt(bytes@[i as int] as u64)));
        items.push(item);
        assert(crate::evidence::value_views(items@) =~= before.push(Json::Number(Num::PosInt(bytes@[i as int] as u64))));
        assert(crate::evidence::value_views(items@) =~= Seq::new((i + 1) as nat, |j: int| Json::Number(Num::PosInt(bytes@[j] as u64))));
        i += 1;
    }
    let array = JsonValue::Array(items);
    assert(array@ == Json::Array(Seq::new(bytes@.len(), |j: int| Json::Number(Num::PosInt(bytes@[j] as u64))))) by {
        if let Json::Array(a) = array@ {
            assert(a =~= crate::evidence::value_views(items@));
        }
    }
    crate::json_object::object1("Unix", array)
}

/// The result of an arm whose directory holds no readable result.
pub fn missing_result(name: &str, name_bytes: &[u8]) -> (r: JsonValue)
    ensures
        r@ == spec_missing_result(name@, name_bytes@),
{
    let mut dir = owned("attempts/");
    push_all(&mut dir, name);
    let mut m: Vec<(String, JsonValue)> = Vec::new();
    assert(member_views(m@) =~= Seq::<(Seq<char>, Json)>::empty());
    push_member(&mut m, "artifact_dir", JsonValue::Str(dir));
    push_member(&mut m, "attempt_id", os_name_value(name_bytes));
    push_member(&mut m, "failure_class", text_value("collector_interrupted"));
    push_member(&mut m, "status", text_value("censored"));
    push_member(&mut m, "strict_comparable", JsonValue::Bool(false));
    let r = object_of(m);
    assert(r@ =~= spec_missing_result(name@, name_bytes@)) by {
        if let Json::Object(a) = r@ {
            if let Json::Object(b) = spec_missing_result(name@, name_bytes@) {
                assert(a =~= b);
            }
        }
    }
    r
}

/// An arm's result once its evidence was checked: evidence that is not
/// sealed intact, or a trace that was cut short, makes the arm incomparable
/// and flags it; a success on such evidence becomes a harness error where
/// the seal does not match and censored otherwise.
pub open spec fn spec_checked_result(result: Json, seal: Json, complete: bool) -> Json {
    if spec_is_text(spec_field(seal, "status"@), "success"@) && complete {
        result
    } else {
        let a = spec_with_member(result, "strict_comparable"@, Json::Bool(false));
        let b = spec_with_member(a, "evidence_warning"@, Json::Str("unsealed_modified_or_truncated_evidence"@));
        if spec_is_text(spec_field(result, "status"@), "success"@) {
            let status = if spec_is_text(spec_field(seal, "status"@), "mismatch"@) { "harness_error"@ } else { "censored"@ };
            let c = spec_with_member(b, "status"@, Json::Str(status));
            spec_with_member(c, "failure_class"@, Json::Str("evidence_integrity"@))
        } else {
            b
        }
    }
}

/// Applies the evidence check to an arm's result.
pub fn checked_result(result: JsonValue, seal: &JsonValue, complete: bool) -> (r: JsonValue)
    requires
        result@ is Object || result@ is Null,
    ensures
        r@ == spec_checked_result(result@, seal@, complete),
{
    let sealed = seal.field("status").is_text("success");
    if sealed && complete {
        return result;
    }
    let succeeded = result.field("status").is_text("success");
    let a = with_member(result, "strict_comparable", JsonValue::Bool(false));
    let b = with_member(a, "evidence_warning", text_value("unsealed_modified_or_truncated_evidence"));
    if succeeded {
        let status = if seal.field("status").is_text("mismatch") { "harness_error" } else { "censored" };
        let c = with_member(b, "status", text_value(status));
        with_member(c, "failure_class", text_value("evidence_integrity"))
    } else {
        b
    }
}

/// The last position of `c` in `s`.
pub open spec fn last_index_of(s: Seq<char>, c: char) -> Option<int>
    decreases s.len(),
{
    if s.len() == 0 {
        None
    } else if s.last() == c {
        Some(s.len() - 1)
    } else {
        last_index_of(s.drop_last(), c)
    }
}

fn last_index(s: &Vec<char>, c: char) -> (r: Option<usize>)
    ensures
        match r {
            Some(k) => last_index_of(s@, c) == Some(k as int) && k < s@.len(),
            None => last_index_of(s@, c) is None,
        },
{
    let mut n: usize = s.len();
    assert(s@.take(n as int) =~= s@);
    while n > 0
        invariant
            n <= s@.len(),
            last_index_of(s@, c) == last_index_of(s@.take(n as int), c),
        decreases n,
    {
        let ghost t = s@.take(n as int);
        if s[n - 1] == c {
            assert(t.last() == c);
            return Some(n - 1);
        }
        assert(t.drop_last() =~= s@.take(n - 1));
        n -= 1;
    }
    None
}

/// The pair and backend of an arm: as its result records them, else from
/// its directory name `<pair>-<backend>` (split at the last hyphen; a name
/// without one is its own pair).
pub open spec fn spec_arm_identity(result: Json, name: Seq<char>) -> (Seq<char>, Seq<char>) {
    let pair = match spec_as_str(spec_field(result, "pair_id"@)) {
        Some(p) => p,
        None => match last_index_of(name, '-') { Some(k) => name.take(k), None => name },
    };
    let backend = match spec_as_str(spec_field(result, "backend"@)) {
        Some(b) => b,
        None => match last_index_of(name, '-') { Some(k) => name.skip(k + 1), None => name },
    };
    (pair, backend)
}

/// Finds the pair and backend of an arm.
pub fn arm_identity(result: &JsonValue, name: &str) -> (r: (String, String))
    ensures
        r.0@ == spec_arm_identity(result@, name@).0,
        r.1@ == spec_arm_identity(result@, name@).1,
{
    let chars = chars_of(name);
    let dash = last_index(&chars, '-');
    let pair = match result.field_str("pair_id") {
        Some(p) => owned(p),
        None => match dash {
            Some(k) => string_of(crate::text::slice_chars(chars.as_slice(), 0, k).as_slice()),
            None => owned(name),
        },
    };
    let backend = match result.field_str("backend") {
        Some(b) => owned(b),
        None => match dash {
            Some(k) => string_of(crate::text::slice_chars(chars.as_slice(), k + 1, chars.len()).as_slice()),
            None => owned(name),
        },
    };
    proof {
        if let Some(k) = dash {
            assert(chars@.subrange(0, k as int) =~= name@.take(k as int));
            assert(chars@.subrange(k + 1, chars@.len() as int) =~= name@.skip(k + 1));
        }
    }
    (pair, backend)
}

/// Whether an arm belongs to the formal sample: neither a probe by its
/// phase nor by its pair's name.
pub open spec fn spec_is_formal(result: Json, pair: Seq<char>) -> bool {
    !spec_is_text(spec_field(result, "sample_phase"@), "probe"@) && !spec_starts_with(pair, "probe-"@)
}

/// Whether an arm belongs to the formal sample.
pub fn is_formal(result: &JsonValue, pair: &str) -> (r: bool)
    ensures
        r == spec_is_formal(result@, pair@),
{
    !result.field("sample_phase").is_text("probe") && !crate::text::starts_with(pair, "probe-")
}

/// Where an arm stands in the report's index.
pub struct ArmKey {
    pub pair: String,
    pub backend: String,
    pub formal: bool,
}

/// An arm's place as plain values.
pub struct ArmKeyView {
    pub pair: Seq<char>,
    pub backend: Seq<char>,
    pub formal: bool,
}

impl ArmKey {
    pub open spec fn view(&self) -> ArmKeyView {
        ArmKeyView { pair: self.pair@, backend: self.backend@, formal: self.formal }
    }
}

/// The places of some arms.
pub open spec fn arm_key_views(s: Seq<ArmKey>) -> Seq<ArmKeyView> {
    Seq::new(s.len(), |i: int| s[i].view())
}

/// The formal arms among the first `n`, indexed by pair and then backend.
/// When two formal arms claim the same pair and backend, a strict index is
/// `None` from then on, and a lenient one keeps the later arm.
pub open spec fn index_upto(arms: Seq<ArmKeyView>, n: int, strict: bool) -> Option<Map<Seq<char>, Map<Seq<char>, nat>>>
    decreases n,
{
    if n <= 0 || n > arms.len() {
        Some(Map::empty())
    } else {
        match index_upto(arms, n - 1, strict) {
            None => None,
            Some(m) => {
                let a = arms[n - 1];
                if !a.formal {
                    Some(m)
                } else {
                    let inner = if m.contains_key(a.pair) { m[a.pair] } else { Map::empty() };
                    if inner.contains_key(a.backend) && strict {
                        None
                    } else {
                        Some(m.insert(a.pair, inner.insert(a.backend, (n - 1) as nat)))
                    }
                }
            },
        }
    }
}

/// The map that an association list holds, later entries winning.
pub open spec fn assoc(s: Seq<(Seq<char>, nat)>) -> Map<Seq<char>, nat>
    decreases s.len(),
{
    if s.len() == 0 {
        Map::empty()
    } else {
        assoc(s.drop_last()).insert(s.last().0, s.last().1)
    }
}

/// Whether the keys of an association list are distinct.
pub open spec fn distinct_keys(s: Seq<(Seq<char>, nat)>) -> bool {
    forall|i: int, j: int| 0 <= i < j < s.len() ==> #[trigger] s[i].0 != #[trigger] s[j].0
}

proof fn lemma_assoc(s: Seq<(Seq<char>, nat)>, k: Seq<char>)
    requires
        distinct_keys(s),
    ensures
        assoc(s).contains_key(k) <==> exists|i: int| 0 <= i < s.len() && s[i].0 == k,
        forall|i: int| 0 <= i < s.len() && s[i].0 == k ==> assoc(s)[k] == s[i].1,
    decreases s.len(),
{
    if s.len() > 0 {
        let t = s.drop_last();
        assert(distinct_keys(t)) by {
            assert forall|i: int, j: int| 0 <= i < j < t.len() implies #[trigger] t[i].0 != #[trigger] t[j].0 by {
                assert(t[i] == s[i] && t[j] == s[j]);
            }
        }
        lemma_assoc(t, k);
        if exists|i: int| 0 <= i < s.len() && s[i].0 == k {
            let i = choose|i: int| 0 <= i < s.len() && s[i].0 == k;
            if i < s.len() - 1 {
                assert(t[i] == s[i]);
            }
        }
        assert forall|i: int| 0 <= i < s.len() && s[i].0 == k implies assoc(s)[k] == s[i].1 by {
            if i < s.len() - 1 {
                assert(t[i] == s[i]);
                assert(s[i].0 != s[s.len() - 1].0);
            }
        }
        if assoc(t).contains_key(k) {
            let i = choose|i: int| 0 <= i < t.len() && t[i].0 == k;
            assert(s[i] == t[i]);
        }
    }
}

/// An inner list by its values.
pub open spec fn inner_view(v: Seq<(String, usize)>) -> Seq<(Seq<char>, nat)> {
    Seq::new(v.len(), |i: int| (v[i].0@, v[i].1 as nat))
}

/// The outer table by its values: each pair with the map its list holds.
pub open spec fn outer_view(t: Seq<(String, Vec<(String, usize)>)>) -> Seq<(Seq<char>, Map<Seq<char>, nat>)> {
    Seq::new(t.len(), |i: int| (t[i].0@, assoc(inner_view(t[i].1@))))
}

/// Whether every inner list of the table has distinct keys.
pub open spec fn inner_distinct(t: Seq<(String, Vec<(String, usize)>)>) -> bool {
    forall|i: int| 0 <= i < t.len() ==> distinct_keys(#[trigger] inner_view(t[i].1@))
}

fn find_backend(inner: &Vec<(String, usize)>, backend: &str) -> (r: Option<usize>)
    requires
        distinct_keys(inner_view(inner@)),
    ensures
        match r {
            Some(v) => assoc(inner_view(inner@)).contains_key(backend@) && assoc(inner_view(inner@))[backend@] == v,
            None => !assoc(inner_view(inner@)).contains_key(backend@),
        },
{
    let ghost s = inner_view(inner@);
    proof {
        lemma_assoc(s, backend@);
    }
    let mut i: usize = 0;
    while i < inner.len()
        invariant
            i <= inner.len(),
            s == inner_view(inner@),
            distinct_keys(s),
            forall|j: int| 0 <= j < i ==> s[j].0 != backend@,
        decreases inner.len() - i,
    {
        if str_eq(inner[i].0.as_str(), backend) {
            assert(s[i as int].0 == backend@);
            assert(s[i as int].1 == inner@[i as int].1 as nat);
            proof {
                lemma_assoc(s, backend@);
            }
            return Some(inner[i].1);
        }
        i += 1;
    }
    None
}

fn find_backend_at(inner: &Vec<(String, usize)>, backend: &str) -> (r: Option<usize>)
    requires
        distinct_keys(inner_view(inner@)),
    ensures
        match r {
            Some(j) => j < inner@.len() && inner@[j as int].0@ == backend@ && assoc(inner_view(inner@)).contains_key(backend@),
            None => !assoc(inner_view(inner@)).contains_key(backend@),
        },
{
    let ghost s = inner_view(inner@);
    proof {
        lemma_assoc(s, backend@);
    }
    let mut i: usize = 0;
    while i < inner.len()
        invariant
            i <= inner.len(),
            s == inner_view(inner@),
            distinct_keys(s),
            forall|j: int| 0 <= j < i ==> s[j].0 != backend@,
        decreases inner.len() - i,
    {
        if str_eq(inner[i].0.as_str(), backend) {
            assert(s[i as int].0 == backend@);
            proof {
                lemma_assoc(s, backend@);
            }
            return Some(i);
        }
        i += 1;
    }
    None
}

/// A pair of the index: the positions of its shell and transparent arms.
pub struct PairSlots {
    pub pair: String,
    pub shell: Option<usize>,
    pub transparent: Option<usize>,
}

/// The position an inner map gives a backend.
pub open spec fn slot(inner: Map<Seq<char>, nat>, backend: Seq<char>) -> Option<nat> {
    if inner.contains_key(backend) { Some(inner[backend]) } else { None }
}

/// The slots of a pair.
pub open spec fn slots(inner: Map<Seq<char>, nat>) -> (Option<nat>, Option<nat>) {
    (slot(inner, "shell"@), slot(inner, "transparent"@))
}

/// The pairs of the index by their values.
pub open spec fn slots_view(r: Seq<PairSlots>) -> Seq<(Seq<char>, (Option<nat>, Option<nat>))> {
    Seq::new(r.len(), |i: int| (r[i].pair@, (
        match r[i].shell { Some(v) => Some(v as nat), None => None },
        match r[i].transparent { Some(v) => Some(v as nat), None => None },
    )))
}

/// Indexes the formal arms by pair, sorted by pair identifier, with the
/// positions of each pair's shell and transparent arm; `None` when a strict
/// index meets two formal arms of the same pair and backend.
pub fn index_arms(arms: &[ArmKey], strict: bool) -> (r: Option<Vec<PairSlots>>)
    ensures
        match r {
            Some(pairs) => match index_upto(arm_key_views(arms@), arms@.len() as int, strict) {
                Some(m) => sorted_table(slots_view(pairs@), m.map_values(|inner: Map<Seq<char>, nat>| slots(inner))),
                None => false,
            },
            None => index_upto(arm_key_views(arms@), arms@.len() as int, strict) is None,
        },
{
    let ghost v = arm_key_views(arms@);
    let mut table: Vec<(String, Vec<(String, usize)>)> = Vec::new();
    proof {
        crate::order::lemma_table_empty::<Map<Seq<char>, nat>>();
        assert(outer_view(table@) =~= Seq::<(Seq<char>, Map<Seq<char>, nat>)>::empty());
    }
    let mut i: usize = 0;
    while i < arms.len()
        invariant
            i <= arms.len(),
            v == arm_key_views(arms@),
            index_upto(v, i as int, strict) is Some,
            sorted_table(outer_view(table@), index_upto(v, i as int, strict).unwrap()),
            inner_distinct(table@),
        decreases arms.len() - i,
    {
        let arm = &arms[i];
        assert(v[i as int] == arm.view());
        let ghost m = index_upto(v, i as int, strict).unwrap();
        let ghost tv = outer_view(table@);
        if arm.formal {
            assert forall|a: int, b: int| 0 <= a < b < keys_of(table@).len() implies
                key_lt(#[trigger] keys_of(table@)[a], #[trigger] keys_of(table@)[b]) by {
                assert(keys_of(table@)[a] == tv[a].0 && keys_of(table@)[b] == tv[b].0);
            }
            let (pos, found) = locate(&table, arm.pair.as_str());
            if found {
                assert(distinct_keys(inner_view(table@[pos as int].1@)));
                assert(tv[pos as int].0 == arm.pair@);
                assert(m.contains_key(tv[pos as int].0));
                assert(m.contains_key(arm.pair@) && m[arm.pair@] == tv[pos as int].1);
                let existing = find_backend_at(&table[pos].1, arm.backend.as_str());
                if existing.is_some() && strict {
                    proof {
                        assert(index_upto(v, i + 1, strict) is None);
                        lemma_index_stays_none(v, i + 1, arms@.len() as int, strict);
                    }
                    return None;
                }
                let ghost t0 = table@;
                let (k, mut inner) = table.remove(pos);
                let ghost before = inner_view(inner@);
                if let Some(j) = existing {
                    inner.set(j, (owned(arm.backend.as_str()), i));
                    proof {
                        lemma_assoc_replace(before, j as int, i as nat);
                        assert(inner_view(inner@) =~= before.update(j as int, (arm.backend@, i as nat)));
                    }
                } else {
                inner.push((owned(arm.backend.as_str()), i));
                proof {
                    assert(inner_view(inner@) =~= before.push((arm.backend@, i as nat)));
                    assert(inner_view(inner@).drop_last() =~= before);
                    assert(assoc(inner_view(inner@)) == assoc(before).insert(arm.backend@, i as nat));
                    lemma_assoc(before, arm.backend@);
                    assert forall|a: int, b: int| 0 <= a < b < inner_view(inner@).len() implies
                        #[trigger] inner_view(inner@)[a].0 != #[trigger] inner_view(inner@)[b].0 by {
                        if b == before.len() {
                            assert(inner_view(inner@)[a] == before[a]);
                        } else {
                            assert(inner_view(inner@)[a] == before[a] && inner_view(inner@)[b] == before[b]);
                        }
                    }
                }
                }
                let ghost newmap = assoc(inner_view(inner@));
                table.insert(pos, (k, inner));
                proof {
                    crate::order::lemma_table_update(tv, m, pos as int, newmap);
                    assert(outer_view(table@) =~= tv.update(pos as int, (tv[pos as int].0, newmap)));
                    assert forall|x: int| 0 <= x < table@.len() implies distinct_keys(#[trigger] inner_view(table@[x].1@)) by {
                        if x != pos {
                            assert(table@[x] == t0[x]);
                        }
                    }
                }
            } else {
                let mut inner: Vec<(String, usize)> = Vec::new();
                inner.push((owned(arm.backend.as_str()), i));
                proof {
                    assert(inner_view(inner@) =~= seq![(arm.backend@, i as nat)]);
                    assert(inner_view(inner@).drop_last() =~= Seq::<(Seq<char>, nat)>::empty());
                    assert(assoc(Seq::<(Seq<char>, nat)>::empty()) == Map::<Seq<char>, nat>::empty());
                    assert(assoc(inner_view(inner@).drop_last()) == Map::<Seq<char>, nat>::empty());
                    assert(assoc(inner_view(inner@)) == Map::<Seq<char>, nat>::empty().insert(arm.backend@, i as nat));
                    if m.contains_key(arm.pair@) {
                        let a = choose|a: int| 0 <= a < tv.len() && tv[a].0 == arm.pair@;
                        crate::order::lemma_key_order(arm.pair@, arm.pair@, arm.pair@);
                        if a < pos {
                            assert(key_lt(tv[a].0, arm.pair@));
                        } else {
                            assert(key_lt(arm.pair@, tv[a].0));
                        }
                    }
                }
                let ghost newmap = assoc(inner_view(inner@));
                table.insert(pos, (owned(arm.pair.as_str()), inner));
                proof {
                    assert forall|a: int| 0 <= a < pos implies key_lt(#[trigger] tv[a].0, arm.pair@) by {}
                    assert forall|a: int| pos <= a < tv.len() implies key_lt(arm.pair@, #[trigger] tv[a].0) by {}
                    crate::order::lemma_table_insert(tv, m, pos as int, arm.pair@, newmap);
                    assert(outer_view(table@) =~= tv.insert(pos as int, (arm.pair@, newmap)));
                }
            }
        }
        i += 1;
    }
    let ghost m = index_upto(v, arms.len() as int, strict).unwrap();
    let mut out: Vec<PairSlots> = Vec::new();
    let mut j: usize = 0;
    while j < table.len()
        invariant
            j <= table.len(),
            sorted_table(outer_view(table@), m),
            inner_distinct(table@),
            out@.len() == j,
            slots_view(out@) == outer_view(table@).take(j as int).map_values(|e: (Seq<char>, Map<Seq<char>, nat>)| (e.0, slots(e.1))),
        decreases table.len() - j,
    {
        let entry = &table[j];
        assert(distinct_keys(inner_view(table@[j as int].1@)));
        let shell = find_backend(&entry.1, "shell");
        let transparent = find_backend(&entry.1, "transparent");
        let ghost before = slots_view(out@);
        let ghost tv = outer_view(table@);
        assert(tv[j as int] == (entry.0@, assoc(inner_view(entry.1@))));
        let ghost e = (tv[j as int].0, slots(tv[j as int].1));
        out.push(PairSlots { pair: owned(entry.0.as_str()), shell, transparent });
        assert(out@.len() == j + 1);
        assert(slots_view(out@)[j as int] == e);
        assert(slots_view(out@) =~= before.push(e));
        assert(tv.take(j + 1) =~= tv.take(j as int).push(tv[j as int]));
        assert(slots_view(out@) =~= outer_view(table@).take(j + 1).map_values(|e: (Seq<char>, Map<Seq<char>, nat>)| (e.0, slots(e.1))));
        j += 1;
    }
    proof {
        let tv = outer_view(table@);
        assert(tv.take(tv.len() as int) =~= tv);
        lemma_table_map_values(tv, m);
    }
    Some(out)
}

proof fn lemma_index_stays_none(arms: Seq<ArmKeyView>, a: int, b: int, strict: bool)
    requires
        0 <= a <= b <= arms.len(),
        index_upto(arms, a, strict) is None,
    ensures
        index_upto(arms, b, strict) is None,
    decreases b - a,
{
    if a < b {
        lemma_index_stays_none(arms, a, b - 1, strict);
    }
}

/// Replacing the value under an existing key of an association list with
/// distinct keys replaces it in the map.
proof fn lemma_assoc_replace(s: Seq<(Seq<char>, nat)>, j: int, v: nat)
    requires
        distinct_keys(s),
        0 <= j < s.len(),
    ensures
        distinct_keys(s.update(j, (s[j].0, v))),
        assoc(s.update(j, (s[j].0, v))) == assoc(s).insert(s[j].0, v),
{
    let k = s[j].0;
    let u = s.update(j, (k, v));
    assert forall|a: int, b: int| 0 <= a < b < u.len() implies #[trigger] u[a].0 != #[trigger] u[b].0 by {
        assert(u[a].0 == s[a].0 && u[b].0 == s[b].0);
    }
    assert forall|q: Seq<char>| #[trigger] assoc(u).contains_key(q) == assoc(s).insert(k, v).contains_key(q)
        && (assoc(u).contains_key(q) ==> assoc(u)[q] == assoc(s).insert(k, v)[q]) by {
        lemma_assoc(u, q);
        lemma_assoc(s, q);
        if q == k {
            assert(u[j].0 == q);
        } else {
            if exists|i: int| 0 <= i < s.len() && s[i].0 == q {
                let i = choose|i: int| 0 <= i < s.len() && s[i].0 == q;
                assert(u[i] == s[i]);
            }
            if exists|i: int| 0 <= i < u.len() && u[i].0 == q {
                let i = choose|i: int| 0 <= i < u.len() && u[i].0 == q;
                assert(i != j);
                assert(u[i] == s[i]);
            }
        }
    }
    assert(assoc(u) =~= assoc(s).insert(k, v));
}

proof fn lemma_table_map_values(t: Seq<(Seq<char>, Map<Seq<char>, nat>)>, m: Map<Seq<char>, Map<Seq<char>, nat>>)
    requires
        sorted_table(t, m),
    ensures
        sorted_table(
            t.map_values(|e: (Seq<char>, Map<Seq<char>, nat>)| (e.0, slots(e.1))),
            m.map_values(|inner: Map<Seq<char>, nat>| slots(inner)),
        ),
{
    let u = t.map_values(|e: (Seq<char>, Map<Seq<char>, nat>)| (e.0, slots(e.1)));
    let n = m.map_values(|inner: Map<Seq<char>, nat>| slots(inner));
    assert forall|i: int, j: int| 0 <= i < j < u.len() implies key_lt(#[trigger] u[i].0, #[trigger] u[j].0) by {
        assert(u[i].0 == t[i].0 && u[j].0 == t[j].0);
    }
    assert forall|i: int| 0 <= i < u.len() implies #[trigger] n.contains_key(u[i].0) && n[u[i].0] == u[i].1 by {
        assert(m.contains_key(t[i].0));
    }
    assert forall|k: Seq<char>| #[trigger] n.contains_key(k) implies exists|i: int| 0 <= i < u.len() && u[i].0 == k by {
        assert(m.contains_key(k));
        let i = choose|i: int| 0 <= i < t.len() && t[i].0 == k;
        assert(u[i].0 == k);
    }
}

/// Whether both arms of a pair are present and comparable.
pub open spec fn spec_comparable(shell: Option<Json>, transparent: Option<Json>) -> bool {
    match (shell, transparent) {
        (Some(a), Some(b)) => spec_field(a, "strict_comparable"@) == Json::Bool(true)
            && spec_field(b, "strict_comparable"@) == Json::Bool(true),
        _ => false,
    }
}

fn is_true(v: &JsonValue) -> (r: bool)
    ensures
        r == (v@ == Json::Bool(true)),
{
    match v {
        JsonValue::Bool(b) => *b,
        _ => false,
    }
}

/// Whether both arms of a pair, given by their results, are comparable.
pub fn comparable(shell: Option<&JsonValue>, transparent: Option<&JsonValue>) -> (r: bool)
    ensures
        r == spec_comparable(match shell { Some(a) => Some(a@), None => None }, match transparent { Some(b) => Some(b@), None => None }),
{
    match (shell, transparent) {
        (Some(a), Some(b)) => is_true(&a.field("strict_comparable")) && is_true(&b.field("strict_comparable")),
        _ => false,
    }
}

/// A text member, or `unknown`.
pub open spec fn text_or_unknown(v: Json, name: Seq<char>) -> Seq<char> {
    match spec_as_str(spec_field(v, name)) { Some(s) => s, None => "unknown"@ }
}

/// The stratum of a pair: platform, task, round, tool mode and the shell
/// modes the shell arm observed (`unknown` without a shell arm).
pub open spec fn spec_group_label(manifest: Json, result: Json, shell: Option<Json>) -> Seq<char> {
    text_or_unknown(manifest, "platform"@) + " / "@ + text_or_unknown(result, "task_id"@) + " / round "@
        + crate::json::json_text(spec_field(result, "round"@)) + " / "@ + text_or_unknown(manifest, "tool_mode"@)
        + " / shell "@ + match shell { Some(a) => crate::json::json_text(spec_field(a, "shell_modes"@)), None => "unknown"@ }
}

fn push_text_or_unknown(out: &mut String, v: &JsonValue, name: &str)
    ensures
        final(out)@ == old(out)@ + text_or_unknown(v@, name@),
{
    match v.field_str(name) {
        Some(s) => push_all(out, s),
        None => push_all(out, "unknown"),
    }
}

/// Labels the stratum of a pair.
pub fn group_label(manifest: &JsonValue, result: &JsonValue, shell: Option<&JsonValue>) -> (r: String)
    ensures
        r@ == spec_group_label(manifest@, result@, match shell { Some(a) => Some(a@), None => None }),
{
    let mut out = String::new();
    push_text_or_unknown(&mut out, manifest, "platform");
    push_all(&mut out, " / ");
    push_text_or_unknown(&mut out, result, "task_id");
    push_all(&mut out, " / round ");
    push_all(&mut out, crate::json::to_json_text(&result.field("round")).as_str());
    push_all(&mut out, " / ");
    push_text_or_unknown(&mut out, manifest, "tool_mode");
    push_all(&mut out, " / shell ");
    match shell {
        Some(a) => push_all(&mut out, crate::json::to_json_text(&a.field("shell_modes")).as_str()),
        None => push_all(&mut out, "unknown"),
    }
    assert(out@ =~= spec_group_label(manifest@, result@, match shell { Some(a) => Some(a@), None => None }));
    out
}

/// An optional position in JSON.
pub open spec fn slot_json(s: Option<nat>) -> Json {
    match s { Some(i) => Json::Number(Num::PosInt(i as u64)), None => Json::Null }
}

/// A pair of the report: taken from its shell arm's result where there is
/// one, else its transparent arm's, with the positions of both arms, whether
/// they compare, and where they first differ.
pub open spec fn spec_pair_row(pair_id: Seq<char>, manifest: Json, shell: Option<(nat, Json)>, transparent: Option<(nat, Json)>) -> Json {
    let rep = match shell { Some(a) => a.1, None => match transparent { Some(b) => b.1, None => Json::Null } };
    let result = spec_field(rep, "result"@);
    Json::Object(seq![
        ("category"@, spec_field(result, "category"@)),
        ("first_difference"@, match (shell, transparent) {
            (Some(a), Some(b)) => crate::reporting::spec_first_difference(a.1, b.1),
            _ => Json::Null,
        }),
        ("pair_id"@, Json::Str(pair_id)),
        ("platform"@, spec_field(manifest, "platform"@)),
        ("round"@, spec_field(result, "round"@)),
        ("shell"@, slot_json(match shell { Some(a) => Some(a.0), None => None })),
        ("strict_comparable"@, Json::Bool(spec_comparable(
            match shell { Some(a) => Some(spec_field(a.1, "result"@)), None => None },
            match transparent { Some(b) => Some(spec_field(b.1, "result"@)), None => None }))),
        ("task_id"@, spec_field(result, "task_id"@)),
        ("tool_mode"@, spec_field(manifest, "tool_mode"@)),
        ("transparent"@, slot_json(match transparent { Some(b) => Some(b.0), None => None })),
    ])
}

/// Writes a pair of the report from its arms (each `{"result", "facts", ...}`
/// with its position among the arms).
pub fn pair_row(pair_id: &str, manifest: &JsonValue, shell: Option<(usize, &JsonValue)>, transparent: Option<(usize, &JsonValue)>) -> (r: JsonValue)
    requires
        shell is Some || transparent is Some,
    ensures
        r@ == spec_pair_row(pair_id@, manifest@,
            match shell { Some(a) => Some((a.0 as nat, a.1@)), None => None },
            match transparent { Some(b) => Some((b.0 as nat, b.1@)), None => None }),
{
    let rep = match shell { Some(a) => a.1, None => match transparent { Some(b) => b.1, None => manifest } };
    let result = rep.field("result");
    let left = match shell { Some(a) => Some(a.1.field("result")), None => None };
    let right = match transparent { Some(b) => Some(b.1.field("result")), None => None };
    let strict = comparable(left.as_ref(), right.as_ref());
    let first = match (shell, transparent) {
        (Some(a), Some(b)) => crate::reporting::first_difference(a.1, b.1),
        _ => JsonValue::Null,
    };
    let mut m: Vec<(String, JsonValue)> = Vec::new();
    assert(member_views(m@) =~= Seq::<(Seq<char>, Json)>::empty());
    push_member(&mut m, "category", result.field("category"));
    push_member(&mut m, "first_difference", first);
    push_member(&mut m, "pair_id", text_value(pair_id));
    push_member(&mut m, "platform", manifest.field("platform"));
    push_member(&mut m, "round", result.field("round"));
    push_member(&mut m, "shell", match shell { Some(a) => JsonValue::Number(JsonNumber::PosInt(a.0 as u64)), None => JsonValue::Null });
    push_member(&mut m, "strict_comparable", JsonValue::Bool(strict));
    push_member(&mut m, "task_id", result.field("task_id"));
    push_member(&mut m, "tool_mode", manifest.field("tool_mode"));
    push_member(&mut m, "transparent", match transparent { Some(b) => JsonValue::Number(JsonNumber::PosInt(b.0 as u64)), None => JsonValue::Null });
    let r = object_of(m);
    let ghost sv = match shell { Some(a) => Some((a.0 as nat, a.1@)), None => None };
    let ghost tv = match transparent { Some(b) => Some((b.0 as nat, b.1@)), None => None };
    assert(r@ =~= spec_pair_row(pair_id@, manifest@, sv, tv)) by {
        if let Json::Object(a) = r@ {
            if let Json::Object(b) = spec_pair_row(pair_id@, manifest@, sv, tv) {
                assert(a =~= b);
            }
        }
    }
    r
}

/// The comparable pairs among the first `n`, grouped by stratum, each group
/// in pair order.
pub open spec fn groups_upto(labels: Seq<Seq<char>>, comparable: Seq<bool>, n: int) -> Map<Seq<char>, Seq<nat>>
    decreases n,
{
    if n <= 0 || n > labels.len() || n > comparable.len() {
        Map::empty()
    } else {
        let m = groups_upto(labels, comparable, n - 1);
        if !comparable[n - 1] {
            m
        } else {
            let k = labels[n - 1];
            m.insert(k, (if m.contains_key(k) { m[k] } else { Seq::empty() }).push((n - 1) as nat))
        }
    }
}

/// A table of groups by its values.
pub open spec fn group_view(t: Seq<(String, Vec<usize>)>) -> Seq<(Seq<char>, Seq<nat>)> {
    Seq::new(t.len(), |i: int| (t[i].0@, t[i].1@.map_values(|x: usize| x as nat)))
}

/// Groups the comparable pairs by stratum, sorted by stratum.
pub fn group_pairs(labels: &Vec<String>, comparable: &Vec<bool>) -> (r: Vec<(String, Vec<usize>)>)
    requires
        labels@.len() == comparable@.len(),
    ensures
        sorted_table(group_view(r@), groups_upto(crate::collection::arg_views(labels@), comparable@, labels@.len() as int)),
{
    let ghost lv = crate::collection::arg_views(labels@);
    let mut table: Vec<(String, Vec<usize>)> = Vec::new();
    proof {
        crate::order::lemma_table_empty::<Seq<nat>>();
        assert(group_view(table@) =~= Seq::<(Seq<char>, Seq<nat>)>::empty());
    }
    let mut i: usize = 0;
    while i < labels.len()
        invariant
            i <= labels@.len(),
            labels@.len() == comparable@.len(),
            lv == crate::collection::arg_views(labels@),
            sorted_table(group_view(table@), groups_upto(lv, comparable@, i as int)),
        decreases labels.len() - i,
    {
        let ghost m = groups_upto(lv, comparable@, i as int);
        let ghost tv = group_view(table@);
        if comparable[i] {
            let key = labels[i].as_str();
            assert(lv[i as int] == key@);
            assert forall|a: int, b: int| 0 <= a < b < keys_of(table@).len() implies
                key_lt(#[trigger] keys_of(table@)[a], #[trigger] keys_of(table@)[b]) by {
                assert(keys_of(table@)[a] == tv[a].0 && keys_of(table@)[b] == tv[b].0);
            }
            let (pos, found) = locate(&table, key);
            if found {
                assert(m.contains_key(tv[pos as int].0));
                let (k, mut members) = table.remove(pos);
                let ghost before = members@.map_values(|x: usize| x as nat);
                members.push(i);
                assert(members@.map_values(|x: usize| x as nat) =~= before.push(i as nat));
                let ghost nv = before.push(i as nat);
                table.insert(pos, (k, members));
                proof {
                    crate::order::lemma_table_update(tv, m, pos as int, nv);
                    assert(group_view(table@) =~= tv.update(pos as int, (tv[pos as int].0, nv)));
                }
            } else {
                let mut members: Vec<usize> = Vec::new();
                members.push(i);
                assert(members@.map_values(|x: usize| x as nat) =~= seq![i as nat]);
                assert(Seq::<nat>::empty().push(i as nat) =~= seq![i as nat]);
                table.insert(pos, (owned(key), members));
                proof {
                    if m.contains_key(key@) {
                        let a = choose|a: int| 0 <= a < tv.len() && tv[a].0 == key@;
                        crate::order::lemma_key_order(key@, key@, key@);
                        if a < pos {
                            assert(key_lt(tv[a].0, key@));
                        } else {
                            assert(key_lt(key@, tv[a].0));
                        }
                    }
                    assert forall|a: int| 0 <= a < pos implies key_lt(#[trigger] tv[a].0, key@) by {}
                    assert forall|a: int| pos <= a < tv.len() implies key_lt(key@, #[trigger] tv[a].0) by {}
                    crate::order::lemma_table_insert(tv, m, pos as int, key@, seq![i as nat]);
                    assert(group_view(table@) =~= tv.insert(pos as int, (key@, seq![i as nat])));
                }
            }
        }
        i += 1;
    }
    table
}

/// The metrics compared between the arms of a comparable pair, in the order
/// the report lists their statistics.
pub open spec fn report_metrics() -> Seq<Seq<char>> {
    seq!["approval_ns"@, "artifact_write_ns"@, "codex_total_ns"@, "external_response_ns"@, "fixture_runtime_ns"@,
        "launcher_child_spawn_ns"@, "launcher_prepare_ns"@, "policy_sandbox_spawn_ns"@, "rate_wait_ns"@,
        "ready_to_wait_observed_ns"@, "request_gate_queue_ns"@, "request_to_first_byte_ns"@, "sandbox_setup_spawn_ns"@,
        "spawn_return_ns"@, "startup_to_ready_ns"@, "tool_call_ns"@, "unexplained_ns"@, "wait_to_last_observed_eof_ns"@]
}

/// The compared metrics.
pub fn metric_names() -> (r: Vec<&'static str>)
    ensures
        r@.map_values(|s: &str| s@) == report_metrics(),
{
    let v = vec!["approval_ns", "artifact_write_ns", "codex_total_ns", "external_response_ns", "fixture_runtime_ns",
        "launcher_child_spawn_ns", "launcher_prepare_ns", "policy_sandbox_spawn_ns", "rate_wait_ns",
        "ready_to_wait_observed_ns", "request_gate_queue_ns", "request_to_first_byte_ns", "sandbox_setup_spawn_ns",
        "spawn_return_ns", "startup_to_ready_ns", "tool_call_ns", "unexplained_ns", "wait_to_last_observed_eof_ns"];
    assert(v@.map_values(|s: &str| s@) =~= report_metrics());
    v
}

/// One metric of each comparable pair of a stratum: `{"shell", "transparent"}`.
pub open spec fn spec_metric_pairs(arms: Seq<(Json, Json)>, metric: Seq<char>) -> Json {
    Json::Array(Seq::new(arms.len(), |i: int| Json::Object(seq![
        ("shell"@, spec_field(spec_field(arms[i].0, "metrics"@), metric)),
        ("transparent"@, spec_field(spec_field(arms[i].1, "metrics"@), metric)),
    ])))
}

/// Collects one metric of each comparable pair of a stratum.
pub fn metric_pairs(arms: &Vec<(&JsonValue, &JsonValue)>, metric: &str) -> (r: JsonValue)
    ensures
        r@ == spec_metric_pairs(arms@.map_values(|p: (&JsonValue, &JsonValue)| (p.0@, p.1@)), metric@),
{
    let ghost av = arms@.map_values(|p: (&JsonValue, &JsonValue)| (p.0@, p.1@));
    let mut items: Vec<JsonValue> = Vec::new();
    let mut i: usize = 0;
    while i < arms.len()
        invariant
            i <= arms@.len(),
            av == arms@.map_values(|p: (&JsonValue, &JsonValue)| (p.0@, p.1@)),
            crate::evidence::value_views(items@) == Seq::new(i as nat, |j: int| Json::Object(seq![
                ("shell"@, spec_field(spec_field(av[j].0, "metrics"@), metric@)),
                ("transparent"@, spec_field(spec_field(av[j].1, "metrics"@), metric@)),
            ])),
        decreases arms.len() - i,
    {
        let (a, b) = arms[i];
        assert(av[i as int] == (a@, b@));
        let mut m: Vec<(String, JsonValue)> = Vec::new();
        assert(member_views(m@) =~= Seq::<(Seq<char>, Json)>::empty());
        push_member(&mut m, "shell", a.field("metrics").field(metric));
        push_member(&mut m, "transparent", b.field("metrics").field(metric));
        let o = object_of(m);
        let ghost e = Json::Object(seq![
            ("shell"@, spec_field(spec_field(av[i as int].0, "metrics"@), metric@)),
            ("transparent"@, spec_field(spec_field(av[i as int].1, "metrics"@), metric@)),
        ]);
        assert(o@ == e) by {
            if let Json::Object(x) = o@ {
                if let Json::Object(y) = e {
                    assert(x =~= y);
                }
            }
        }
        let ghost before = crate::evidence::value_views(items@);
        items.push(o);
        assert(crate::evidence::value_views(items@) =~= before.push(e));
        assert(crate::evidence::value_views(items@) =~= Seq::new((i + 1) as nat, |j: int| Json::Object(seq![
            ("shell"@, spec_field(spec_field(av[j].0, "metrics"@), metric@)),
            ("transparent"@, spec_field(spec_field(av[j].1, "metrics"@), metric@)),
        ])));
        i += 1;
    }
    let r = JsonValue::Array(items);
    assert(r@ == spec_metric_pairs(av, metric@)) by {
        if let Json::Array(x) = r@ {
            assert(x =~= crate::evidence::value_views(items@));
        }
    }
    r
}

/// A row of the report's statistics.
pub open spec fn spec_statistic_row(stratum: Seq<char>, metric: Seq<char>, statistics: Json) -> Json {
    Json::Object(seq![
        ("confidence"@, Json::Str("inferred"@)),
        ("metric"@, Json::Str(metric)),
        ("statistics"@, statistics),
        ("stratum"@, Json::Str(stratum)),
        ("units"@, Json::Str("ns"@)),
    ])
}

/// Writes a row of the report's statistics.
pub fn statistic_row(stratum: &str, metric: &str, statistics: JsonValue) -> (r: JsonValue)
    ensures
        r@ == spec_statistic_row(stratum@, metric@, statistics@),
{
    let ghost s = statistics@;
    let mut m: Vec<(String, JsonValue)> = Vec::new();
    assert(member_views(m@) =~= Seq::<(Seq<char>, Json)>::empty());
    push_member(&mut m, "confidence", text_value("inferred"));
    push_member(&mut m, "metric", text_value(metric));
    push_member(&mut m, "statistics", statistics);
    push_member(&mut m, "stratum", text_value(stratum));
    push_member(&mut m, "units", text_value("ns"));
    let r = object_of(m);
    assert(r@ =~= spec_statistic_row(stratum@, metric@, s)) by {
        if let Json::Object(a) = r@ {
            if let Json::Object(b) = spec_statistic_row(stratum@, metric@, s) {
                assert(a =~= b);
            }
        }
    }
    r
}

/// The shell modes observed by the first `n` arms whose result names the
/// shell backend, in order.
pub open spec fn shell_modes_upto(results: Seq<Json>, n: int) -> Seq<Json>
    decreases n,
{
    if n <= 0 || n > results.len() {
        Seq::empty()
    } else {
        let prev = shell_modes_upto(results, n - 1);
        let r = results[n - 1];
        if spec_is_text(spec_field(r, "backend"@), "shell"@) {
            match spec_field(r, "shell_modes"@) {
                Json::Array(items) => prev + items,
                _ => prev,
            }
        } else {
            prev
        }
    }
}

/// Whether the shell arms ran their commands directly: `null` when no shell
/// mode was observed, else whether every observed mode is `Direct`.
pub open spec fn spec_default_shell_is_direct(results: Seq<Json>) -> Json {
    let modes = shell_modes_upto(results, results.len() as int);
    if modes.len() == 0 {
        Json::Null
    } else {
        Json::Bool(forall|i: int| 0 <= i < modes.len() ==> modes[i] == Json::Str("Direct"@))
    }
}

fn default_shell_is_direct(results: &[JsonValue]) -> (r: JsonValue)
    ensures
        r@ == spec_default_shell_is_direct(crate::evidence::value_views(results@)),
{
    let ghost v = crate::evidence::value_views(results@);
    let mut seen = false;
    let mut all = true;
    let mut i: usize = 0;
    while i < results.len()
        invariant
            i <= results.len(),
            v == crate::evidence::value_views(results@),
            seen == (shell_modes_upto(v, i as int).len() > 0),
            all == (forall|j: int| 0 <= j < shell_modes_upto(v, i as int).len() ==> shell_modes_upto(v, i as int)[j] == Json::Str("Direct"@)),
        decreases results.len() - i,
    {
        let r = &results[i];
        assert(v[i as int] == r@);
        let ghost prev = shell_modes_upto(v, i as int);
        if r.field("backend").is_text("shell") {
            let modes = r.field("shell_modes");
            match &modes {
                JsonValue::Array(items) => {
                    let ghost iv = match modes@ { Json::Array(x) => x, _ => Seq::empty() };
                    assert(iv.len() == items@.len());
                    assert(shell_modes_upto(v, i + 1) == prev + iv);
                    let mut k: usize = 0;
                    while k < items.len()
                        invariant
                            k <= items@.len(),
                            iv.len() == items@.len(),
                            forall|j: int| 0 <= j < items@.len() ==> #[trigger] iv[j] == items@[j]@,
                            seen == (prev.len() + k > 0),
                            all == ((forall|j: int| 0 <= j < prev.len() ==> prev[j] == Json::Str("Direct"@))
                                && (forall|j: int| 0 <= j < k ==> iv[j] == Json::Str("Direct"@))),
                        decreases items.len() - k,
                    {
                        seen = true;
                        let direct = items[k].is_text("Direct");
                        assert(direct == (iv[k as int] == Json::Str("Direct"@))) by {
                            assert(iv[k as int] == items@[k as int]@);
                        }
                        all = all && direct;
                        k += 1;
                    }
                    proof {
                        let w = prev + iv;
                        if all {
                            assert forall|j: int| 0 <= j < w.len() implies w[j] == Json::Str("Direct"@) by {
                                if j >= prev.len() {
                                    assert(w[j] == iv[j - prev.len()]);
                                }
                            }
                        } else {
                            if !(forall|j: int| 0 <= j < prev.len() ==> prev[j] == Json::Str("Direct"@)) {
                                let j = choose|j: int| 0 <= j < prev.len() && prev[j] != Json::Str("Direct"@);
                                assert(w[j] == prev[j]);
                            } else {
                                let j = choose|j: int| 0 <= j < iv.len() && iv[j] != Json::Str("Direct"@);
                                assert(w[prev.len() + j] == iv[j]);
                            }
                        }
                    }
                },
                _ => {},
            }
        }
        i += 1;
    }
    if seen { JsonValue::Bool(all) } else { JsonValue::Null }
}

/// How many of the first `n` report pairs are strictly comparable.
pub open spec fn strict_count(pairs: Seq<Json>, n: int) -> nat
    decreases n,
{
    if n <= 0 || n > pairs.len() {
        0
    } else {
        strict_count(pairs, n - 1) + if spec_field(pairs[n - 1], "strict_comparable"@) == Json::Bool(true) { 1nat } else { 0nat }
    }
}

/// The limits every report states.
pub open spec fn report_limits() -> Seq<Seq<char>> {
    seq![
        "No universal lossless replacement claim from this sample."@,
        "Model compute and relay internal waiting are inseparable without server evidence."@,
        "Intervals overlap; local residual and missing stages remain unexplained."@,
        "Online scenario samples do not support stable p99 estimates."@,
        "Default Shell and Direct control runs are separate artifacts; inspect observed shell_modes before attributing differences."@,
    ]
}

/// The summary of a run's report: the pairs attempted and the statuses of
/// the formal arms, the strictly comparable pairs against the target (a run
/// without a whole-number target is partial), how the collection stopped,
/// and whether the shell arms ran directly.
pub open spec fn spec_build_summary(pairs: Seq<Json>, formal: Seq<Json>, results: Seq<Json>, manifest: Json, stop: Json) -> Json {
    let valid = strict_count(pairs, pairs.len() as int);
    Json::Object(seq![
        ("default_shell_is_direct"@, spec_default_shell_is_direct(results)),
        ("intention_to_treat"@, Json::Object(seq![
            ("arm_statuses"@, crate::pairs::counts_json(crate::order::sorted_entries(crate::pairs::status_counts_upto(formal, formal.len() as int)))),
            ("attempted_pairs"@, Json::Number(Num::PosInt(pairs.len() as u64))),
        ])),
        ("limits"@, Json::Array(Seq::new(5, |i: int| Json::Str(report_limits()[i])))),
        ("partial"@, Json::Bool(match crate::json::spec_as_u64(spec_field(manifest, "target_pairs"@)) {
            Some(t) => valid < t,
            None => true,
        })),
        ("platform"@, spec_field(manifest, "platform"@)),
        ("stop"@, stop),
        ("strict_comparable_pairs"@, Json::Number(Num::PosInt(valid as u64))),
        ("target_pairs"@, spec_field(manifest, "target_pairs"@)),
    ])
}

/// Writes the summary of a run's report.
pub fn build_summary(pairs: &[JsonValue], formal: &[JsonValue], results: &[JsonValue], manifest: &JsonValue, stop: JsonValue) -> (r: JsonValue)
    ensures
        r@ == spec_build_summary(crate::evidence::value_views(pairs@), crate::evidence::value_views(formal@),
            crate::evidence::value_views(results@), manifest@, stop@),
{
    let ghost pv = crate::evidence::value_views(pairs@);
    let mut valid: usize = 0;
    let mut i: usize = 0;
    while i < pairs.len()
        invariant
            i <= pairs.len(),
            valid <= i,
            pv == crate::evidence::value_views(pairs@),
            valid == strict_count(pv, i as int),
        decreases pairs.len() - i,
    {
        assert(pv[i as int] == pairs@[i as int]@);
        if is_true(&pairs[i].field("strict_comparable")) {
            valid += 1;
        }
        i += 1;
    }
    let counts = crate::pairs::status_counts(formal);
    proof {
        crate::order::lemma_sorted_entries(crate::pairs::count_view(counts@),
            crate::pairs::status_counts_upto(crate::evidence::value_views(formal@), formal@.len() as int));
    }
    let mut itt: Vec<(String, JsonValue)> = Vec::new();
    assert(member_views(itt@) =~= Seq::<(Seq<char>, Json)>::empty());
    push_member(&mut itt, "arm_statuses", crate::pairs::counts_object(&counts));
    push_member(&mut itt, "attempted_pairs", JsonValue::Number(JsonNumber::PosInt(pairs.len() as u64)));
    assert(member_views(itt@) =~= seq![
        ("arm_statuses"@, crate::pairs::counts_json(crate::order::sorted_entries(crate::pairs::status_counts_upto(crate::evidence::value_views(formal@), formal@.len() as int)))),
        ("attempted_pairs"@, Json::Number(Num::PosInt(pv.len() as u64))),
    ]);
    let itt_value = object_of(itt);
    let mut limits: Vec<JsonValue> = Vec::new();
    limits.push(text_value("No universal lossless replacement claim from this sample."));
    limits.push(text_value("Model compute and relay internal waiting are inseparable without server evidence."));
    limits.push(text_value("Intervals overlap; local residual and missing stages remain unexplained."));
    limits.push(text_value("Online scenario samples do not support stable p99 estimates."));
    limits.push(text_value("Default Shell and Direct control runs are separate artifacts; inspect observed shell_modes before attributing differences."));
    let limits_value = JsonValue::Array(limits);
    assert(limits_value@ == Json::Array(Seq::new(5, |i: int| Json::Str(report_limits()[i])))) by {
        if let Json::Array(a) = limits_value@ {
            assert(a =~= Seq::new(5, |i: int| Json::Str(report_limits()[i])));
        }
    }
    let partial = match manifest.field("target_pairs").as_u64() {
        Some(t) => (valid as u64) < t,
        None => true,
    };
    let ghost sv = stop@;
    let mut m: Vec<(String, JsonValue)> = Vec::new();
    assert(member_views(m@) =~= Seq::<(Seq<char>, Json)>::empty());
    push_member(&mut m, "default_shell_is_direct", default_shell_is_direct(results));
    push_member(&mut m, "intention_to_treat", itt_value);
    push_member(&mut m, "limits", limits_value);
    push_member(&mut m, "partial", JsonValue::Bool(partial));
    push_member(&mut m, "platform", manifest.field("platform"));
    push_member(&mut m, "stop", stop);
    push_member(&mut m, "strict_comparable_pairs", JsonValue::Number(JsonNumber::PosInt(valid as u64)));
    push_member(&mut m, "target_pairs", manifest.field("target_pairs"));
    let r = object_of(m);
    assert(r@ =~= spec_build_summary(pv, crate::evidence::value_views(formal@), crate::evidence::value_views(results@), manifest@, sv)) by {
        if let Json::Object(a) = r@ {
            if let Json::Object(b) = spec_build_summary(pv, crate::evidence::value_views(formal@), crate::evidence::value_views(results@), manifest@, sv) {
                assert(a =~= b);
            }
        }
    }
    r
}

/// Indexes the formal arms of a run's report, refusing two formal arms of
/// the same pair and backend.
pub fn index_report_arms(arms: &[ArmKey]) -> (r: Result<Vec<PairSlots>, String>)
    ensures
        match r {
            Ok(pairs) => match index_upto(arm_key_views(arms@), arms@.len() as int, true) {
                Some(m) => sorted_table(slots_view(pairs@), m.map_values(|inner: Map<Seq<char>, nat>| slots(inner))),
                None => false,
            },
            Err(e) => index_upto(arm_key_views(arms@), arms@.len() as int, true) is None
                && e@ == "duplicate arm identity; evidence cannot be collapsed"@,
        },
{
    match index_arms(arms, true) {
        Some(pairs) => Ok(pairs),
        None => Err(owned("duplicate arm identity; evidence cannot be collapsed")),
    }
}

} // verus!
