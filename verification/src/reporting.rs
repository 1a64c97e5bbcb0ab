//! Report arithmetic over trace rows: which rows carry a comparable clock,
//! how observed intervals are paired, summed and merged.
use vstd::prelude::*;
use crate::json::{Json, JsonValue, json_text, spec_as_str, spec_as_u64, spec_field, spec_is_text, str_eq, to_json_text};
use crate::evidence::{sha256, spec_hex};
use crate::reassess::spec_normal_relative;

verus! {

/// The monotonic timestamp of a row whose clock is the operating system's
/// monotonic clock.
pub open spec fn spec_ns(row: Json) -> Option<u64> {
    if spec_is_text(spec_field(row, "clock_domain"@), "os-monotonic"@) {
        spec_as_u64(spec_field(row, "monotonic_ns"@))
    } else {
        None
    }
}

/// The timestamp of a row on the OS monotonic clock, if it has one.
pub fn ns(row: &JsonValue) -> (r: Option<u64>)
    ensures
        r == spec_ns(row@),
{
    let domain = row.field("clock_domain");
    if domain.is_text("os-monotonic") {
        row.field("monotonic_ns").as_u64()
    } else {
        None
    }
}

/// Whether a row is the event `name` of `phase`.
pub open spec fn spec_event(row: Json, phase: Seq<char>, name: Seq<char>) -> bool {
    spec_is_text(spec_field(row, "phase"@), phase) && spec_is_text(spec_field(row, "event"@), name)
}

/// Whether a row is the event `name` of `phase`.
pub fn event(row: &JsonValue, phase: &str, name: &str) -> (r: bool)
    ensures
        r == spec_event(row@, phase@, name@),
{
    row.field("phase").is_text(phase) && row.field("event").is_text(name)
}

/// The total length of some intervals.
pub open spec fn spec_sum(spans: Seq<(u64, u64)>) -> int
    decreases spans.len(),
{
    if spans.len() == 0 {
        0
    } else {
        spec_sum(spans.drop_last()) + (spans.last().1 - spans.last().0)
    }
}

/// The total length of the intervals, or `None` when there are none.
pub fn sum(spans: &[(u64, u64)]) -> (r: Option<u64>)
    requires
        forall|i: int| 0 <= i < spans@.len() ==> spans@[i].0 <= #[trigger] spans@[i].1,
        spec_sum(spans@) <= u64::MAX,
    ensures
        spans@.len() == 0 ==> r is None,
        spans@.len() > 0 ==> r == Some(spec_sum(spans@) as u64),
{
    if spans.len() == 0 {
        return None;
    }
    let mut total: u64 = 0;
    let mut i: usize = 0;
    while i < spans.len()
        invariant
            i <= spans.len(),
            forall|k: int| 0 <= k < spans@.len() ==> spans@[k].0 <= #[trigger] spans@[k].1,
            spec_sum(spans@) <= u64::MAX,
            total == spec_sum(spans@.take(i as int)),
        decreases spans.len() - i,
    {
        assert(spans@.take(i + 1).drop_last() =~= spans@.take(i as int));
        proof {
            lemma_sum_prefix(spans@, i + 1);
        }
        let (a, b) = spans[i];
        total = total + (b - a);
        i += 1;
    }
    assert(spans@.take(i as int) =~= spans@);
    Some(total)
}

/// The total of a prefix never exceeds the total.
pub proof fn lemma_sum_prefix(spans: Seq<(u64, u64)>, n: int)
    requires
        0 <= n <= spans.len(),
        forall|i: int| 0 <= i < spans.len() ==> spans[i].0 <= #[trigger] spans[i].1,
    ensures
        spec_sum(spans.take(n)) <= spec_sum(spans),
    decreases spans.len() - n,
{
    if n < spans.len() {
        lemma_sum_prefix(spans, n + 1);
        assert(spans.take(n + 1).drop_last() =~= spans.take(n));
    } else {
        assert(spans.take(n) =~= spans);
    }
}

/// Whether the instant `t` lies in the interval `[s.0, s.1)`.
pub open spec fn holds(s: (u64, u64), t: int) -> bool {
    s.0 <= t < s.1
}

/// Whether the instant `t` lies in one of the intervals.
pub open spec fn covered(spans: Seq<(u64, u64)>, t: int) -> bool {
    exists|i: int| 0 <= i < spans.len() && #[trigger] holds(spans[i], t)
}

/// The number of instants in `[lo, hi)` that lie in one of the intervals.
pub open spec fn covered_count(spans: Seq<(u64, u64)>, lo: int, hi: int) -> nat
    decreases hi - lo,
{
    if hi <= lo {
        0
    } else {
        covered_count(spans, lo, hi - 1) + if covered(spans, hi - 1) { 1nat } else { 0nat }
    }
}

/// The time in `[begin, end)` that the intervals cover, each instant counted
/// once however many intervals hold it.
pub open spec fn spec_union(spans: Seq<(u64, u64)>, begin: u64, end: u64) -> nat {
    covered_count(spans, begin as int, end as int)
}

/// A count over `[lo, hi)` is at most its width.
pub proof fn lemma_count_bounded(spans: Seq<(u64, u64)>, lo: int, hi: int)
    ensures
        covered_count(spans, lo, hi) <= if hi <= lo { 0 } else { hi - lo },
    decreases hi - lo,
{
    if hi > lo {
        lemma_count_bounded(spans, lo, hi - 1);
    }
}

/// Counts over `[lo, mid)` and `[mid, hi)` add up.
proof fn lemma_count_split(spans: Seq<(u64, u64)>, lo: int, mid: int, hi: int)
    requires
        lo <= mid <= hi,
    ensures
        covered_count(spans, lo, hi) == covered_count(spans, lo, mid) + covered_count(spans, mid, hi),
    decreases hi - mid,
{
    if hi > mid {
        lemma_count_split(spans, lo, mid, hi - 1);
    }
}

/// Counts agree where the coverage agrees.
proof fn lemma_count_same(a: Seq<(u64, u64)>, b: Seq<(u64, u64)>, lo: int, hi: int)
    requires
        forall|t: int| lo <= t < hi ==> covered(a, t) == covered(b, t),
    ensures
        covered_count(a, lo, hi) == covered_count(b, lo, hi),
    decreases hi - lo,
{
    if hi > lo {
        lemma_count_same(a, b, lo, hi - 1);
    }
}

/// A range that every instant is covered in counts fully; one that none is
/// covered in counts nothing.
proof fn lemma_count_full(spans: Seq<(u64, u64)>, lo: int, hi: int, full: bool)
    requires
        forall|t: int| lo <= t < hi ==> covered(spans, t) == full,
    ensures
        covered_count(spans, lo, hi) == if full && hi > lo { hi - lo } else { 0 },
    decreases hi - lo,
{
    if hi > lo {
        lemma_count_full(spans, lo, hi - 1, full);
    }
}


proof fn lemma_covered_push(s: Seq<(u64, u64)>, x: (u64, u64), t: int)
    ensures
        covered(s.push(x), t) == (covered(s, t) || holds(x, t)),
{
    let p = s.push(x);
    if covered(s, t) {
        let i = choose|i: int| 0 <= i < s.len() && #[trigger] holds(s[i], t);
        assert(p[i] == s[i]);
        assert(holds(p[i], t));
    }
    if holds(x, t) {
        assert(p[s.len() as int] == x);
        assert(holds(p[s.len() as int], t));
    }
    if covered(p, t) {
        let i = choose|i: int| 0 <= i < p.len() && #[trigger] holds(p[i], t);
        if i < s.len() {
            assert(p[i] == s[i]);
            assert(holds(s[i], t));
        }
    }
}

proof fn lemma_covered_insert(s: Seq<(u64, u64)>, k: int, x: (u64, u64), t: int)
    requires
        0 <= k <= s.len(),
    ensures
        covered(s.insert(k, x), t) == (covered(s, t) || holds(x, t)),
{
    let p = s.insert(k, x);
    if covered(s, t) {
        let i = choose|i: int| 0 <= i < s.len() && #[trigger] holds(s[i], t);
        if i < k {
            assert(p[i] == s[i]);
            assert(holds(p[i], t));
        } else {
            assert(p[i + 1] == s[i]);
            assert(holds(p[i + 1], t));
        }
    }
    if holds(x, t) {
        assert(p[k] == x);
        assert(holds(p[k], t));
    }
    if covered(p, t) {
        let i = choose|i: int| 0 <= i < p.len() && #[trigger] holds(p[i], t);
        if i < k {
            assert(p[i] == s[i]);
            assert(holds(s[i], t));
        } else if i > k {
            assert(p[i] == s[i - 1]);
            assert(holds(s[i - 1], t));
        }
    }
}

/// The intervals cut to `[begin, end)`, dropping those that fall outside;
/// the instants they cover are those of the originals within the window.
fn clip(spans: &[(u64, u64)], begin: u64, end: u64) -> (r: Vec<(u64, u64)>)
    ensures
        forall|i: int| 0 <= i < r@.len() ==> begin <= (#[trigger] r@[i]).0 <= r@[i].1 <= end,
        forall|t: int| covered(r@, t) == (begin <= t < end && covered(spans@, t)),
{
    let mut out: Vec<(u64, u64)> = Vec::new();
    let mut i: usize = 0;
    while i < spans.len()
        invariant
            i <= spans.len(),
            forall|j: int| 0 <= j < out@.len() ==> begin <= (#[trigger] out@[j]).0 <= out@[j].1 <= end,
            forall|t: int| covered(out@, t) == (begin <= t < end && covered(spans@.take(i as int), t)),
        decreases spans.len() - i,
    {
        let (a, b) = spans[i];
        let lo = if a > begin { a } else { begin };
        let hi = if b < end { b } else { end };
        let ghost before = out@;
        let ghost prefix = spans@.take(i as int);
        assert(spans@.take(i + 1) =~= prefix.push(spans@[i as int]));
        if hi >= lo {
            out.push((lo, hi));
            assert(out@ =~= before.push((lo, hi)));
            assert forall|t: int| covered(out@, t) == (begin <= t < end && covered(spans@.take(i + 1), t)) by {
                lemma_covered_push(before, (lo, hi), t);
                lemma_covered_push(prefix, spans@[i as int], t);
            }
        } else {
            assert forall|t: int| covered(out@, t) == (begin <= t < end && covered(spans@.take(i + 1), t)) by {
                lemma_covered_push(prefix, spans@[i as int], t);
            }
        }
        i += 1;
    }
    assert(spans@.take(i as int) =~= spans@);
    out
}

/// The intervals ordered by their start.
fn sort_by_start(spans: Vec<(u64, u64)>, begin: u64, end: u64) -> (r: Vec<(u64, u64)>)
    requires
        forall|i: int| 0 <= i < spans@.len() ==> begin <= (#[trigger] spans@[i]).0 <= spans@[i].1 <= end,
    ensures
        forall|i: int| 0 <= i < r@.len() ==> begin <= (#[trigger] r@[i]).0 <= r@[i].1 <= end,
        forall|i: int, j: int| 0 <= i < j < r@.len() ==> r@[i].0 <= r@[j].0,
        forall|t: int| covered(r@, t) == covered(spans@, t),
{
    let mut out: Vec<(u64, u64)> = Vec::new();
    let mut k: usize = 0;
    while k < spans.len()
        invariant
            k <= spans.len(),
            forall|i: int| 0 <= i < spans@.len() ==> begin <= (#[trigger] spans@[i]).0 <= spans@[i].1 <= end,
            forall|i: int| 0 <= i < out@.len() ==> begin <= (#[trigger] out@[i]).0 <= out@[i].1 <= end,
            forall|i: int, j: int| 0 <= i < j < out@.len() ==> out@[i].0 <= out@[j].0,
            forall|t: int| covered(out@, t) == covered(spans@.take(k as int), t),
        decreases spans.len() - k,
    {
        let x = spans[k];
        let mut p: usize = 0;
        while p < out.len() && out[p].0 <= x.0
            invariant
                p <= out.len(),
                forall|j: int| 0 <= j < p ==> out@[j].0 <= x.0,
            decreases out.len() - p,
        {
            p += 1;
        }
        let ghost before = out@;
        let ghost prefix = spans@.take(k as int);
        out.insert(p, x);
        assert(spans@.take(k + 1) =~= prefix.push(x));
        assert forall|t: int| covered(out@, t) == covered(spans@.take(k + 1), t) by {
            lemma_covered_insert(before, p as int, x, t);
            lemma_covered_push(prefix, x, t);
        }
        assert forall|i: int, j: int| 0 <= i < j < out@.len() implies out@[i].0 <= out@[j].0 by {
            if j < p {
            } else if j == p {
            } else if i < p {
                assert(out@[j] == before[j - 1]);
                if p < before.len() {
                    assert(before[p as int].0 > x.0);
                }
            } else if i == p {
                assert(out@[j] == before[j - 1]);
                assert(before[p as int].0 > x.0);
                if j - 1 > p {
                    assert(before[p as int].0 <= before[j - 1].0);
                }
            } else {
                assert(out@[j] == before[j - 1]);
                assert(out@[i] == before[i - 1]);
            }
        }
        k += 1;
    }
    assert(spans@.take(k as int) =~= spans@);
    out
}

/// The time in `[begin, end)` that the intervals cover, counting overlaps
/// once.
pub fn union(spans: &[(u64, u64)], begin: u64, end: u64) -> (r: u64)
    ensures
        r == spec_union(spans@, begin, end),
{
    if end < begin {
        return 0;
    }
    let clipped = clip(spans, begin, end);
    let sorted = sort_by_start(clipped, begin, end);
    let ghost s = sorted@;
    let mut total: u64 = 0;
    let mut last: u64 = begin;
    let mut k: usize = 0;
    assert(s.take(0) =~= Seq::<(u64, u64)>::empty());
    while k < sorted.len()
        invariant
            s == sorted@,
            k <= s.len(),
            begin <= last <= end,
            forall|i: int| 0 <= i < s.len() ==> begin <= (#[trigger] s[i]).0 <= s[i].1 <= end,
            forall|i: int, j: int| 0 <= i < j < s.len() ==> s[i].0 <= s[j].0,
            total == covered_count(s.take(k as int), begin as int, last as int),
            forall|t: int| t >= last ==> !covered(s.take(k as int), t),
            k > 0 ==> forall|t: int| s[k - 1].0 <= t < last ==> covered(s.take(k as int), t),
            k == 0 ==> last == begin,
        decreases s.len() - k,
    {
        let (a, b) = sorted[k];
        let ghost p = s.take(k as int);
        let ghost q = s.take(k + 1);
        assert(q =~= p.push((a, b)));
        let from = if a > last { a } else { last };
        let add: u64 = if b > from { b - from } else { 0 };
        let new_last = if b > last { b } else { last };
        proof {
            assert forall|t: int| covered(q, t) == (covered(p, t) || holds((a, b), t)) by {
                lemma_covered_push(p, (a, b), t);
            }
            // Below `last`, the new interval adds nothing: what it holds there
            // is already held by the interval that reached `last`.
            assert forall|t: int| begin <= t < last implies covered(q, t) == covered(p, t) by {
                if holds((a, b), t) && k > 0 {
                    assert(s[k - 1].0 <= a);
                }
            }
            lemma_count_same(q, p, begin as int, last as int);
            lemma_count_split(q, begin as int, last as int, new_last as int);
            if b > last {
                lemma_count_split(q, last as int, from as int, b as int);
                assert forall|t: int| last <= t < from implies covered(q, t) == false by {}
                lemma_count_full(q, last as int, from as int, false);
                assert forall|t: int| from <= t < b implies covered(q, t) == true by {
                    assert(holds((a, b), t));
                }
                lemma_count_full(q, from as int, b as int, true);
            } else {
                assert(new_last == last);
            }
            lemma_count_bounded(q, begin as int, new_last as int);
            assert forall|t: int| a <= t < new_last implies covered(q, t) by {
                if t < last {
                    if k > 0 {
                        assert(s[k - 1].0 <= a);
                    }
                } else {
                    assert(holds((a, b), t));
                }
            }
        }
        total = total + add;
        last = new_last;
        k += 1;
    }
    proof {
        assert(s.take(k as int) =~= s);
        lemma_count_split(s, begin as int, last as int, end as int);
        lemma_count_full(s, last as int, end as int, false);
        assert forall|t: int| begin <= t < end implies covered(s, t) == covered(spans@, t) by {}
        lemma_count_same(s, spans@, begin as int, end as int);
    }
    total
}

/// The merged time never exceeds the window: the unexplained remainder of
/// an attempt is never negative.
pub proof fn lemma_union_within_window(spans: Seq<(u64, u64)>, begin: u64, end: u64)
    requires
        begin <= end,
    ensures
        spec_union(spans, begin, end) <= end - begin,
{
    lemma_count_bounded(spans, begin as int, end as int);
}

/// Merging never counts less than any single interval that lies within the
/// window.
pub proof fn lemma_union_between(spans: Seq<(u64, u64)>, begin: u64, end: u64, i: int)
    requires
        0 <= i < spans.len(),
        begin <= spans[i].0 <= spans[i].1 <= end,
    ensures
        spec_union(spans, begin, end) >= spans[i].1 - spans[i].0,
{
    let x = spans[i];
    lemma_count_split(spans, begin as int, x.0 as int, end as int);
    lemma_count_split(spans, x.0 as int, x.1 as int, end as int);
    assert forall|t: int| x.0 <= t < x.1 implies covered(spans, t) == true by {
        assert(holds(spans[i], t));
    }
    lemma_count_full(spans, x.0 as int, x.1 as int, true);
}


/// What identifies one operation across its start and end rows: the texts of
/// the row's `pid`, `request_id`, `stream_id` and `call_id`.
pub type KeyView = (Seq<char>, Seq<char>, Seq<char>, Seq<char>);

/// The operation key of a row.
pub open spec fn row_key(row: Json) -> KeyView {
    (
        json_text(spec_field(row, "pid"@)),
        json_text(spec_field(row, "request_id"@)),
        json_text(spec_field(row, "stream_id"@)),
        json_text(spec_field(row, "call_id"@)),
    )
}

/// Pairing state: the start time of each operation still open, and the
/// intervals closed so far.
pub type SpanState = (Map<KeyView, u64>, Seq<(u64, u64)>);

/// One row of pairing: a start row opens (or reopens) its operation; an end
/// row closes an open one, keeping the interval when it does not run
/// backwards. Rows without an OS-monotonic time are ignored.
pub open spec fn span_step(st: SpanState, row: Json, phase: Seq<char>, start: Seq<char>, end: Seq<char>) -> SpanState {
    match spec_ns(row) {
        None => st,
        Some(t) => {
            let key = row_key(row);
            let open = if spec_event(row, phase, start) { st.0.insert(key, t) } else { st.0 };
            if spec_event(row, phase, end) && open.contains_key(key) {
                let b = open[key];
                (open.remove(key), if t >= b { st.1.push((b, t)) } else { st.1 })
            } else {
                (open, st.1)
            }
        },
    }
}

/// Pairing over rows in order.
pub open spec fn span_fold(rows: Seq<Json>, phase: Seq<char>, start: Seq<char>, end: Seq<char>) -> SpanState
    decreases rows.len(),
{
    if rows.len() == 0 {
        (Map::empty(), Seq::empty())
    } else {
        span_step(span_fold(rows.drop_last(), phase, start, end), rows.last(), phase, start, end)
    }
}

/// The intervals of `phase` from each `start` row to the matching `end` row.
pub open spec fn spec_span(rows: Seq<Json>, phase: Seq<char>, start: Seq<char>, end: Seq<char>) -> Seq<(u64, u64)> {
    span_fold(rows, phase, start, end).1
}

/// The views of some rows.
pub open spec fn row_views(rows: Seq<JsonValue>) -> Seq<Json> {
    rows.map_values(|r: JsonValue| r@)
}

type Key = (String, String, String, String);

/// The view of an operation key.
pub open spec fn key_view(k: Key) -> KeyView {
    (k.0@, k.1@, k.2@, k.3@)
}

/// Whether the list of open operations stands for the map `m`.
pub open spec fn represents(v: Seq<(Key, u64)>, m: Map<KeyView, u64>) -> bool {
    &&& forall|i: int, j: int| 0 <= i < j < v.len() ==> key_view(v[i].0) != key_view(v[j].0)
    &&& forall|i: int| 0 <= i < v.len() ==> #[trigger] m.contains_key(key_view(v[i].0)) && m[key_view(v[i].0)] == v[i].1
    &&& forall|k: KeyView| #[trigger] m.contains_key(k) ==> exists|i: int| 0 <= i < v.len() && key_view(v[i].0) == k
}

fn key_eq(a: &Key, b: &Key) -> (r: bool)
    ensures
        r == (key_view(*a) == key_view(*b)),
{
    str_eq(a.0.as_str(), b.0.as_str()) && str_eq(a.1.as_str(), b.1.as_str())
        && str_eq(a.2.as_str(), b.2.as_str()) && str_eq(a.3.as_str(), b.3.as_str())
}

fn find_key(v: &Vec<(Key, u64)>, key: &Key) -> (r: Option<usize>)
    ensures
        match r {
            Some(i) => i < v@.len() && key_view(v@[i as int].0) == key_view(*key),
            None => forall|i: int| 0 <= i < v@.len() ==> key_view(v@[i].0) != key_view(*key),
        },
{
    let mut i: usize = 0;
    while i < v.len()
        invariant
            i <= v.len(),
            forall|j: int| 0 <= j < i ==> key_view(v@[j].0) != key_view(*key),
        decreases v.len() - i,
    {
        if key_eq(&v[i].0, key) {
            return Some(i);
        }
        i += 1;
    }
    None
}

fn copy_key(k: &Key) -> (r: Key)
    ensures
        key_view(r) == key_view(*k),
{
    (
        crate::json::copy_string(&k.0),
        crate::json::copy_string(&k.1),
        crate::json::copy_string(&k.2),
        crate::json::copy_string(&k.3),
    )
}

/// Opens (or reopens) an operation.
fn open_key(v: &mut Vec<(Key, u64)>, key: Key, t: u64, Ghost(m): Ghost<Map<KeyView, u64>>)
    requires
        represents(old(v)@, m),
    ensures
        represents(final(v)@, m.insert(key_view(key), t)),
{
    let ghost kv = key_view(key);
    match find_key(v, &key) {
        Some(i) => {
            let ghost before = v@;
            v.set(i, (key, t));
            let ghost m2 = m.insert(kv, t);
            assert forall|k: KeyView| #[trigger] m2.contains_key(k) implies exists|j: int| 0 <= j < v@.len() && key_view(v@[j].0) == k by {
                if k == kv {
                    assert(key_view(v@[i as int].0) == k);
                } else {
                    let j = choose|j: int| 0 <= j < before.len() && key_view(before[j].0) == k;
                    assert(key_view(v@[j].0) == k);
                }
            }
            assert forall|a: int, b: int| 0 <= a < b < v@.len() implies key_view(v@[a].0) != key_view(v@[b].0) by {
                if a == i {
                    assert(key_view(before[a].0) == kv);
                } else if b == i {
                    assert(key_view(before[b].0) == kv);
                }
            }
            assert forall|j: int| 0 <= j < v@.len() implies #[trigger] m2.contains_key(key_view(v@[j].0)) && m2[key_view(v@[j].0)] == v@[j].1 by {
                if j != i {
                    assert(key_view(before[j].0) != kv) by {
                        assert(key_view(before[i as int].0) == kv);
                    }
                }
            }
        },
        None => {
            let ghost before = v@;
            v.push((key, t));
            let ghost m2 = m.insert(kv, t);
            assert forall|k: KeyView| #[trigger] m2.contains_key(k) implies exists|j: int| 0 <= j < v@.len() && key_view(v@[j].0) == k by {
                if k == kv {
                    assert(key_view(v@[before.len() as int].0) == k);
                } else {
                    let j = choose|j: int| 0 <= j < before.len() && key_view(before[j].0) == k;
                    assert(key_view(v@[j].0) == k);
                }
            }
            assert forall|j: int| 0 <= j < v@.len() implies #[trigger] m2.contains_key(key_view(v@[j].0)) && m2[key_view(v@[j].0)] == v@[j].1 by {
                if j < before.len() {
                    assert(v@[j] == before[j]);
                }
            }
        },
    }
}

/// Closes an operation, giving its start time if it was open.
#[verifier::spinoff_prover]
fn close_key(v: &mut Vec<(Key, u64)>, key: &Key, Ghost(m): Ghost<Map<KeyView, u64>>) -> (r: Option<u64>)
    requires
        represents(old(v)@, m),
    ensures
        match r {
            Some(t) => m.contains_key(key_view(*key)) && m[key_view(*key)] == t
                && represents(final(v)@, m.remove(key_view(*key))),
            None => !m.contains_key(key_view(*key)) && final(v)@ == old(v)@,
        },
{
    let ghost kv = key_view(*key);
    match find_key(v, key) {
        Some(i) => {
            let ghost before = v@;
            assert(m.contains_key(key_view(before[i as int].0)));
            let (_, t) = v.remove(i);
            let ghost m2 = m.remove(kv);
            assert forall|k: KeyView| #[trigger] m2.contains_key(k) implies exists|j: int| 0 <= j < v@.len() && key_view(v@[j].0) == k by {
                let j = choose|j: int| 0 <= j < before.len() && key_view(before[j].0) == k;
                assert(j != i);
                if j < i {
                    assert(key_view(v@[j].0) == k);
                } else {
                    assert(key_view(v@[j - 1].0) == k);
                }
            }
            assert forall|j: int| 0 <= j < v@.len() implies #[trigger] m2.contains_key(key_view(v@[j].0)) && m2[key_view(v@[j].0)] == v@[j].1 by {
                let j2 = if j < i { j } else { j + 1 };
                assert(v@[j] == before[j2]);
                assert(m.contains_key(key_view(before[j2].0)));
                if j2 < i {
                    assert(key_view(before[j2].0) != key_view(before[i as int].0));
                } else {
                    assert(key_view(before[i as int].0) != key_view(before[j2].0));
                }
            }
            assert forall|a: int, b: int| 0 <= a < b < v@.len() implies key_view(v@[a].0) != key_view(v@[b].0) by {
                let a2 = if a < i { a } else { a + 1 };
                let b2 = if b < i { b } else { b + 1 };
                assert(v@[a] == before[a2]);
                assert(v@[b] == before[b2]);
            }
            Some(t)
        },
        None => {
            proof {
                if m.contains_key(kv) {
                    let j = choose|j: int| 0 <= j < v@.len() && key_view(v@[j].0) == kv;
                    assert(key_view(v@[j].0) != kv);
                }
            }
            None
        },
    }
}

/// The key of a row.
fn key_of(row: &JsonValue) -> (k: Key)
    ensures
        key_view(k) == row_key(row@),
{
    (
        to_json_text(&row.field("pid")),
        to_json_text(&row.field("request_id")),
        to_json_text(&row.field("stream_id")),
        to_json_text(&row.field("call_id")),
    )
}

/// The intervals from each `start` row of `phase` to the next `end` row of
/// the same operation.
pub fn span(rows: &[JsonValue], phase: &str, start: &str, end: &str) -> (r: Vec<(u64, u64)>)
    ensures
        r@ == spec_span(row_views(rows@), phase@, start@, end@),
{
    let ghost views = row_views(rows@);
    let mut waiting: Vec<(Key, u64)> = Vec::new();
    let mut spans: Vec<(u64, u64)> = Vec::new();
    let ghost mut m: Map<KeyView, u64> = Map::empty();
    let mut i: usize = 0;
    assert(views.take(0) =~= Seq::<Json>::empty());
    while i < rows.len()
        invariant
            i <= rows.len(),
            views == row_views(rows@),
            represents(waiting@, m),
            span_fold(views.take(i as int), phase@, start@, end@) == (m, spans@),
        decreases rows.len() - i,
    {
        let row = &rows[i];
        assert(views.take(i + 1).drop_last() =~= views.take(i as int));
        assert(views.take(i + 1).last() == row@);
        match ns(row) {
            None => {},
            Some(t) => {
                let key = key_of(row);
                let ghost open = if spec_event(row@, phase@, start@) { m.insert(key_view(key), t) } else { m };
                if event(row, phase, start) {
                    let k2 = copy_key(&key);
                    open_key(&mut waiting, k2, t, Ghost(m));
                    proof {
                        m = m.insert(key_view(key), t);
                    }
                }
                assert(m == open);
                if event(row, phase, end) {
                    match close_key(&mut waiting, &key, Ghost(m)) {
                        Some(b) => {
                            proof {
                                m = m.remove(key_view(key));
                            }
                            if t >= b {
                                spans.push((b, t));
                            }
                        },
                        None => {},
                    }
                }
            },
        }
        i += 1;
    }
    assert(views.take(i as int) =~= views);
    spans
}

/// Each item of an array reduced to two of its members (`null` where
/// absent), under new names; `None` for anything but an array.
pub open spec fn spec_project(v: Json, k1: Seq<char>, f1: Seq<char>, k2: Seq<char>, f2: Seq<char>) -> Option<Seq<Json>> {
    match v {
        Json::Array(items) => Some(Seq::new(items.len(), |i: int| Json::Object(seq![(k1, spec_field(items[i], f1)), (k2, spec_field(items[i], f2))]))),
        _ => None,
    }
}

fn project(v: &JsonValue, k1: &str, f1: &str, k2: &str, f2: &str) -> (r: Option<Vec<JsonValue>>)
    ensures
        match r {
            Some(items) => spec_project(v@, k1@, f1@, k2@, f2@) == Some(crate::evidence::value_views(items@)),
            None => spec_project(v@, k1@, f1@, k2@, f2@) is None,
        },
{
    match v {
        JsonValue::Array(items) => {
            let ghost iv = match v@ { Json::Array(x) => x, _ => Seq::empty() };
            assert(iv.len() == items@.len());
            let mut out: Vec<JsonValue> = Vec::new();
            let mut i: usize = 0;
            while i < items.len()
                invariant
                    i <= items.len(),
                    iv.len() == items@.len(),
                    forall|j: int| 0 <= j < items@.len() ==> #[trigger] iv[j] == items@[j]@,
                    crate::evidence::value_views(out@) == Seq::new(i as nat, |j: int| Json::Object(seq![(k1@, spec_field(iv[j], f1@)), (k2@, spec_field(iv[j], f2@))])),
                decreases items.len() - i,
            {
                let item = &items[i];
                assert(iv[i as int] == item@);
                let a = item.field(f1);
                let b = item.field(f2);
                let mut m: Vec<(String, JsonValue)> = Vec::new();
                assert(crate::json_object::member_views(m@) =~= Seq::<(Seq<char>, Json)>::empty());
                crate::json_object::push_member(&mut m, k1, a);
                crate::json_object::push_member(&mut m, k2, b);
                let o = crate::json_object::object_of(m);
                let ghost before = crate::evidence::value_views(out@);
                assert(o@ == Json::Object(seq![(k1@, spec_field(iv[i as int], f1@)), (k2@, spec_field(iv[i as int], f2@))])) by {
                    if let Json::Object(x) = o@ {
                        assert(x =~= seq![(k1@, spec_field(iv[i as int], f1@)), (k2@, spec_field(iv[i as int], f2@))]);
                    }
                }
                out.push(o);
                assert(crate::evidence::value_views(out@) =~= before.push(o@));
                assert(crate::evidence::value_views(out@) =~= Seq::new((i + 1) as nat, |j: int| Json::Object(seq![(k1@, spec_field(iv[j], f1@)), (k2@, spec_field(iv[j], f2@))])));
                i += 1;
            }
            Some(out)
        },
        _ => None,
    }
}

/// Whether two projections are equal (`Option<Vec<Value>> ==`).
pub open spec fn projections_same(a: Option<Seq<Json>>, b: Option<Seq<Json>>) -> bool {
    match (a, b) {
        (Some(x), Some(y)) => x.len() == y.len() && crate::json_object::items_same(x, y, x.len()),
        (None, None) => true,
        _ => false,
    }
}

#[verifier::loop_isolation(false)]
fn same_projection(a: &Option<Vec<JsonValue>>, b: &Option<Vec<JsonValue>>) -> (r: bool)
    ensures
        r == projections_same(
            match a { Some(x) => Some(crate::evidence::value_views(x@)), None => None },
            match b { Some(y) => Some(crate::evidence::value_views(y@)), None => None }),
{
    match (a, b) {
        (Some(x), Some(y)) => {
            let ghost xv = crate::evidence::value_views(x@);
            let ghost yv = crate::evidence::value_views(y@);
            if x.len() != y.len() {
                assert(xv.len() != yv.len());
                return false;
            }
            let mut i: usize = 0;
            while i < x.len()
                invariant
                    i <= x.len(),
                    x.len() == y.len(),
                    xv.len() == x.len(),
                    yv.len() == y.len(),
                    crate::json_object::items_same(xv, yv, i as nat),
                decreases x.len() - i,
            {
                assert(xv[i as int] == x@[i as int]@);
                assert(yv[i as int] == y@[i as int]@);
                if !crate::json_object::json_eq(&x[i], &y[i]) {
                    proof {
                        crate::json_object::lemma_items_same_prefix(xv, yv, (i + 1) as nat, xv.len());
                    }
                    return false;
                }
                i += 1;
            }
            true
        },
        (None, None) => true,
        _ => false,
    }
}

/// `facts.<field>` of an arm.
pub open spec fn fact(arm: Json, name: Seq<char>) -> Json {
    spec_field(spec_field(arm, "facts"@), name)
}

/// The first layer at which two arms are seen to differ: Codex's displayed
/// command output and exit codes, then the sizes and digests of the observed
/// streams. The model's trajectories are not compared, since sessions and
/// workspaces are isolated on purpose. `null` where neither differs.
pub open spec fn spec_first_difference(shell: Json, mbtx: Json) -> Json {
    if !projections_same(spec_project(fact(shell, "commands"@), "output"@, "aggregated_output"@, "exit_code"@, "exit_code"@),
        spec_project(fact(mbtx, "commands"@), "output"@, "aggregated_output"@, "exit_code"@, "exit_code"@)) {
        Json::Object(seq![
            ("confidence"@, Json::Str("observed"@)),
            ("field"@, Json::Str("commands.aggregated_output/exit_code"@)),
            ("layer"@, Json::Str("codex_output"@)),
            ("meaning"@, Json::Str("Displayed output differs; per-stream oracle separately distinguishes byte loss from interleaving."@)),
        ])
    } else if !projections_same(spec_project(fact(shell, "streams"@), "bytes"@, "bytes"@, "sha256"@, "sha256"@),
        spec_project(fact(mbtx, "streams"@), "bytes"@, "bytes"@, "sha256"@, "sha256"@)) {
        Json::Object(seq![
            ("confidence"@, Json::Str("unknown"@)),
            ("field"@, Json::Str("streams"@)),
            ("layer"@, Json::Str("child_or_codex_io"@)),
        ])
    } else {
        Json::Null
    }
}

/// Finds the first layer at which two arms differ.
pub fn first_difference(shell: &JsonValue, mbtx: &JsonValue) -> (r: JsonValue)
    ensures
        r@ == spec_first_difference(shell@, mbtx@),
{
    let a = shell.field("facts").field("commands");
    let b = mbtx.field("facts").field("commands");
    let pa = project(&a, "output", "aggregated_output", "exit_code", "exit_code");
    let pb = project(&b, "output", "aggregated_output", "exit_code", "exit_code");
    if !same_projection(&pa, &pb) {
        let mut m: Vec<(String, JsonValue)> = Vec::new();
        assert(crate::json_object::member_views(m@) =~= Seq::<(Seq<char>, Json)>::empty());
        crate::json_object::push_member(&mut m, "confidence", crate::json_object::text_value("observed"));
        crate::json_object::push_member(&mut m, "field", crate::json_object::text_value("commands.aggregated_output/exit_code"));
        crate::json_object::push_member(&mut m, "layer", crate::json_object::text_value("codex_output"));
        crate::json_object::push_member(&mut m, "meaning", crate::json_object::text_value("Displayed output differs; per-stream oracle separately distinguishes byte loss from interleaving."));
        let r = crate::json_object::object_of(m);
        assert(r@ =~= spec_first_difference(shell@, mbtx@)) by {
            if let Json::Object(x) = r@ {
                if let Json::Object(y) = spec_first_difference(shell@, mbtx@) {
                    assert(x =~= y);
                }
            }
        }
        return r;
    }
    let c = shell.field("facts").field("streams");
    let d = mbtx.field("facts").field("streams");
    let pc = project(&c, "bytes", "bytes", "sha256", "sha256");
    let pd = project(&d, "bytes", "bytes", "sha256", "sha256");
    if !same_projection(&pc, &pd) {
        let mut m: Vec<(String, JsonValue)> = Vec::new();
        assert(crate::json_object::member_views(m@) =~= Seq::<(Seq<char>, Json)>::empty());
        crate::json_object::push_member(&mut m, "confidence", crate::json_object::text_value("unknown"));
        crate::json_object::push_member(&mut m, "field", crate::json_object::text_value("streams"));
        crate::json_object::push_member(&mut m, "layer", crate::json_object::text_value("child_or_codex_io"));
        let r = crate::json_object::object_of(m);
        assert(r@ =~= spec_first_difference(shell@, mbtx@)) by {
            if let Json::Object(x) = r@ {
                if let Json::Object(y) = spec_first_difference(shell@, mbtx@) {
                    assert(x =~= y);
                }
            }
        }
        return r;
    }
    JsonValue::Null
}

/// Every interval that pairing closes runs forwards.
pub proof fn lemma_span_ordered(rows: Seq<Json>, phase: Seq<char>, start: Seq<char>, end: Seq<char>)
    ensures
        forall|i: int| 0 <= i < spec_span(rows, phase, start, end).len() ==>
            (#[trigger] spec_span(rows, phase, start, end)[i]).0 <= spec_span(rows, phase, start, end)[i].1,
    decreases rows.len(),
{
    if rows.len() > 0 {
        lemma_span_ordered(rows.drop_last(), phase, start, end);
        let prev = span_fold(rows.drop_last(), phase, start, end);
        let cur = span_fold(rows, phase, start, end);
        let row = rows.last();
        assert(cur == span_step(prev, row, phase, start, end));
        assert forall|i: int| 0 <= i < cur.1.len() implies (#[trigger] cur.1[i]).0 <= cur.1[i].1 by {
            match spec_ns(row) {
                None => {
                    assert(cur.1 == prev.1);
                    assert(spec_span(rows.drop_last(), phase, start, end)[i].0 <= spec_span(rows.drop_last(), phase, start, end)[i].1);
                },
                Some(t) => {
                    let key = row_key(row);
                    let open = if spec_event(row, phase, start) { prev.0.insert(key, t) } else { prev.0 };
                    if spec_event(row, phase, end) && open.contains_key(key) {
                        let b = open[key];
                        if t >= b {
                            assert(cur.1 == prev.1.push((b, t)));
                            if i < prev.1.len() {
                                assert(cur.1[i] == prev.1[i]);
                                assert(spec_span(rows.drop_last(), phase, start, end)[i].0 <= spec_span(rows.drop_last(), phase, start, end)[i].1);
                            } else {
                                assert(cur.1[i] == (b, t));
                            }
                        } else {
                            assert(cur.1 == prev.1);
                            assert(spec_span(rows.drop_last(), phase, start, end)[i].0 <= spec_span(rows.drop_last(), phase, start, end)[i].1);
                        }
                    } else {
                        assert(cur.1 == prev.1);
                        assert(spec_span(rows.drop_last(), phase, start, end)[i].0 <= spec_span(rows.drop_last(), phase, start, end)[i].1);
                    }
                },
            }
        }
    }
}

// ---------------------------------------------------------------------------
// Checking a seal
// ---------------------------------------------------------------------------

/// A status object with a reason.
pub open spec fn status_with_reason(status: Seq<char>, reason: Seq<char>) -> Json {
    Json::Object(seq![("reason"@, Json::Str(reason)), ("status"@, Json::Str(status))])
}

/// Whether the bytes read for a seal entry are the ones it sealed.
pub open spec fn spec_entry_matches(entry: Json, bytes: Option<Seq<u8>>) -> bool {
    match bytes {
        Some(b) => spec_field(entry, "path"@) is Str && spec_field(entry, "sha256"@) == Json::Str(spec_hex(sha256(b))),
        None => false,
    }
}

/// The bytes read for the `i`-th seal entry, if any were.
pub open spec fn content_at(contents: Seq<Option<Seq<u8>>>, i: int) -> Option<Seq<u8>> {
    if 0 <= i < contents.len() { contents[i] } else { None }
}

/// Checks the seal entries in order: the first entry whose path is not a
/// string, or is not a plain relative path, stops the check with its
/// reason; otherwise the paths of the entries whose bytes differ from the
/// sealed digest (or could not be read) are collected.
pub open spec fn spec_seal_scan(files: Seq<Json>, contents: Seq<Option<Seq<u8>>>) -> Result<Seq<Seq<char>>, Seq<char>>
    decreases files.len(),
{
    if files.len() == 0 {
        Ok(Seq::empty())
    } else {
        match spec_seal_scan(files.drop_last(), contents) {
            Err(reason) => Err(reason),
            Ok(m) => {
                let f = files.last();
                match spec_as_str(spec_field(f, "path"@)) {
                    None => Err("invalid_seal_entry"@),
                    Some(name) => if !spec_normal_relative(name) {
                        Err("unsafe_path_in_seal"@)
                    } else if spec_entry_matches(f, content_at(contents, files.len() - 1)) {
                        Ok(m)
                    } else {
                        Ok(m.push(name))
                    },
                }
            },
        }
    }
}

/// Whether some seal entry is `result.json`.
pub open spec fn spec_result_sealed(files: Seq<Json>) -> bool {
    exists|i: int| 0 <= i < files.len() && spec_field(#[trigger] files[i], "path"@) == Json::Str("result.json"@)
}

/// What checking the entries of a seal gives: the final status where the
/// check stops early, or the paths whose bytes do not match.
pub open spec fn spec_seal_entries(seal: Option<Json>, contents: Seq<Option<Seq<u8>>>) -> Result<Seq<Seq<char>>, Json> {
    match seal {
        None => Err(status_with_reason("unknown"@, "unsealed_attempt"@)),
        Some(s) => match spec_field(s, "files"@) {
            Json::Array(files) => if files.len() == 0 {
                Err(status_with_reason("mismatch"@, "empty_or_invalid_seal"@))
            } else if !spec_result_sealed(files) {
                Err(status_with_reason("mismatch"@, "result_not_sealed"@))
            } else {
                match spec_seal_scan(files, contents) {
                    Err(reason) => Err(status_with_reason("mismatch"@, reason)),
                    Ok(m) => Ok(m),
                }
            },
            _ => Err(status_with_reason("mismatch"@, "empty_or_invalid_seal"@)),
        },
    }
}

/// Some paths as a JSON array of strings.
pub open spec fn names_json(names: Seq<Seq<char>>) -> Json {
    Json::Array(names.map_values(|n: Seq<char>| Json::Str(n)))
}

/// The status of a sealed attempt directory. `seal` is its parsed
/// `seal.json` (`None` where it could not be read or parsed), `contents[i]`
/// the bytes read for the path of the `i`-th seal entry, and `actual` the
/// directory's inventory now. The seal must list `result.json`, plain
/// relative paths only, and digests that match the bytes; and it must list
/// exactly the directory's inventory.
pub open spec fn spec_seal_status(seal: Option<Json>, contents: Seq<Option<Seq<u8>>>, actual: Seq<Json>) -> Json {
    match spec_seal_entries(seal, contents) {
        Err(v) => v,
        Ok(m) => if !crate::json_object::json_same(spec_field(seal->0, "files"@), Json::Array(actual)) {
            Json::Object(seq![
                ("mismatches"@, names_json(m)),
                ("reason"@, Json::Str("changed_or_unlisted_evidence"@)),
                ("status"@, Json::Str("mismatch"@)),
            ])
        } else {
            Json::Object(seq![
                ("mismatches"@, names_json(m)),
                ("status"@, Json::Str(if m.len() == 0 { "success"@ } else { "mismatch"@ })),
            ])
        },
    }
}

/// The views of the bytes read for seal entries.
pub open spec fn content_views(contents: Seq<Option<Vec<u8>>>) -> Seq<Option<Seq<u8>>> {
    contents.map_values(|c: Option<Vec<u8>>| match c { Some(b) => Some(b@), None => None })
}

/// The view of what checking seal entries gives.
pub open spec fn entries_view(r: Result<Vec<String>, JsonValue>) -> Result<Seq<Seq<char>>, Json> {
    match r {
        Ok(m) => Ok(m@.map_values(|n: String| n@)),
        Err(v) => Err(v@),
    }
}

fn status_reason(status: &str, reason: &str) -> (r: JsonValue)
    ensures
        r@ == status_with_reason(status@, reason@),
{
    let a = crate::json_object::text_value(reason);
    let b = crate::json_object::text_value(status);
    crate::json_object::object2("reason", a, "status", b)
}

/// Once checking a prefix of the entries stopped, checking all of them
/// stops with the same reason.
proof fn lemma_scan_stops(files: Seq<Json>, contents: Seq<Option<Seq<u8>>>, i: int)
    requires
        0 <= i <= files.len(),
        spec_seal_scan(files.take(i), contents) is Err,
    ensures
        spec_seal_scan(files, contents) == spec_seal_scan(files.take(i), contents),
    decreases files.len() - i,
{
    if i < files.len() {
        assert(files.take(i + 1).drop_last() =~= files.take(i));
        lemma_scan_stops(files, contents, i + 1);
    } else {
        assert(files.take(i) =~= files);
    }
}

/// Checks the entries of a seal (see [`spec_seal_entries`]); `contents[i]`
/// holds the bytes read for the path of the `i`-th entry.
pub fn seal_entries(seal: &Option<JsonValue>, contents: &Vec<Option<Vec<u8>>>) -> (r: Result<Vec<String>, JsonValue>)
    ensures
        entries_view(r) == spec_seal_entries(crate::json::opt_view(*seal), content_views(contents@)),
{
    proof {
        reveal_strlit("unknown");
        reveal_strlit("mismatch");
    }
    let s = match seal {
        None => { return Err(status_reason("unknown", "unsealed_attempt")); },
        Some(s) => s,
    };
    let files = match s.get("files") {
        Some(JsonValue::Array(files)) => files,
        _ => { return Err(status_reason("mismatch", "empty_or_invalid_seal")); },
    };
    let ghost fv = crate::evidence::value_views(files@);
    let ghost cv = content_views(contents@);
    assert(spec_field(s@, "files"@) == Json::Array(fv)) by {
        if let Json::Array(z) = spec_field(s@, "files"@) {
            assert(z =~= fv);
        }
    }
    if files.len() == 0 {
        return Err(status_reason("mismatch", "empty_or_invalid_seal"));
    }
    let mut found = false;
    let mut i: usize = 0;
    while i < files.len()
        invariant
            i <= files.len(),
            fv == crate::evidence::value_views(files@),
            found <==> exists|j: int| 0 <= j < i && spec_field(#[trigger] fv[j], "path"@) == Json::Str("result.json"@),
        decreases files.len() - i,
    {
        assert(fv[i as int] == files@[i as int]@);
        if files[i].field("path").is_text("result.json") {
            found = true;
        }
        i += 1;
    }
    if !found {
        return Err(status_reason("mismatch", "result_not_sealed"));
    }
    let mut names: Vec<String> = Vec::new();
    let mut k: usize = 0;
    assert(fv.take(0) =~= Seq::<Json>::empty());
    assert(names@.map_values(|n: String| n@) =~= Seq::<Seq<char>>::empty());
    while k < files.len()
        invariant
            k <= files.len(),
            fv == crate::evidence::value_views(files@),
            cv == content_views(contents@),
            crate::json::opt_view(*seal) == Some(s@),
            spec_result_sealed(fv),
            fv.len() > 0,
            spec_field(s@, "files"@) == Json::Array(fv),
            spec_seal_scan(fv.take(k as int), cv) == Ok::<Seq<Seq<char>>, Seq<char>>(names@.map_values(|n: String| n@)),
        decreases files.len() - k,
    {
        let ghost before = names@.map_values(|n: String| n@);
        assert(fv.take(k + 1).drop_last() =~= fv.take(k as int));
        assert(fv.take(k + 1).last() == files@[k as int]@);
        let name = match files[k].field_str("path") {
            None => {
                proof { lemma_scan_stops(fv, cv, k + 1); }
                return Err(status_reason("mismatch", "invalid_seal_entry"));
            },
            Some(name) => name,
        };
        if !crate::reassess::normal_relative_path(name) {
            proof { lemma_scan_stops(fv, cv, k + 1); }
            return Err(status_reason("mismatch", "unsafe_path_in_seal"));
        }
        let same = match if k < contents.len() { &contents[k] } else { &None } {
            Some(bytes) => {
                let sum = crate::evidence::digest(bytes.as_slice());
                files[k].field("sha256").is_text(sum.as_str())
            },
            None => false,
        };
        assert(content_at(cv, k as int) == (if k < contents.len() { match contents@[k as int] { Some(b) => Some(b@), None => None } } else { None }));
        if !same {
            names.push(crate::text::owned(name));
            assert(names@.map_values(|n: String| n@) =~= before.push(name@));
        }
        k += 1;
    }
    assert(fv.take(k as int) =~= fv);
    Ok(names)
}

fn names_value(names: &Vec<String>) -> (r: JsonValue)
    ensures
        r@ == names_json(names@.map_values(|n: String| n@)),
{
    let mut items: Vec<JsonValue> = Vec::new();
    let mut i: usize = 0;
    while i < names.len()
        invariant
            i <= names.len(),
            crate::evidence::value_views(items@) == names@.take(i as int).map_values(|n: String| n@).map_values(|n: Seq<char>| Json::Str(n)),
        decreases names.len() - i,
    {
        let ghost before = crate::evidence::value_views(items@);
        items.push(crate::json_object::text_value(names[i].as_str()));
        assert(crate::evidence::value_views(items@) =~= before.push(Json::Str(names@[i as int]@)));
        assert(names@.take(i + 1).map_values(|n: String| n@).map_values(|n: Seq<char>| Json::Str(n))
            =~= names@.take(i as int).map_values(|n: String| n@).map_values(|n: Seq<char>| Json::Str(n)).push(Json::Str(names@[i as int]@)));
        i += 1;
    }
    assert(names@.take(i as int) =~= names@);
    crate::evidence::array_of(items)
}

/// The status of a sealed attempt directory (see [`spec_seal_status`]).
pub fn seal_status(seal: &Option<JsonValue>, contents: &Vec<Option<Vec<u8>>>, actual: &Vec<JsonValue>) -> (r: JsonValue)
    ensures
        r@ == spec_seal_status(crate::json::opt_view(*seal), content_views(contents@), crate::evidence::value_views(actual@)),
{
    let names = match seal_entries(seal, contents) {
        Err(v) => { return v; },
        Ok(names) => names,
    };
    let files = match seal {
        Some(s) => s.field("files"),
        None => JsonValue::Null,
    };
    let listed = array_values_eq(&files, actual);
    let mismatches = names_value(&names);
    proof {
        reveal_strlit("mismatch");
        reveal_strlit("success");
    }
    let mut m: Vec<(String, JsonValue)> = Vec::new();
    crate::json_object::push_member(&mut m, "mismatches", mismatches);
    if !listed {
        crate::json_object::push_member(&mut m, "reason", crate::json_object::text_value("changed_or_unlisted_evidence"));
        crate::json_object::push_member(&mut m, "status", crate::json_object::text_value("mismatch"));
    } else if names.len() == 0 {
        crate::json_object::push_member(&mut m, "status", crate::json_object::text_value("success"));
    } else {
        crate::json_object::push_member(&mut m, "status", crate::json_object::text_value("mismatch"));
    }
    let r = crate::json_object::object_of(m);
    assert(crate::json_object::member_views(m@) =~= match spec_seal_status(crate::json::opt_view(*seal), content_views(contents@), crate::evidence::value_views(actual@)) {
        Json::Object(ms) => ms,
        _ => Seq::empty(),
    });
    r
}

/// Whether a value equals the array of the given values
/// (`Value == json!(items)`).
fn array_values_eq(v: &JsonValue, items: &Vec<JsonValue>) -> (r: bool)
    ensures
        r == crate::json_object::json_same(v@, Json::Array(crate::evidence::value_views(items@))),
{
    let ghost iv = crate::evidence::value_views(items@);
    let mut copies: Vec<JsonValue> = Vec::new();
    let mut i: usize = 0;
    while i < items.len()
        invariant
            i <= items.len(),
            iv == crate::evidence::value_views(items@),
            crate::evidence::value_views(copies@) == iv.take(i as int),
        decreases items.len() - i,
    {
        assert(iv[i as int] == items@[i as int]@);
        let ghost before = crate::evidence::value_views(copies@);
        copies.push(items[i].copy());
        assert(crate::evidence::value_views(copies@) =~= before.push(iv[i as int]));
        assert(iv.take(i + 1) =~= iv.take(i as int).push(iv[i as int]));
        i += 1;
    }
    assert(iv.take(i as int) =~= iv);
    let list = crate::evidence::array_of(copies);
    crate::json_object::json_eq(v, &list)
}

/// The files of a directory that its seal lists, in order.
pub open spec fn listed_files(files: Seq<(Seq<char>, Seq<u8>)>) -> Seq<(Seq<char>, Seq<u8>)>
    decreases files.len(),
{
    if files.len() == 0 {
        Seq::empty()
    } else {
        let rest = listed_files(files.drop_last());
        if crate::evidence::spec_file_listed(files.last().0) { rest.push(files.last()) } else { rest }
    }
}

/// The bytes of each listed file, as reading them back gives them.
pub open spec fn read_back(listed: Seq<(Seq<char>, Seq<u8>)>) -> Seq<Option<Seq<u8>>> {
    listed.map_values(|f: (Seq<char>, Seq<u8>)| Some(f.1))
}

proof fn lemma_inventory_is_listed(files: Seq<(Seq<char>, Seq<u8>)>)
    ensures
        crate::evidence::spec_inventory(files)
            == listed_files(files).map_values(|f: (Seq<char>, Seq<u8>)| crate::evidence::spec_inventory_row(f.0, f.1)),
    decreases files.len(),
{
    if files.len() > 0 {
        lemma_inventory_is_listed(files.drop_last());
        let rest = listed_files(files.drop_last());
        assert(rest.push(files.last()).map_values(|f: (Seq<char>, Seq<u8>)| crate::evidence::spec_inventory_row(f.0, f.1))
            =~= rest.map_values(|f: (Seq<char>, Seq<u8>)| crate::evidence::spec_inventory_row(f.0, f.1))
                .push(crate::evidence::spec_inventory_row(files.last().0, files.last().1)));
    }
}

proof fn lemma_listed_within(files: Seq<(Seq<char>, Seq<u8>)>, k: int)
    requires
        0 <= k < listed_files(files).len(),
    ensures
        exists|i: int| 0 <= i < files.len() && #[trigger] files[i] == listed_files(files)[k],
    decreases files.len(),
{
    let rest = listed_files(files.drop_last());
    if k < rest.len() {
        lemma_listed_within(files.drop_last(), k);
        let i = choose|i: int| 0 <= i < files.drop_last().len() && #[trigger] files.drop_last()[i] == rest[k];
        assert(files[i] == files.drop_last()[i]);
    } else {
        assert(files[files.len() - 1] == listed_files(files)[k]);
    }
}

proof fn lemma_fresh_entries(listed: Seq<(Seq<char>, Seq<u8>)>, k: int)
    requires
        0 <= k <= listed.len(),
        forall|i: int| 0 <= i < listed.len() ==> spec_normal_relative(#[trigger] listed[i].0),
    ensures
        spec_seal_scan(
            listed.map_values(|f: (Seq<char>, Seq<u8>)| crate::evidence::spec_inventory_row(f.0, f.1)).take(k),
            read_back(listed),
        ) == Ok::<Seq<Seq<char>>, Seq<char>>(Seq::empty()),
    decreases k,
{
    let rows = listed.map_values(|f: (Seq<char>, Seq<u8>)| crate::evidence::spec_inventory_row(f.0, f.1));
    if k > 0 {
        lemma_fresh_entries(listed, k - 1);
        assert(rows.take(k).drop_last() =~= rows.take(k - 1));
        let f = listed[k - 1];
        assert(rows.take(k).last() == crate::evidence::spec_inventory_row(f.0, f.1));
        reveal_strlit("path");
        reveal_strlit("sha256");
        assert(spec_normal_relative(listed[k - 1].0));
        assert(content_at(read_back(listed), k - 1) == Some(f.1));
        let row = crate::evidence::spec_inventory_row(f.0, f.1);
        assert("path"@.len() == 4 && "sha256"@.len() == 6);
        assert("path"@ != "sha256"@);
        assert(spec_field(row, "path"@) == Json::Str(f.0));
        let ms = seq![("path"@, Json::Str(f.0)), ("sha256"@, Json::Str(spec_hex(sha256(f.1))))];
        assert(ms.drop_first() =~= seq![("sha256"@, Json::Str(spec_hex(sha256(f.1))))]);
        assert(crate::json::spec_lookup(ms.drop_first(), "sha256"@) == Some(Json::Str(spec_hex(sha256(f.1)))));
        assert(spec_field(row, "sha256"@) == Json::Str(spec_hex(sha256(f.1))));
        assert(spec_entry_matches(row, Some(f.1)));
    } else {
        assert(rows.take(0) =~= Seq::<Json>::empty());
    }
}

/// A directory checked against the seal written for it, with every file
/// read back as it was sealed, verifies: where the files have plain
/// relative paths and `result.json` is among those listed, the status is
/// `success` with no mismatches.
pub proof fn lemma_fresh_seal_verifies(files: Seq<(Seq<char>, Seq<u8>)>)
    requires
        forall|i: int| 0 <= i < files.len() ==> spec_normal_relative(#[trigger] files[i].0),
        spec_result_sealed(crate::evidence::spec_inventory(files)),
    ensures
        spec_seal_status(
            Some(crate::evidence::spec_seal_document(files)),
            read_back(listed_files(files)),
            crate::evidence::spec_inventory(files),
        ) == Json::Object(seq![
            ("mismatches"@, Json::Array(Seq::empty())),
            ("status"@, Json::Str("success"@)),
        ]),
{
    let listed = listed_files(files);
    let rows = crate::evidence::spec_inventory(files);
    lemma_inventory_is_listed(files);
    assert forall|i: int| 0 <= i < listed.len() implies spec_normal_relative(#[trigger] listed[i].0) by {
        lemma_listed_within(files, i);
    }
    lemma_fresh_entries(listed, listed.len() as int);
    assert(rows.take(listed.len() as int) =~= rows);
    reveal_strlit("files");
    reveal_strlit("schema_version");
    assert(spec_field(crate::evidence::spec_seal_document(files), "files"@) == Json::Array(rows));
    crate::json_object::lemma_json_same_refl(Json::Array(rows));
    assert(names_json(Seq::<Seq<char>>::empty()) == Json::Array(Seq::<Json>::empty())) by {
        assert(Seq::<Seq<char>>::empty().map_values(|n: Seq<char>| Json::Str(n)) =~= Seq::<Json>::empty());
    }
}

} // verus!
