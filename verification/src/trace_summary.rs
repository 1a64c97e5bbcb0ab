//! The summary of a run's process traces: the helper commands' starts and
//! exits, how often the transparent launcher started and exited, and every
//! traced event in the order of its timestamp (reading order on ties).
use vstd::prelude::*;
use vstd::relations::{sorted_by, total_ordering};
use crate::json::{Json, JsonValue, spec_as_str, spec_field, str_eq};
use crate::m5_runner::{TraceSummary, spec_trace_timestamp, trace_timestamp};
use crate::order::key_lt;
use crate::text::owned;

verus! {

/// A record's `event`, empty where it has none.
pub open spec fn trace_event(record: Json) -> Seq<char> {
    match spec_as_str(spec_field(record, "event"@)) {
        Some(e) => e,
        None => Seq::empty(),
    }
}

/// The label of a record: its event where the trace it came from records
/// that event, `trace_unknown` otherwise.
pub open spec fn trace_label(command: bool, event: Seq<char>) -> Seq<char> {
    if command && (event == "command_start"@ || event == "command_exit"@) {
        event
    } else if !command && (event == "launcher_start"@ || event == "launcher_exit"@) {
        event
    } else {
        "trace_unknown"@
    }
}

/// Every record as (timestamp, reading position, label): the command trace
/// first, then the launcher's.
pub open spec fn trace_entries(commands: Seq<Json>, launcher: Seq<Json>) -> Seq<(u64, nat, Seq<char>)> {
    Seq::new(commands.len() + launcher.len(), |i: int|
        if i < commands.len() {
            (spec_trace_timestamp(commands[i]), i as nat, trace_label(true, trace_event(commands[i])))
        } else {
            (spec_trace_timestamp(launcher[i - commands.len()]), i as nat, trace_label(false, trace_event(launcher[i - commands.len()])))
        })
}

/// Entries ordered by timestamp, then reading position, then label.
pub open spec fn entry_leq(a: (u64, nat, Seq<char>), b: (u64, nat, Seq<char>)) -> bool {
    a.0 < b.0 || (a.0 == b.0 && (a.1 < b.1 || (a.1 == b.1 && (a.2 == b.2 || key_lt(a.2, b.2)))))
}

/// The order of entries as a relation.
pub open spec fn entry_order() -> spec_fn((u64, nat, Seq<char>), (u64, nat, Seq<char>)) -> bool {
    |a: (u64, nat, Seq<char>), b: (u64, nat, Seq<char>)| entry_leq(a, b)
}

/// The records of one trace whose event is `event`, in order.
pub open spec fn with_event(records: Seq<Json>, event: Seq<char>, n: int) -> Seq<Json>
    decreases n,
{
    if n <= 0 {
        Seq::empty()
    } else if trace_event(records[n - 1]) == event {
        with_event(records, event, n - 1).push(records[n - 1])
    } else {
        with_event(records, event, n - 1)
    }
}

/// The entries of the traces in order.
pub open spec fn ordered_entries(commands: Seq<Json>, launcher: Seq<Json>) -> Seq<(u64, nat, Seq<char>)> {
    trace_entries(commands, launcher).sort_by(entry_order())
}

/// The labels of the traces in order.
pub open spec fn trace_labels(commands: Seq<Json>, launcher: Seq<Json>) -> Seq<Seq<char>> {
    ordered_entries(commands, launcher).map_values(|e: (u64, nat, Seq<char>)| e.2)
}

/// The order of entries is a total order.
pub proof fn lemma_entry_order()
    ensures
        total_ordering(entry_order()),
{
    let r = entry_order();
    assert forall|x: (u64, nat, Seq<char>)| #[trigger] r(x, x) by {}
    assert forall|x: (u64, nat, Seq<char>), y: (u64, nat, Seq<char>)| #[trigger] r(x, y) && #[trigger] r(y, x) implies x == y by {
        crate::order::lemma_key_order(x.2, y.2, x.2);
    }
    assert forall|x: (u64, nat, Seq<char>), y: (u64, nat, Seq<char>), z: (u64, nat, Seq<char>)| #[trigger] r(x, y) && #[trigger] r(y, z) implies r(x, z) by {
        crate::order::lemma_key_order(x.2, y.2, z.2);
    }
    assert forall|x: (u64, nat, Seq<char>), y: (u64, nat, Seq<char>)| #[trigger] r(x, y) || #[trigger] r(y, x) by {
        crate::order::lemma_key_order(x.2, y.2, x.2);
    }
}


/// The views of entries.
pub open spec fn entry_views(v: Seq<(u64, usize, String)>) -> Seq<(u64, nat, Seq<char>)> {
    Seq::new(v.len(), |i: int| (v[i].0, v[i].1 as nat, v[i].2@))
}

fn entry_before_or_same(a: &(u64, usize, String), b: &(u64, usize, String)) -> (r: bool)
    ensures
        r == entry_leq((a.0, a.1 as nat, a.2@), (b.0, b.1 as nat, b.2@)),
{
    a.0 < b.0 || (a.0 == b.0 && (a.1 < b.1 || (a.1 == b.1 && (str_eq(a.2.as_str(), b.2.as_str()) || crate::order::key_before(a.2.as_str(), b.2.as_str())))))
}

/// Inserts an entry into a sorted list of entries, after the entries that
/// do not come after it.
fn insert_sorted(v: &mut Vec<(u64, usize, String)>, e: (u64, usize, String))
    requires
        sorted_by(entry_views(old(v)@), entry_order()),
    ensures
        sorted_by(entry_views(final(v)@), entry_order()),
        entry_views(final(v)@).to_multiset() == entry_views(old(v)@).to_multiset().insert((e.0, e.1 as nat, e.2@)),
{
    let ghost ev = (e.0, e.1 as nat, e.2@);
    let ghost old_views = entry_views(v@);
    proof {
        lemma_entry_order();
    }
    let mut p: usize = 0;
    while p < v.len() && entry_before_or_same(&v[p], &e)
        invariant
            p <= v@.len(),
            old_views == entry_views(v@),
            ev == (e.0, e.1 as nat, e.2@),
            forall|j: int| 0 <= j < p ==> entry_leq(#[trigger] old_views[j], ev),
        decreases v.len() - p,
    {
        assert(old_views[p as int] == (v@[p as int].0, v@[p as int].1 as nat, v@[p as int].2@));
        p += 1;
    }
    let ghost after_p = p < v@.len();
    v.insert(p, e);
    let ghost nv = entry_views(v@);
    assert(nv =~= old_views.insert(p as int, ev));
    proof {
        vstd::seq_lib::to_multiset_insert(old_views, p as int, ev);
        let r = entry_order();
        assert(total_ordering(r));
        if after_p {
            assert(!entry_leq(old_views[p as int], ev));
            assert(r(old_views[p as int], ev) || r(ev, old_views[p as int]));
            assert(entry_leq(ev, old_views[p as int]));
        }
        assert forall|i: int, j: int| 0 <= i < j < nv.len() implies #[trigger] r(nv[i], nv[j]) by {
            if j < p {
                assert(r(old_views[i], old_views[j]));
            } else if j == p {
                assert(entry_leq(old_views[i], ev));
            } else if i < p {
                assert(r(old_views[i], ev));
                assert(r(ev, old_views[p as int]));
                assert(r(old_views[i], old_views[p as int]));
                if j - 1 > p {
                    assert(r(old_views[p as int], old_views[j - 1]));
                }
                assert(r(old_views[i], old_views[j - 1]));
            } else if i == p {
                assert(r(ev, old_views[p as int]));
                if j - 1 > p {
                    assert(r(old_views[p as int], old_views[j - 1]));
                }
                assert(r(ev, old_views[j - 1]));
            } else {
                assert(r(old_views[i - 1], old_views[j - 1]));
            }
        }
    }
}

/// Summarizes the records read from the command trace and from the
/// launcher trace.
pub fn summarize_traces(commands: &Vec<JsonValue>, launcher: &Vec<JsonValue>) -> (r: TraceSummary)
    requires
        commands@.len() + launcher@.len() <= usize::MAX,
    ensures
        crate::evidence::value_views(r.command_starts@) == with_event(crate::evidence::value_views(commands@), "command_start"@, commands@.len() as int),
        crate::evidence::value_views(r.command_exits@) == with_event(crate::evidence::value_views(commands@), "command_exit"@, commands@.len() as int),
        r.launcher_starts == with_event(crate::evidence::value_views(launcher@), "launcher_start"@, launcher@.len() as int).len(),
        r.launcher_exits == with_event(crate::evidence::value_views(launcher@), "launcher_exit"@, launcher@.len() as int).len(),
        crate::collection::arg_views(r.labels@) == trace_labels(crate::evidence::value_views(commands@), crate::evidence::value_views(launcher@)),
{
    let ghost cv = crate::evidence::value_views(commands@);
    let ghost lv = crate::evidence::value_views(launcher@);
    let ghost entries = trace_entries(cv, lv);
    let mut starts: Vec<JsonValue> = Vec::new();
    let mut exits: Vec<JsonValue> = Vec::new();
    let mut ordered: Vec<(u64, usize, String)> = Vec::new();
    proof {
        reveal_strlit("command_start");
        reveal_strlit("command_exit");
        reveal_strlit("launcher_start");
        reveal_strlit("launcher_exit");
        assert(entry_views(ordered@).to_multiset() =~= entries.take(0).to_multiset()) by {
            assert(entries.take(0) =~= Seq::<(u64, nat, Seq<char>)>::empty());
            assert(entry_views(ordered@) =~= Seq::<(u64, nat, Seq<char>)>::empty());
        }
    }
    let mut i: usize = 0;
    while i < commands.len()
        invariant
            i <= commands@.len(),
            commands@.len() + launcher@.len() <= usize::MAX,
            cv == crate::evidence::value_views(commands@),
            lv == crate::evidence::value_views(launcher@),
            entries == trace_entries(cv, lv),
            crate::evidence::value_views(starts@) == with_event(cv, "command_start"@, i as int),
            crate::evidence::value_views(exits@) == with_event(cv, "command_exit"@, i as int),
            sorted_by(entry_views(ordered@), entry_order()),
            entry_views(ordered@).to_multiset() == entries.take(i as int).to_multiset(),
        decreases commands.len() - i,
    {
        let record = &commands[i];
        assert(cv[i as int] == record@);
        proof {
            reveal_strlit("command_start");
            reveal_strlit("command_exit");
            assert("command_start"@.len() != "command_exit"@.len());
        }
        let event = match record.field_str("event") { Some(e) => e, None => "" };
        proof {
            reveal_strlit("");
        }
        assert(event@ == trace_event(cv[i as int]));
        let label = if str_eq(event, "command_start") {
            let ghost before = crate::evidence::value_views(starts@);
            starts.push(record.copy());
            assert(crate::evidence::value_views(starts@) =~= before.push(cv[i as int]));
            assert(event@ != "command_exit"@);
            "command_start"
        } else if str_eq(event, "command_exit") {
            let ghost before = crate::evidence::value_views(exits@);
            exits.push(record.copy());
            assert(crate::evidence::value_views(exits@) =~= before.push(cv[i as int]));
            "command_exit"
        } else {
            "trace_unknown"
        };
        assert(label@ == trace_label(true, event@));
        let ts = trace_timestamp(record);
        let ghost e = (ts, i as nat, label@);
        assert(entries[i as int] == e);
        insert_sorted(&mut ordered, (ts, i, owned(label)));
        assert(entries.take(i + 1) =~= entries.take(i as int).push(e));
        proof {
            vstd::seq_lib::to_multiset_build(entries.take(i as int), e);
        }
        i += 1;
    }
    let mut launcher_starts: usize = 0;
    let mut launcher_exits: usize = 0;
    let mut k: usize = 0;
    while k < launcher.len()
        invariant
            k <= launcher@.len(),
            i == commands@.len(),
            commands@.len() + launcher@.len() <= usize::MAX,
            cv == crate::evidence::value_views(commands@),
            lv == crate::evidence::value_views(launcher@),
            entries == trace_entries(cv, lv),
            launcher_starts == with_event(lv, "launcher_start"@, k as int).len(),
            launcher_exits == with_event(lv, "launcher_exit"@, k as int).len(),
            launcher_starts <= k,
            launcher_exits <= k,
            sorted_by(entry_views(ordered@), entry_order()),
            entry_views(ordered@).to_multiset() == entries.take(i + k).to_multiset(),
        decreases launcher.len() - k,
    {
        let record = &launcher[k];
        assert(lv[k as int] == record@);
        proof {
            reveal_strlit("launcher_start");
            reveal_strlit("launcher_exit");
            assert("launcher_start"@.len() != "launcher_exit"@.len());
        }
        let event = match record.field_str("event") { Some(e) => e, None => "" };
        proof {
            reveal_strlit("");
        }
        assert(event@ == trace_event(lv[k as int]));
        let label = if str_eq(event, "launcher_start") {
            launcher_starts += 1;
            assert(event@ != "launcher_exit"@);
            "launcher_start"
        } else if str_eq(event, "launcher_exit") {
            launcher_exits += 1;
            "launcher_exit"
        } else {
            "trace_unknown"
        };
        assert(label@ == trace_label(false, event@));
        let ts = trace_timestamp(record);
        let ghost e = (ts, (i + k) as nat, label@);
        assert(entries[i + k] == e);
        insert_sorted(&mut ordered, (ts, i + k, owned(label)));
        assert(entries.take(i + k + 1) =~= entries.take(i + k).push(e));
        proof {
            vstd::seq_lib::to_multiset_build(entries.take(i + k), e);
        }
        k += 1;
    }
    proof {
        assert(entries.take(i + k) =~= entries);
        lemma_entry_order();
        entries.lemma_sort_by_ensures(entry_order());
        vstd::seq_lib::lemma_sorted_unique(entry_views(ordered@), entries.sort_by(entry_order()), entry_order());
    }
    let mut labels: Vec<String> = Vec::new();
    let mut j: usize = 0;
    proof {
        lemma_entry_order();
    }
    while j < ordered.len()
        invariant
            j <= ordered@.len(),
            entry_views(ordered@) == entries.sort_by(entry_order()),
            labels@.len() == j,
            forall|m: int| 0 <= m < j ==> (#[trigger] labels@[m])@ == ordered@[m].2@,
        decreases ordered.len() - j,
    {
        labels.push(owned(ordered[j].2.as_str()));
        j += 1;
    }
    proof {
        assert(crate::collection::arg_views(labels@) =~= trace_labels(cv, lv)) by {
            assert(trace_labels(cv, lv) == entry_views(ordered@).map_values(|e: (u64, nat, Seq<char>)| e.2));
        }
    }
    TraceSummary { command_starts: starts, command_exits: exits, launcher_starts, launcher_exits, labels }
}


/// The traced events come out in timestamp order, reading order on ties,
/// and each record of either trace gives exactly one of them.
pub proof fn lemma_trace_order(commands: Seq<Json>, launcher: Seq<Json>)
    ensures
        ordered_entries(commands, launcher).to_multiset() == trace_entries(commands, launcher).to_multiset(),
        forall|i: int, j: int| 0 <= i < j < ordered_entries(commands, launcher).len() ==>
            #[trigger] ordered_entries(commands, launcher)[i].0 < #[trigger] ordered_entries(commands, launcher)[j].0
            || (ordered_entries(commands, launcher)[i].0 == ordered_entries(commands, launcher)[j].0
                && ordered_entries(commands, launcher)[i].1 <= ordered_entries(commands, launcher)[j].1),
{
    let e = trace_entries(commands, launcher);
    lemma_entry_order();
    e.lemma_sort_by_ensures(entry_order());
    let s = e.sort_by(entry_order());
    assert forall|i: int, j: int| 0 <= i < j < s.len() implies s[i].0 < s[j].0 || (s[i].0 == s[j].0 && s[i].1 <= s[j].1) by {
        assert(entry_order()(s[i], s[j]));
    }
}

} // verus!
