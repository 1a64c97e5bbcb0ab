//! The order of text keys (`String`'s `Ord`) and tables kept sorted by it.
//!
//! Rust orders strings by their UTF-8 bytes, which orders them as sequences
//! of code points: the first differing character decides, and a proper
//! prefix comes first.
use vstd::prelude::*;
use crate::text::chars_of;

verus! {

/// Whether `a` comes before `b`, looking from position `i` on.
pub open spec fn before_from(a: Seq<char>, b: Seq<char>, i: int) -> bool
    decreases a.len() - i,
{
    if i >= a.len() {
        i < b.len()
    } else if i >= b.len() {
        false
    } else if a[i] != b[i] {
        (a[i] as int) < (b[i] as int)
    } else {
        before_from(a, b, i + 1)
    }
}

/// Whether the text `a` sorts before the text `b`.
pub open spec fn key_lt(a: Seq<char>, b: Seq<char>) -> bool {
    before_from(a, b, 0)
}

proof fn lemma_before_irreflexive(a: Seq<char>, i: int)
    requires
        0 <= i,
    ensures
        !before_from(a, a, i),
    decreases a.len() - i,
{
    if i < a.len() {
        lemma_before_irreflexive(a, i + 1);
    }
}

proof fn lemma_before_transitive(a: Seq<char>, b: Seq<char>, c: Seq<char>, i: int)
    requires
        0 <= i,
        before_from(a, b, i),
        before_from(b, c, i),
    ensures
        before_from(a, c, i),
    decreases a.len() - i,
{
    if i < a.len() && i < b.len() && i < c.len() && a[i] == b[i] && b[i] == c[i] {
        lemma_before_transitive(a, b, c, i + 1);
    }
}

proof fn lemma_before_total(a: Seq<char>, b: Seq<char>, i: int)
    requires
        0 <= i <= a.len(),
        i <= b.len(),
        !before_from(a, b, i),
        !before_from(b, a, i),
    ensures
        a.len() == b.len(),
        forall|j: int| i <= j < a.len() ==> a[j] == b[j],
    decreases a.len() - i,
{
    if i < a.len() && i < b.len() {
        if a[i] == b[i] {
            lemma_before_total(a, b, i + 1);
        } else {
            assert((a[i] as int) != (b[i] as int));
        }
    }
}

/// `key_lt` is a strict total order: no key sorts before itself, the order
/// is transitive, and of two different keys one sorts before the other.
pub proof fn lemma_key_order(a: Seq<char>, b: Seq<char>, c: Seq<char>)
    ensures
        !key_lt(a, a),
        key_lt(a, b) && key_lt(b, c) ==> key_lt(a, c),
        a != b ==> key_lt(a, b) || key_lt(b, a),
        key_lt(a, b) ==> !key_lt(b, a),
{
    lemma_before_irreflexive(a, 0);
    if key_lt(a, b) && key_lt(b, c) {
        lemma_before_transitive(a, b, c, 0);
    }
    if !key_lt(a, b) && !key_lt(b, a) {
        lemma_before_total(a, b, 0);
        assert(a =~= b);
    }
    if key_lt(a, b) && key_lt(b, a) {
        lemma_before_transitive(a, b, a, 0);
    }
}

/// Whether `a` sorts before `b`.
pub fn key_before(a: &str, b: &str) -> (r: bool)
    ensures
        r == key_lt(a@, b@),
{
    let x = chars_of(a);
    let y = chars_of(b);
    let mut i: usize = 0;
    while i < x.len() && i < y.len() && x[i] == y[i]
        invariant
            i <= x.len(),
            i <= y.len(),
            x@ == a@,
            y@ == b@,
            key_lt(a@, b@) == before_from(a@, b@, i as int),
        decreases x.len() - i,
    {
        i += 1;
    }
    if i >= x.len() {
        i < y.len()
    } else if i >= y.len() {
        false
    } else {
        x[i] < y[i]
    }
}

/// The keys of a table, in order.
pub open spec fn keys_of<V>(entries: Seq<(String, V)>) -> Seq<Seq<char>> {
    Seq::new(entries.len(), |i: int| entries[i].0@)
}

/// Whether keys strictly increase.
pub open spec fn strictly_sorted(keys: Seq<Seq<char>>) -> bool {
    forall|i: int, j: int| 0 <= i < j < keys.len() ==> key_lt(#[trigger] keys[i], #[trigger] keys[j])
}

/// Whether a table sorted by key holds exactly the entries of the map `m`.
pub open spec fn sorted_table<V>(entries: Seq<(Seq<char>, V)>, m: Map<Seq<char>, V>) -> bool {
    &&& forall|i: int, j: int| 0 <= i < j < entries.len() ==> key_lt(#[trigger] entries[i].0, #[trigger] entries[j].0)
    &&& forall|i: int| #![trigger entries[i]] 0 <= i < entries.len() ==> m.contains_key(entries[i].0) && m[entries[i].0] == entries[i].1
    &&& forall|k: Seq<char>| #[trigger] m.contains_key(k) ==> exists|i: int| 0 <= i < entries.len() && entries[i].0 == k
}

/// A map has one table sorted by key: two tables that hold the same map
/// are the same.
#[verifier::spinoff_prover]
pub proof fn lemma_sorted_table_unique<V>(a: Seq<(Seq<char>, V)>, b: Seq<(Seq<char>, V)>, m: Map<Seq<char>, V>)
    requires
        sorted_table(a, m),
        sorted_table(b, m),
    ensures
        a == b,
    decreases a.len(),
{
    if a.len() == 0 {
        if b.len() > 0 {
            assert(m.contains_key(b[0].0));
        }
        assert(a =~= b);
    } else {
        assert(m.contains_key(a[0].0));
        let j = choose|j: int| 0 <= j < b.len() && b[j].0 == a[0].0;
        assert(m.contains_key(b[0].0));
        let i = choose|i: int| 0 <= i < a.len() && a[i].0 == b[0].0;
        lemma_key_order(a[0].0, b[0].0, a[0].0);
        if j > 0 {
            assert(key_lt(b[0].0, b[j].0));
        }
        if i > 0 {
            assert(key_lt(a[0].0, a[i].0));
        }
        assert(a[0].0 == b[0].0);
        let k = a[0].0;
        let m2 = m.remove(k);
        let a2 = a.drop_first();
        let b2 = b.drop_first();
        assert forall|x: int| 0 <= x < a2.len() implies #[trigger] m2.contains_key(a2[x].0) && m2[a2[x].0] == a2[x].1 by {
            assert(a2[x] == a[x + 1]);
            assert(key_lt(a[0].0, a[x + 1].0));
            lemma_key_order(k, k, k);
        }
        assert forall|x: int| 0 <= x < b2.len() implies #[trigger] m2.contains_key(b2[x].0) && m2[b2[x].0] == b2[x].1 by {
            assert(b2[x] == b[x + 1]);
            assert(key_lt(b[0].0, b[x + 1].0));
            lemma_key_order(k, k, k);
        }
        assert forall|q: Seq<char>| #[trigger] m2.contains_key(q) implies exists|x: int| 0 <= x < a2.len() && a2[x].0 == q by {
            assert(m.contains_key(q));
            let x = choose|x: int| 0 <= x < a.len() && a[x].0 == q;
            assert(x != 0);
            assert(a2[x - 1].0 == q);
        }
        assert forall|q: Seq<char>| #[trigger] m2.contains_key(q) implies exists|x: int| 0 <= x < b2.len() && b2[x].0 == q by {
            assert(m.contains_key(q));
            let x = choose|x: int| 0 <= x < b.len() && b[x].0 == q;
            assert(x != 0);
            assert(b2[x - 1].0 == q);
        }
        assert forall|x: int, y: int| 0 <= x < y < a2.len() implies key_lt(#[trigger] a2[x].0, #[trigger] a2[y].0) by {
            assert(a2[x] == a[x + 1] && a2[y] == a[y + 1]);
        }
        assert forall|x: int, y: int| 0 <= x < y < b2.len() implies key_lt(#[trigger] b2[x].0, #[trigger] b2[y].0) by {
            assert(b2[x] == b[x + 1] && b2[y] == b[y + 1]);
        }
        lemma_sorted_table_unique(a2, b2, m2);
        assert(a[0].1 == m[k] && b[0].1 == m[k]);
        assert(a =~= seq![a[0]] + a2);
        assert(b =~= seq![b[0]] + b2);
    }
}

/// An entry of a sorted table is an entry of its map.
pub proof fn lemma_table_entry<V>(t: Seq<(Seq<char>, V)>, m: Map<Seq<char>, V>, i: int)
    requires
        sorted_table(t, m),
        0 <= i < t.len(),
    ensures
        m.contains_key(t[i].0),
        m[t[i].0] == t[i].1,
{
}

/// Replacing the value of an entry keeps a sorted table sorted, and the table
/// then holds the map with that key's value replaced.
#[verifier::spinoff_prover]
pub proof fn lemma_table_update<V>(t: Seq<(Seq<char>, V)>, m: Map<Seq<char>, V>, pos: int, v: V)
    requires
        sorted_table(t, m),
        0 <= pos < t.len(),
    ensures
        sorted_table(t.update(pos, (t[pos].0, v)), m.insert(t[pos].0, v)),
{
    let k = t[pos].0;
    let u = t.update(pos, (k, v));
    let m2 = m.insert(k, v);
    assert forall|i: int, j: int| 0 <= i < j < u.len() implies key_lt(#[trigger] u[i].0, #[trigger] u[j].0) by {
        assert(u[i].0 == t[i].0 && u[j].0 == t[j].0);
    }
    assert forall|i: int| 0 <= i < u.len() implies #[trigger] m2.contains_key(u[i].0) && m2[u[i].0] == u[i].1 by {
        if i != pos {
            assert(u[i] == t[i]);
            lemma_table_entry(t, m, i);
            if i < pos {
                assert(key_lt(t[i].0, t[pos].0));
            } else {
                assert(key_lt(t[pos].0, t[i].0));
            }
            lemma_key_order(t[i].0, k, t[i].0);
            assert(t[i].0 != k);
            assert(m2[u[i].0] == m[t[i].0]);
        } else {
            assert(u[i] == (k, v));
        }
    }
    assert forall|q: Seq<char>| #[trigger] m2.contains_key(q) implies exists|i: int| 0 <= i < u.len() && u[i].0 == q by {
        if q == k {
            assert(u[pos].0 == q);
        } else {
            assert(m.contains_key(q));
            let i = choose|i: int| 0 <= i < t.len() && t[i].0 == q;
            assert(u[i].0 == q);
        }
    }
}

/// Inserting a new key at its place keeps a sorted table sorted, and the
/// table then holds the map with the new key.
#[verifier::spinoff_prover]
pub proof fn lemma_table_insert<V>(t: Seq<(Seq<char>, V)>, m: Map<Seq<char>, V>, pos: int, k: Seq<char>, v: V)
    requires
        sorted_table(t, m),
        0 <= pos <= t.len(),
        forall|i: int| 0 <= i < pos ==> key_lt(#[trigger] t[i].0, k),
        forall|i: int| pos <= i < t.len() ==> key_lt(k, #[trigger] t[i].0),
    ensures
        sorted_table(t.insert(pos, (k, v)), m.insert(k, v)),
{
    let u = t.insert(pos, (k, v));
    let m2 = m.insert(k, v);
    assert forall|i: int, j: int| 0 <= i < j < u.len() implies key_lt(#[trigger] u[i].0, #[trigger] u[j].0) by {
        if j < pos {
            assert(u[i] == t[i] && u[j] == t[j]);
        } else if j == pos {
            assert(u[i] == t[i]);
        } else if i < pos {
            assert(u[i] == t[i] && u[j] == t[j - 1]);
            lemma_key_order(t[i].0, k, t[j - 1].0);
        } else if i == pos {
            assert(u[j] == t[j - 1]);
        } else {
            assert(u[i] == t[i - 1] && u[j] == t[j - 1]);
        }
    }
    assert forall|i: int| 0 <= i < u.len() implies #[trigger] m2.contains_key(u[i].0) && m2[u[i].0] == u[i].1 by {
        if i != pos {
            let o = if i < pos { i } else { i - 1 };
            assert(u[i] == t[o]);
            lemma_table_entry(t, m, o);
            if o < pos {
                assert(key_lt(t[o].0, k));
            } else {
                assert(key_lt(k, t[o].0));
            }
            lemma_key_order(t[o].0, k, t[o].0);
            assert(t[o].0 != k);
            assert(m2[u[i].0] == m[t[o].0]);
        } else {
            assert(u[i] == (k, v));
        }
    }
    assert forall|q: Seq<char>| #[trigger] m2.contains_key(q) implies exists|i: int| 0 <= i < u.len() && u[i].0 == q by {
        if q == k {
            assert(u[pos].0 == q);
        } else {
            assert(m.contains_key(q));
            let i = choose|i: int| 0 <= i < t.len() && t[i].0 == q;
            if i < pos {
                assert(u[i].0 == q);
            } else {
                assert(u[i + 1].0 == q);
            }
        }
    }
}

/// The empty table holds the empty map.
pub proof fn lemma_table_empty<V>()
    ensures
        sorted_table(Seq::<(Seq<char>, V)>::empty(), Map::<Seq<char>, V>::empty()),
{
}

/// The one table sorted by key that holds `m`, where there is one.
pub open spec fn sorted_entries<V>(m: Map<Seq<char>, V>) -> Seq<(Seq<char>, V)> {
    choose|t: Seq<(Seq<char>, V)>| sorted_table(t, m)
}

/// A table that holds `m` sorted by key is `sorted_entries(m)`.
pub proof fn lemma_sorted_entries<V>(t: Seq<(Seq<char>, V)>, m: Map<Seq<char>, V>)
    requires
        sorted_table(t, m),
    ensures
        sorted_entries(m) == t,
{
    let c = sorted_entries(m);
    assert(sorted_table(c, m));
    lemma_sorted_table_unique(c, t, m);
}

/// Where `key` stands in a table whose keys strictly increase: its index and
/// `true` if it is there, else the index at which it would be inserted and
/// `false`.
pub fn locate<V>(entries: &Vec<(String, V)>, key: &str) -> (r: (usize, bool))
    requires
        strictly_sorted(keys_of(entries@)),
    ensures
        r.0 <= entries@.len(),
        r.1 ==> r.0 < entries@.len() && entries@[r.0 as int].0@ == key@,
        !r.1 ==> forall|i: int| 0 <= i < r.0 ==> key_lt(#[trigger] entries@[i].0@, key@),
        !r.1 ==> forall|i: int| r.0 <= i < entries@.len() ==> key_lt(key@, #[trigger] entries@[i].0@),
{
    let mut i: usize = 0;
    while i < entries.len()
        invariant
            i <= entries@.len(),
            strictly_sorted(keys_of(entries@)),
            forall|j: int| 0 <= j < i ==> key_lt(#[trigger] entries@[j].0@, key@),
        decreases entries.len() - i,
    {
        let k = entries[i].0.as_str();
        if crate::json::str_eq(k, key) {
            return (i, true);
        }
        if !key_before(k, key) {
            proof {
                lemma_key_order(k@, key@, k@);
                assert forall|j: int| i <= j < entries@.len() implies key_lt(key@, #[trigger] entries@[j].0@) by {
                    if j > i {
                        assert(keys_of(entries@)[i as int] == entries@[i as int].0@);
                        assert(keys_of(entries@)[j] == entries@[j].0@);
                        lemma_key_order(key@, k@, entries@[j].0@);
                    }
                }
            }
            return (i, false);
        }
        i += 1;
    }
    (i, false)
}

} // verus!
