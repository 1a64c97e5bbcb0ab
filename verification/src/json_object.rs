//! Editing the members of a JSON object as `serde_json::Map` does.
use vstd::prelude::*;
use crate::json::{Json, JsonNumber, JsonValue, Num, str_eq};

verus! {

/// The position of the first member under `key`.
pub open spec fn key_index(members: Seq<(Seq<char>, Json)>, key: Seq<char>) -> Option<nat>
    decreases members.len(),
{
    if members.len() == 0 {
        None
    } else if members[0].0 == key {
        Some(0)
    } else {
        match key_index(members.drop_first(), key) {
            Some(i) => Some(i + 1),
            None => None,
        }
    }
}

/// `map.insert(key, value)` on an object's members: the member under `key`
/// takes the new value in place, or a new member is added at the end.
pub open spec fn spec_set(members: Seq<(Seq<char>, Json)>, key: Seq<char>, value: Json) -> Seq<(Seq<char>, Json)> {
    match key_index(members, key) {
        Some(i) => members.update(i as int, (key, value)),
        None => members.push((key, value)),
    }
}

/// The views of an object's members.
pub open spec fn member_views(members: Seq<(String, JsonValue)>) -> Seq<(Seq<char>, Json)> {
    Seq::new(members.len(), |i: int| (members[i].0@, members[i].1@))
}

proof fn lemma_key_index(members: Seq<(Seq<char>, Json)>, key: Seq<char>, i: int)
    requires
        0 <= i <= members.len(),
        forall|j: int| 0 <= j < i ==> members[j].0 != key,
        i < members.len() ==> members[i].0 == key,
    ensures
        i < members.len() ==> key_index(members, key) == Some(i as nat),
        i == members.len() ==> key_index(members, key) is None,
    decreases i,
{
    if i > 0 {
        assert forall|j: int| 0 <= j < i - 1 implies members.drop_first()[j].0 != key by {
            assert(members.drop_first()[j] == members[j + 1]);
        }
        if i < members.len() {
            assert(members.drop_first()[i - 1] == members[i]);
        }
        lemma_key_index(members.drop_first(), key, i - 1);
    }
}

/// The position of the first member under `key`.
fn find_member(members: &Vec<(String, JsonValue)>, key: &str) -> (r: Option<usize>)
    ensures
        match r {
            Some(i) => key_index(member_views(members@), key@) == Some(i as nat) && i < members@.len(),
            None => key_index(member_views(members@), key@) is None,
        },
{
    let ghost views = member_views(members@);
    let mut i: usize = 0;
    while i < members.len()
        invariant
            i <= members.len(),
            views == member_views(members@),
            forall|j: int| 0 <= j < i ==> views[j].0 != key@,
        decreases members.len() - i,
    {
        if str_eq(members[i].0.as_str(), key) {
            proof {
                assert(views[i as int].0 == members@[i as int].0@);
                lemma_key_index(views, key@, i as int);
            }
            return Some(i);
        }
        i += 1;
    }
    proof {
        lemma_key_index(views, key@, i as int);
    }
    None
}

/// Sets the member under `key` (`Map::insert`).
pub fn set_member(members: &mut Vec<(String, JsonValue)>, key: &str, value: JsonValue)
    ensures
        member_views(final(members)@) == spec_set(member_views(old(members)@), key@, value@),
{
    let ghost before = member_views(members@);
    let ghost vv = value@;
    let k = crate::text::owned(key);
    match find_member(members, key) {
        Some(i) => {
            members.set(i, (k, value));
            assert(member_views(members@) =~= before.update(i as int, (key@, vv)));
        },
        None => {
            members.push((k, value));
            assert(member_views(members@) =~= before.push((key@, vv)));
        },
    }
}

/// An object's view is the views of its members.
pub proof fn lemma_object_view(members: Vec<(String, JsonValue)>)
    ensures
        JsonValue::Object(members)@ == Json::Object(member_views(members@)),
{
    let v = JsonValue::Object(members)@;
    if let Json::Object(m) = v {
        assert(m =~= member_views(members@));
    }
}


/// An object of the given members, in order.
pub fn object_of(members: Vec<(String, JsonValue)>) -> (r: JsonValue)
    ensures
        r@ == Json::Object(member_views(members@)),
{
    proof {
        lemma_object_view(members);
    }
    JsonValue::Object(members)
}

/// An object with one member.
pub fn object1(k1: &str, v1: JsonValue) -> (r: JsonValue)
    ensures
        r@ == Json::Object(seq![(k1@, v1@)]),
{
    let mut m: Vec<(String, JsonValue)> = Vec::new();
    let ghost a = v1@;
    m.push((crate::text::owned(k1), v1));
    assert(member_views(m@) =~= seq![(k1@, a)]);
    object_of(m)
}

/// An object with two members.
pub fn object2(k1: &str, v1: JsonValue, k2: &str, v2: JsonValue) -> (r: JsonValue)
    ensures
        r@ == Json::Object(seq![(k1@, v1@), (k2@, v2@)]),
{
    let mut m: Vec<(String, JsonValue)> = Vec::new();
    let ghost a = v1@;
    let ghost b = v2@;
    m.push((crate::text::owned(k1), v1));
    m.push((crate::text::owned(k2), v2));
    assert(member_views(m@) =~= seq![(k1@, a), (k2@, b)]);
    object_of(m)
}

/// `map.extend(other)`: each member of `other` set in turn.
pub open spec fn spec_extend(members: Seq<(Seq<char>, Json)>, other: Seq<(Seq<char>, Json)>) -> Seq<(Seq<char>, Json)>
    decreases other.len(),
{
    if other.len() == 0 {
        members
    } else {
        spec_extend(spec_set(members, other[0].0, other[0].1), other.drop_first())
    }
}

/// Sets each member of `other` in turn (`Map::extend`).
pub fn extend_members(members: &mut Vec<(String, JsonValue)>, other: &Vec<(String, JsonValue)>)
    ensures
        member_views(final(members)@) == spec_extend(member_views(old(members)@), member_views(other@)),
{
    let ghost o = member_views(other@);
    let ghost goal = spec_extend(member_views(members@), o);
    let mut i: usize = 0;
    assert(o.skip(0) =~= o);
    while i < other.len()
        invariant
            i <= other.len(),
            o == member_views(other@),
            goal == spec_extend(member_views(members@), o.skip(i as int)),
        decreases other.len() - i,
    {
        let v = other[i].1.copy();
        assert(o.skip(i as int)[0] == o[i as int]);
        assert(o.skip(i as int).drop_first() =~= o.skip(i + 1));
        set_member(members, other[i].0.as_str(), v);
        i += 1;
    }
    assert(o.skip(i as int) =~= Seq::<(Seq<char>, Json)>::empty());
}


/// Appends a member (the key must not be present for the result to be an
/// object as `serde_json` builds one).
pub fn push_member(m: &mut Vec<(String, JsonValue)>, key: &str, value: JsonValue)
    ensures
        member_views(final(m)@) == member_views(old(m)@).push((key@, value@)),
{
    let ghost before = member_views(m@);
    let ghost v = value@;
    m.push((crate::text::owned(key), value));
    assert(member_views(m@) =~= before.push((key@, v)));
}

/// A string value.
pub fn text_value(s: &str) -> (r: JsonValue)
    ensures
        r@ == Json::Str(s@),
{
    JsonValue::Str(crate::text::owned(s))
}


/// Whether every member of `expected` is present in `actual` with a value
/// that contains it, arrays matching element by element, other values equal
/// (as [`json_same`] compares them).
pub open spec fn spec_subset(expected: Json, actual: Json) -> bool
    decreases expected, 0nat,
{
    match expected {
        Json::Object(em) => match actual {
            Json::Object(am) => members_subset(em, am, em.len()),
            _ => false,
        },
        Json::Array(ea) => match actual {
            Json::Array(aa) => ea.len() == aa.len() && items_subset(ea, aa, ea.len()),
            _ => false,
        },
        _ => json_same(expected, actual),
    }
}

/// The first `n` expected members are each contained in `actual`.
pub open spec fn members_subset(em: Seq<(Seq<char>, Json)>, am: Seq<(Seq<char>, Json)>, n: nat) -> bool
    decreases em, n,
{
    if n == 0 || n > em.len() {
        true
    } else {
        proof {
            assert(decreases_to!(em => em[n - 1]));
        }
        members_subset(em, am, (n - 1) as nat) && match crate::json::spec_lookup(am, em[n - 1].0) {
            Some(v) => spec_subset(em[n - 1].1, v),
            None => false,
        }
    }
}

/// The first `n` expected items are each contained in the actual item at
/// the same position.
pub open spec fn items_subset(ea: Seq<Json>, aa: Seq<Json>, n: nat) -> bool
    decreases ea, n,
{
    if n == 0 || n > ea.len() || n > aa.len() {
        n == 0
    } else {
        items_subset(ea, aa, (n - 1) as nat) && spec_subset(ea[n - 1], aa[n - 1])
    }
}

/// Whether a float's text is that of zero; `serde_json` prints positive
/// zero as `0.0` and negative zero as `-0.0`.
pub open spec fn zero_text(t: Seq<char>) -> bool {
    t == "0.0"@ || t == "-0.0"@
}

/// `Number == Number` in `serde_json`: integers by their value, floats as
/// `f64` compares them. Floats are held in the shortest text that prints
/// their value, so two floats are equal where their texts are, or where
/// both are zero (`0.0 == -0.0`).
pub open spec fn num_same(a: Num, b: Num) -> bool {
    match (a, b) {
        (Num::Float(x), Num::Float(y)) => x == y || (zero_text(x) && zero_text(y)),
        _ => a == b,
    }
}

/// `Value == Value` in `serde_json`: the same kind of value, numbers
/// compared as [`num_same`] does, arrays item by item, objects member by
/// member in order.
pub open spec fn json_same(a: Json, b: Json) -> bool
    decreases a, 0nat,
{
    match a {
        Json::Number(x) => match b {
            Json::Number(y) => num_same(x, y),
            _ => false,
        },
        Json::Array(xs) => match b {
            Json::Array(ys) => xs.len() == ys.len() && items_same(xs, ys, xs.len()),
            _ => false,
        },
        Json::Object(xm) => match b {
            Json::Object(ym) => xm.len() == ym.len() && members_same(xm, ym, xm.len()),
            _ => false,
        },
        _ => a == b,
    }
}

/// The first `n` items of two arrays are the same.
pub open spec fn items_same(xs: Seq<Json>, ys: Seq<Json>, n: nat) -> bool
    decreases xs, n,
{
    if n == 0 || n > xs.len() || n > ys.len() {
        n == 0
    } else {
        items_same(xs, ys, (n - 1) as nat) && json_same(xs[n - 1], ys[n - 1])
    }
}

/// The first `n` members of two objects have the same keys and values.
pub open spec fn members_same(xm: Seq<(Seq<char>, Json)>, ym: Seq<(Seq<char>, Json)>, n: nat) -> bool
    decreases xm, n,
{
    if n == 0 || n > xm.len() || n > ym.len() {
        n == 0
    } else {
        proof {
            assert(decreases_to!(xm => xm[n - 1]));
        }
        members_same(xm, ym, (n - 1) as nat) && xm[n - 1].0 == ym[n - 1].0 && json_same(xm[n - 1].1, ym[n - 1].1)
    }
}

/// Every value is the same as itself.
pub proof fn lemma_json_same_refl(a: Json)
    ensures
        json_same(a, a),
    decreases a, 0nat,
{
    match a {
        Json::Array(xs) => lemma_items_same_refl(xs, xs.len()),
        Json::Object(xm) => lemma_members_same_refl(xm, xm.len()),
        _ => {},
    }
}

proof fn lemma_items_same_refl(xs: Seq<Json>, n: nat)
    requires
        n <= xs.len(),
    ensures
        items_same(xs, xs, n),
    decreases xs, n,
{
    if n > 0 {
        lemma_items_same_refl(xs, (n - 1) as nat);
        assert(decreases_to!(xs => xs[n - 1]));
        lemma_json_same_refl(xs[n - 1]);
    }
}

proof fn lemma_members_same_refl(xm: Seq<(Seq<char>, Json)>, n: nat)
    requires
        n <= xm.len(),
    ensures
        members_same(xm, xm, n),
    decreases xm, n,
{
    if n > 0 {
        lemma_members_same_refl(xm, (n - 1) as nat);
        assert(decreases_to!(xm => xm[n - 1]));
        lemma_json_same_refl(xm[n - 1].1);
    }
}

/// Whether two numbers are equal.
fn num_eq(a: &JsonNumber, b: &JsonNumber) -> (r: bool)
    ensures
        r == num_same(a@, b@),
{
    match (a, b) {
        (JsonNumber::PosInt(x), JsonNumber::PosInt(y)) => *x == *y,
        (JsonNumber::NegInt(x), JsonNumber::NegInt(y)) => *x == *y,
        (JsonNumber::Float(x), JsonNumber::Float(y)) => {
            proof {
                reveal_strlit("0.0");
                reveal_strlit("-0.0");
            }
            str_eq(x.as_str(), y.as_str())
                || ((str_eq(x.as_str(), "0.0") || str_eq(x.as_str(), "-0.0"))
                    && (str_eq(y.as_str(), "0.0") || str_eq(y.as_str(), "-0.0")))
        },
        _ => false,
    }
}

/// A failing prefix of items makes every longer prefix fail.
pub proof fn lemma_items_same_prefix(xs: Seq<Json>, ys: Seq<Json>, k: nat, n: nat)
    requires
        k <= n <= xs.len(),
        xs.len() == ys.len(),
        !items_same(xs, ys, k),
        k > 0,
    ensures
        !items_same(xs, ys, n),
    decreases n - k,
{
    if n > k {
        lemma_items_same_prefix(xs, ys, k, (n - 1) as nat);
    }
}

/// A failing prefix of members makes every longer prefix fail.
proof fn lemma_members_same_prefix(xm: Seq<(Seq<char>, Json)>, ym: Seq<(Seq<char>, Json)>, k: nat, n: nat)
    requires
        k <= n <= xm.len(),
        xm.len() == ym.len(),
        !members_same(xm, ym, k),
        k > 0,
    ensures
        !members_same(xm, ym, n),
    decreases n - k,
{
    if n > k {
        lemma_members_same_prefix(xm, ym, k, (n - 1) as nat);
    }
}

/// Whether two values are equal (`Value == Value`, see [`json_same`]).
#[verifier::loop_isolation(false)]
pub fn json_eq(a: &JsonValue, b: &JsonValue) -> (r: bool)
    ensures
        r == json_same(a@, b@),
    decreases *a,
{
    match (a, b) {
        (JsonValue::Null, JsonValue::Null) => true,
        (JsonValue::Bool(x), JsonValue::Bool(y)) => *x == *y,
        (JsonValue::Number(x), JsonValue::Number(y)) => num_eq(x, y),
        (JsonValue::Str(x), JsonValue::Str(y)) => str_eq(x.as_str(), y.as_str()),
        (JsonValue::Array(x), JsonValue::Array(y)) => {
            let ghost xv = match a@ { Json::Array(v) => v, _ => Seq::empty() };
            let ghost yv = match b@ { Json::Array(v) => v, _ => Seq::empty() };
            if x.len() != y.len() {
                assert(xv.len() != yv.len());
                return false;
            }
            let mut i: usize = 0;
            while i < x.len()
                invariant
                    i <= x.len(),
                    xv.len() == x.len(),
                    yv.len() == y.len(),
                    x.len() == y.len(),
                    items_same(xv, yv, i as nat),
                decreases x.len() - i,
            {
                assert(decreases_to!(*a => *x));
                assert(decreases_to!(*x => x@));
                assert(decreases_to!(x@ => x@[i as int]));
                assert(xv[i as int] == x@[i as int]@);
                assert(yv[i as int] == y@[i as int]@);
                if !json_eq(&x[i], &y[i]) {
                    assert(!items_same(xv, yv, (i + 1) as nat));
                    proof {
                        lemma_items_same_prefix(xv, yv, (i + 1) as nat, xv.len());
                    }
                    return false;
                }
                i += 1;
            }
            true
        },
        (JsonValue::Object(x), JsonValue::Object(y)) => {
            let ghost xv = match a@ { Json::Object(v) => v, _ => Seq::empty() };
            let ghost yv = match b@ { Json::Object(v) => v, _ => Seq::empty() };
            if x.len() != y.len() {
                assert(xv.len() != yv.len());
                return false;
            }
            let mut i: usize = 0;
            while i < x.len()
                invariant
                    i <= x.len(),
                    xv.len() == x.len(),
                    yv.len() == y.len(),
                    x.len() == y.len(),
                    members_same(xv, yv, i as nat),
                decreases x.len() - i,
            {
                assert(decreases_to!(*a => *x));
                assert(decreases_to!(*x => x@));
                assert(decreases_to!(x@ => x@[i as int]));
                assert(decreases_to!(x@[i as int] => x@[i as int].1));
                assert(xv[i as int] == (x@[i as int].0@, x@[i as int].1@));
                assert(yv[i as int] == (y@[i as int].0@, y@[i as int].1@));
                if !str_eq(x[i].0.as_str(), y[i].0.as_str()) || !json_eq(&x[i].1, &y[i].1) {
                    assert(!members_same(xv, yv, (i + 1) as nat));
                    proof {
                        lemma_members_same_prefix(xv, yv, (i + 1) as nat, xv.len());
                    }
                    return false;
                }
                i += 1;
            }
            true
        },
        (JsonValue::Null, _) => false,
        (JsonValue::Bool(_), _) => false,
        (JsonValue::Str(_), _) => false,
        (JsonValue::Number(_), _) => false,
        (JsonValue::Array(_), _) => false,
        (JsonValue::Object(_), _) => false,
    }
}

/// Whether `actual` contains `expected` (see [`spec_subset`]).
#[verifier::loop_isolation(false)]
pub fn json_subset(expected: &JsonValue, actual: &JsonValue) -> (r: bool)
    ensures
        r == spec_subset(expected@, actual@),
    decreases *expected,
{
    match (expected, actual) {
        (JsonValue::Object(em), JsonValue::Object(am)) => {
            let ghost ev = match expected@ { Json::Object(v) => v, _ => Seq::empty() };
            let ghost av = match actual@ { Json::Object(v) => v, _ => Seq::empty() };
            let mut i: usize = 0;
            while i < em.len()
                invariant
                    i <= em.len(),
                    ev.len() == em.len(),
                    members_subset(ev, av, i as nat),
                decreases em.len() - i,
            {
                assert(decreases_to!(*expected => *em));
                assert(decreases_to!(*em => em@));
                assert(decreases_to!(em@ => em@[i as int]));
                assert(decreases_to!(em@[i as int] => em@[i as int].1));
                assert(ev[i as int] == (em@[i as int].0@, em@[i as int].1@));
                let ok = match actual.get(em[i].0.as_str()) {
                    Some(item) => json_subset(&em[i].1, item),
                    None => false,
                };
                if !ok {
                    assert(!members_subset(ev, av, (i + 1) as nat));
                    proof {
                        lemma_members_prefix(ev, av, (i + 1) as nat, ev.len());
                    }
                    return false;
                }
                i += 1;
            }
            true
        },
        (JsonValue::Array(ea), JsonValue::Array(aa)) => {
            let ghost ev = match expected@ { Json::Array(v) => v, _ => Seq::empty() };
            let ghost av = match actual@ { Json::Array(v) => v, _ => Seq::empty() };
            if ea.len() != aa.len() {
                return false;
            }
            let mut i: usize = 0;
            while i < ea.len()
                invariant
                    i <= ea.len(),
                    ev.len() == ea.len(),
                    av.len() == aa.len(),
                    ea.len() == aa.len(),
                    items_subset(ev, av, i as nat),
                decreases ea.len() - i,
            {
                assert(decreases_to!(*expected => *ea));
                assert(decreases_to!(*ea => ea@));
                assert(decreases_to!(ea@ => ea@[i as int]));
                assert(ev[i as int] == ea@[i as int]@);
                assert(av[i as int] == aa@[i as int]@);
                if !json_subset(&ea[i], &aa[i]) {
                    assert(!items_subset(ev, av, (i + 1) as nat));
                    proof {
                        lemma_items_prefix(ev, av, (i + 1) as nat, ev.len());
                    }
                    return false;
                }
                i += 1;
            }
            true
        },
        (JsonValue::Object(_), _) => false,
        (JsonValue::Array(_), _) => false,
        _ => json_eq(expected, actual),
    }
}

/// A failing prefix of members makes every longer prefix fail.
proof fn lemma_members_prefix(em: Seq<(Seq<char>, Json)>, am: Seq<(Seq<char>, Json)>, k: nat, n: nat)
    requires
        k <= n <= em.len(),
        !members_subset(em, am, k),
        k > 0,
    ensures
        !members_subset(em, am, n),
    decreases n - k,
{
    if n > k {
        lemma_members_prefix(em, am, k, (n - 1) as nat);
    }
}

/// A failing prefix of items makes every longer prefix fail.
proof fn lemma_items_prefix(ea: Seq<Json>, aa: Seq<Json>, k: nat, n: nat)
    requires
        k <= n <= ea.len(),
        ea.len() == aa.len(),
        !items_subset(ea, aa, k),
        k > 0,
    ensures
        !items_subset(ea, aa, n),
    decreases n - k,
{
    if n > k {
        lemma_items_prefix(ea, aa, k, (n - 1) as nat);
    }
}


/// A copy of an object's members.
pub fn copy_members_of(m: &Vec<(String, JsonValue)>) -> (r: Vec<(String, JsonValue)>)
    ensures
        member_views(r@) == member_views(m@),
{
    let mut out: Vec<(String, JsonValue)> = Vec::new();
    let mut i: usize = 0;
    while i < m.len()
        invariant
            i <= m.len(),
            member_views(out@) == member_views(m@).take(i as int),
        decreases m.len() - i,
    {
        let ghost before = member_views(out@);
        let k = crate::text::owned(m[i].0.as_str());
        let v = m[i].1.copy();
        out.push((k, v));
        assert(member_views(out@) =~= before.push(member_views(m@)[i as int]));
        assert(member_views(m@).take(i + 1) =~= member_views(m@).take(i as int).push(member_views(m@)[i as int]));
        i += 1;
    }
    assert(member_views(m@).take(i as int) =~= member_views(m@));
    out
}

/// `value[key] = v`: an object gets the member set, `null` becomes an object
/// of that one member.
pub open spec fn spec_with_member(value: Json, key: Seq<char>, v: Json) -> Json {
    match value {
        Json::Object(ms) => Json::Object(spec_set(ms, key, v)),
        _ => Json::Object(seq![(key, v)]),
    }
}

/// Sets one member of an object, or makes `null` an object of that member
/// (`value[key] = v`, which panics on other values).
pub fn with_member(value: JsonValue, key: &str, v: JsonValue) -> (r: JsonValue)
    requires
        value@ is Object || value@ is Null,
    ensures
        r@ == spec_with_member(value@, key@, v@),
{
    match value {
        JsonValue::Object(mut members) => {
            proof {
                lemma_object_view(members);
            }
            set_member(&mut members, key, v);
            object_of(members)
        },
        _ => object1(key, v),
    }
}


/// The position `key_index` gives holds the key.
pub proof fn lemma_key_index_bound(members: Seq<(Seq<char>, Json)>, key: Seq<char>)
    ensures
        key_index(members, key) matches Some(i) ==> i < members.len() && members[i as int].0 == key,
    decreases members.len(),
{
    if members.len() > 0 && members[0].0 != key {
        lemma_key_index_bound(members.drop_first(), key);
    }
}

/// Looking a key up after setting one: the new value under the key set,
/// the old lookup under any other key.
pub proof fn lemma_set_lookup(members: Seq<(Seq<char>, Json)>, key: Seq<char>, value: Json, other: Seq<char>)
    ensures
        crate::json::spec_lookup(spec_set(members, key, value), other)
            == (if other == key { Some(value) } else { crate::json::spec_lookup(members, other) }),
    decreases members.len(),
{
    let t = spec_set(members, key, value);
    if members.len() == 0 {
        assert(t =~= seq![(key, value)]);
        assert(t.drop_first() =~= Seq::<(Seq<char>, Json)>::empty());
        assert(crate::json::spec_lookup(t, other) == (if t[0].0 == other { Some(t[0].1) } else { crate::json::spec_lookup(t.drop_first(), other) }));
    } else if members[0].0 == key {
        assert(t =~= members.update(0, (key, value)));
        assert(t.drop_first() =~= members.drop_first());
        assert(crate::json::spec_lookup(t, other) == (if t[0].0 == other { Some(t[0].1) } else { crate::json::spec_lookup(t.drop_first(), other) }));
    } else {
        let rest = members.drop_first();
        lemma_set_lookup(rest, key, value, other);
        lemma_key_index_bound(rest, key);
        match key_index(rest, key) {
            Some(i) => {
                assert(key_index(members, key) == Some(i + 1));
                assert(t.drop_first() =~= spec_set(rest, key, value));
            },
            None => {
                assert(key_index(members, key) is None);
                assert(t.drop_first() =~= spec_set(rest, key, value));
            },
        }
        assert(t[0] == members[0]);
        assert(crate::json::spec_lookup(t, other) == (if t[0].0 == other { Some(t[0].1) } else { crate::json::spec_lookup(t.drop_first(), other) }));
        assert(crate::json::spec_lookup(members, other) == (if members[0].0 == other { Some(members[0].1) } else { crate::json::spec_lookup(rest, other) }));
    }
}

/// A member of an object (or of `null` made an object) after setting one.
pub proof fn lemma_with_member_lookup(value: Json, key: Seq<char>, v: Json, other: Seq<char>)
    requires
        value is Object || value is Null,
    ensures
        crate::json::spec_member(spec_with_member(value, key, v), other)
            == (if other == key { Some(v) } else { crate::json::spec_member(value, other) }),
{
    match value {
        Json::Object(ms) => {
            lemma_set_lookup(ms, key, v, other);
        },
        _ => {
            let t = seq![(key, v)];
            assert(t.drop_first() =~= Seq::<(Seq<char>, Json)>::empty());
            assert(crate::json::spec_lookup(t, other) == (if t[0].0 == other { Some(t[0].1) } else { crate::json::spec_lookup(t.drop_first(), other) }));
            assert(crate::json::spec_member(value, other) is None);
        },
    }
}

} // verus!
