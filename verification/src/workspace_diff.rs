//! How the workspace changed: every path of the expected or the actual
//! manifest with its state before and after the run, and whether file
//! permissions and symbolic links stayed as the fixture made them.
use vstd::prelude::*;
use crate::codex_evidence::{lossy_text, utf8_lossy};
use crate::evidence::{digest, sha256, spec_hex};
use crate::json::{Json, JsonNumber, JsonValue, Num, str_eq};
use crate::json_object::{member_views, object_of, push_member, text_value};
use crate::order::{key_lt, strictly_sorted};
use crate::text::owned;

verus! {

/// A file as the runner saw it: its permission bits, whether it is a
/// symbolic link, and its bytes (a link's target).
pub struct Snapshot {
    pub mode: u32,
    pub symlink: bool,
    pub bytes: Vec<u8>,
}

/// The view of a [`Snapshot`].
pub struct SnapshotView {
    pub mode: u32,
    pub symlink: bool,
    pub bytes: Seq<u8>,
}

impl Snapshot {
    pub open spec fn view(&self) -> SnapshotView {
        SnapshotView { mode: self.mode, symlink: self.symlink, bytes: self.bytes@ }
    }
}

/// What the record says of a file: its kind, mode, digest, and a link's
/// target.
pub open spec fn spec_descriptor(s: SnapshotView) -> Json {
    Json::Object(seq![
        ("digest"@, Json::Str(spec_hex(sha256(s.bytes)))),
        ("kind"@, Json::Str(if s.symlink { "symlink"@ } else { "file"@ })),
        ("mode"@, Json::Number(Num::PosInt(s.mode as u64))),
        ("target"@, if s.symlink { Json::Str(utf8_lossy(s.bytes)) } else { Json::Null }),
    ])
}

/// Describes a file for the record.
pub fn snapshot_descriptor(s: &Snapshot) -> (r: JsonValue)
    ensures
        r@ == spec_descriptor(s@),
{
    let mut m: Vec<(String, JsonValue)> = Vec::new();
    assert(member_views(m@) =~= Seq::<(Seq<char>, Json)>::empty());
    push_member(&mut m, "digest", text_value(digest(s.bytes.as_slice()).as_str()));
    push_member(&mut m, "kind", text_value(if s.symlink { "symlink" } else { "file" }));
    push_member(&mut m, "mode", JsonValue::Number(JsonNumber::PosInt(s.mode as u64)));
    push_member(&mut m, "target", if s.symlink { text_value(lossy_text(s.bytes.as_slice()).as_str()) } else { JsonValue::Null });
    let r = object_of(m);
    assert(r@ =~= spec_descriptor(s@)) by {
        if let Json::Object(a) = r@ {
            if let Json::Object(b) = spec_descriptor(s@) {
                assert(a =~= b);
            }
        }
    }
    r
}

/// Whether a name is in a list.
pub open spec fn listed(v: Seq<Seq<char>>, name: Seq<char>) -> bool {
    exists|i: int| 0 <= i < v.len() && v[i] == name
}

fn has(v: &Vec<String>, name: &str) -> (r: bool)
    ensures
        r == listed(crate::collection::arg_views(v@), name@),
{
    let ghost vv = crate::collection::arg_views(v@);
    let mut i: usize = 0;
    while i < v.len()
        invariant
            i <= v@.len(),
            vv == crate::collection::arg_views(v@),
            forall|j: int| 0 <= j < i ==> vv[j] != name@,
        decreases v.len() - i,
    {
        assert(vv[i as int] == v@[i as int]@);
        if str_eq(v[i].as_str(), name) {
            return true;
        }
        i += 1;
    }
    false
}

/// Inserts a name into a strictly sorted list where it is not there yet.
fn insert_unique(v: &mut Vec<String>, name: &str)
    requires
        strictly_sorted(crate::collection::arg_views(old(v)@)),
    ensures
        strictly_sorted(crate::collection::arg_views(final(v)@)),
        crate::collection::arg_views(final(v)@).to_set() == crate::collection::arg_views(old(v)@).to_set().insert(name@),
{
    let ghost old_views = crate::collection::arg_views(v@);
    let mut p: usize = 0;
    while p < v.len() && crate::order::key_before(v[p].as_str(), name)
        invariant
            p <= v@.len(),
            old_views == crate::collection::arg_views(v@),
            forall|j: int| 0 <= j < p ==> key_lt(#[trigger] old_views[j], name@),
        decreases v.len() - p,
    {
        assert(old_views[p as int] == v@[p as int]@);
        p += 1;
    }
    if p < v.len() && str_eq(v[p].as_str(), name) {
        assert(old_views[p as int] == name@);
        assert(old_views.to_set().insert(name@) =~= old_views.to_set());
        return;
    }
    proof {
        if p < old_views.len() {
            assert(old_views[p as int] == v@[p as int]@);
            crate::order::lemma_key_order(name@, old_views[p as int], name@);
            assert(key_lt(name@, old_views[p as int]));
        }
    }
    v.insert(p, owned(name));
    let ghost nv = crate::collection::arg_views(v@);
    assert(nv =~= old_views.insert(p as int, name@));
    proof {
        assert forall|i: int, j: int| 0 <= i < j < nv.len() implies key_lt(#[trigger] nv[i], #[trigger] nv[j]) by {
            if j < p {
            } else if j == p {
            } else if i < p {
                crate::order::lemma_key_order(old_views[i], name@, old_views[j - 1]);
                if j - 1 > p {
                    crate::order::lemma_key_order(name@, old_views[p as int], old_views[j - 1]);
                }
            } else if i == p {
                if j - 1 > p {
                    crate::order::lemma_key_order(name@, old_views[p as int], old_views[j - 1]);
                }
            } else {
                assert(key_lt(old_views[i - 1], old_views[j - 1]));
            }
        }
        assert(nv.to_set() =~= old_views.to_set().insert(name@)) by {
            assert forall|x: Seq<char>| nv.to_set().contains(x) implies old_views.to_set().insert(name@).contains(x) by {
                let k = choose|k: int| 0 <= k < nv.len() && nv[k] == x;
                if k < p {
                    assert(old_views[k] == x);
                } else if k > p {
                    assert(old_views[k - 1] == x);
                }
            }
            assert forall|x: Seq<char>| old_views.to_set().insert(name@).contains(x) implies nv.to_set().contains(x) by {
                if x == name@ {
                    assert(nv[p as int] == x);
                } else {
                    let k = choose|k: int| 0 <= k < old_views.len() && old_views[k] == x;
                    if k < p {
                        assert(nv[k] == x);
                    } else {
                        assert(nv[k + 1] == x);
                    }
                }
            }
        }
    }
}

/// The paths of both manifests, sorted, each once.
pub fn diff_paths(expected: &Vec<String>, actual: &Vec<String>) -> (r: Vec<String>)
    ensures
        strictly_sorted(crate::collection::arg_views(r@)),
        crate::collection::arg_views(r@).to_set()
            == crate::collection::arg_views(expected@).to_set() + crate::collection::arg_views(actual@).to_set(),
{
    let ghost ev = crate::collection::arg_views(expected@);
    let ghost av = crate::collection::arg_views(actual@);
    let mut out: Vec<String> = Vec::new();
    assert(crate::collection::arg_views(out@) =~= Seq::<Seq<char>>::empty());
    assert(ev.take(0).to_set() =~= Set::<Seq<char>>::empty());
    assert(crate::collection::arg_views(out@).to_set() =~= Set::<Seq<char>>::empty());
    let mut i: usize = 0;
    while i < expected.len()
        invariant
            i <= expected@.len(),
            ev == crate::collection::arg_views(expected@),
            strictly_sorted(crate::collection::arg_views(out@)),
            crate::collection::arg_views(out@).to_set() == ev.take(i as int).to_set(),
        decreases expected.len() - i,
    {
        assert(ev[i as int] == expected@[i as int]@);
        insert_unique(&mut out, expected[i].as_str());
        assert(ev.take(i + 1) =~= ev.take(i as int).push(ev[i as int]));
        proof {
            broadcast use vstd::seq_lib::group_seq_properties;
            assert(ev.take(i + 1).to_set() =~= ev.take(i as int).to_set().insert(ev[i as int]));
        }
        i += 1;
    }
    let mut k: usize = 0;
    assert(ev.take(i as int) =~= ev);
    assert(av.take(0).to_set() =~= Set::<Seq<char>>::empty());
    while k < actual.len()
        invariant
            k <= actual@.len(),
            av == crate::collection::arg_views(actual@),
            strictly_sorted(crate::collection::arg_views(out@)),
            crate::collection::arg_views(out@).to_set() == ev.to_set() + av.take(k as int).to_set(),
        decreases actual.len() - k,
    {
        assert(av[k as int] == actual@[k as int]@);
        insert_unique(&mut out, actual[k].as_str());
        assert(av.take(k + 1) =~= av.take(k as int).push(av[k as int]));
        proof {
            broadcast use vstd::seq_lib::group_seq_properties;
            assert(av.take(k + 1).to_set() =~= av.take(k as int).to_set().insert(av[k as int]));
            assert(crate::collection::arg_views(out@).to_set() =~= ev.to_set() + av.take(k + 1).to_set());
        }
        k += 1;
    }
    assert(av.take(k as int) =~= av);
    out
}


/// The snapshot taken of `path` before the run, where there is one.
pub open spec fn snapshot_of(before: Seq<(String, Snapshot)>, path: Seq<char>, n: int) -> Option<SnapshotView>
    decreases n,
{
    if n <= 0 {
        None
    } else if snapshot_of(before, path, n - 1) is Some {
        snapshot_of(before, path, n - 1)
    } else if before[n - 1].0@ == path {
        Some(before[n - 1].1@)
    } else {
        None
    }
}

/// What became of a path: missing where it is not in the workspace,
/// unexpected where the task did not expect it, created where the fixture
/// did not have it, else modified or unchanged by its bytes (missing where
/// it could not be read).
pub open spec fn diff_status(path: Seq<char>, expected: Seq<Seq<char>>, actual: Seq<Seq<char>>,
    before: Option<SnapshotView>, after: Option<SnapshotView>) -> Seq<char> {
    if !listed(actual, path) {
        "missing"@
    } else if !listed(expected, path) {
        "unexpected"@
    } else {
        match before {
            Some(b) => match after {
                Some(a) => if b.bytes != a.bytes { "modified"@ } else { "unchanged"@ },
                None => "missing"@,
            },
            None => "created"@,
        }
    }
}

/// A file's descriptor, or `null`.
pub open spec fn opt_descriptor(s: Option<SnapshotView>) -> Json {
    match s {
        Some(v) => spec_descriptor(v),
        None => Json::Null,
    }
}

/// Whether a path that was expected, kept, and read before and after
/// changed in the way `differs` tells.
pub open spec fn compared_and(path: Seq<char>, expected: Seq<Seq<char>>, actual: Seq<Seq<char>>,
    before: Option<SnapshotView>, after: Option<SnapshotView>) -> bool {
    listed(actual, path) && listed(expected, path) && before is Some && after is Some
}

/// The difference of the workspace over the given paths (with what was
/// read of each after the run).
pub open spec fn spec_workspace_diff(paths: Seq<Seq<char>>, expected: Seq<Seq<char>>, actual: Seq<Seq<char>>,
    before: Seq<(String, Snapshot)>, after: Seq<Option<SnapshotView>>) -> Json {
    let b = |i: int| snapshot_of(before, paths[i], before.len() as int);
    Json::Object(seq![
        ("entries"@, Json::Array(Seq::new(paths.len(), |i: int| Json::Object(seq![
            ("after"@, opt_descriptor(after[i])),
            ("before"@, opt_descriptor(b(i))),
            ("path"@, Json::Str(paths[i])),
            ("status"@, Json::Str(diff_status(paths[i], expected, actual, b(i), after[i]))),
        ])))),
        ("permissions_unchanged"@, Json::Bool(forall|i: int| 0 <= i < paths.len()
            && compared_and(paths[i], expected, actual, b(i), after[i]) ==> b(i).unwrap().mode == after[i].unwrap().mode)),
        ("symlinks_unchanged"@, Json::Bool(forall|i: int| 0 <= i < paths.len()
            && compared_and(paths[i], expected, actual, b(i), after[i]) ==> b(i).unwrap().symlink == after[i].unwrap().symlink)),
    ])
}

/// The views of optional snapshots.
pub open spec fn after_views(v: Seq<Option<Snapshot>>) -> Seq<Option<SnapshotView>> {
    Seq::new(v.len(), |i: int| match v[i] { Some(s) => Some(s@), None => None })
}

fn find_snapshot<'a>(before: &'a Vec<(String, Snapshot)>, path: &str) -> (r: Option<&'a Snapshot>)
    ensures
        match r { Some(s) => Some(s@), None => None } == snapshot_of(before@, path@, before@.len() as int),
{
    let mut i: usize = 0;
    while i < before.len()
        invariant
            i <= before@.len(),
            snapshot_of(before@, path@, i as int) is None,
        decreases before.len() - i,
    {
        if str_eq(before[i].0.as_str(), path) {
            proof {
                lemma_snapshot_found(before@, path@, i as int + 1, before@.len() as int);
            }
            return Some(&before[i].1);
        }
        i += 1;
    }
    None
}

/// Once found, the snapshot of a path stays the one found.
proof fn lemma_snapshot_found(before: Seq<(String, Snapshot)>, path: Seq<char>, k: int, n: int)
    requires
        0 < k <= n,
        snapshot_of(before, path, k) is Some,
    ensures
        snapshot_of(before, path, n) == snapshot_of(before, path, k),
    decreases n - k,
{
    if n > k {
        lemma_snapshot_found(before, path, k, n - 1);
    }
}

fn opt_descriptor_value(s: Option<&Snapshot>) -> (r: JsonValue)
    ensures
        r@ == opt_descriptor(match s { Some(v) => Some(v@), None => None }),
{
    match s {
        Some(v) => snapshot_descriptor(v),
        None => JsonValue::Null,
    }
}


fn bytes_eq(a: &[u8], b: &[u8]) -> (r: bool)
    ensures
        r == (a@ == b@),
{
    if a.len() != b.len() {
        return false;
    }
    let mut i: usize = 0;
    while i < a.len()
        invariant
            i <= a@.len(),
            a@.len() == b@.len(),
            forall|j: int| 0 <= j < i ==> a@[j] == b@[j],
        decreases a.len() - i,
    {
        if a[i] != b[i] {
            return false;
        }
        i += 1;
    }
    assert(a@ =~= b@);
    true
}

/// Describes how the workspace changed over `paths` (the paths of both
/// manifests, see [`diff_paths`]): `before` holds the fixture's snapshots
/// by path, `after[i]` what was read of `paths[i]` after the run.
pub fn workspace_diff(paths: &Vec<String>, expected: &Vec<String>, actual: &Vec<String>,
    before: &Vec<(String, Snapshot)>, after: &Vec<Option<Snapshot>>) -> (r: JsonValue)
    requires
        after@.len() == paths@.len(),
    ensures
        r@ == spec_workspace_diff(crate::collection::arg_views(paths@), crate::collection::arg_views(expected@),
            crate::collection::arg_views(actual@), before@, after_views(after@)),
{
    let ghost pv = crate::collection::arg_views(paths@);
    let ghost ev = crate::collection::arg_views(expected@);
    let ghost acv = crate::collection::arg_views(actual@);
    let ghost afv = after_views(after@);
    let ghost b = |i: int| snapshot_of(before@, pv[i], before@.len() as int);
    let mut entries: Vec<JsonValue> = Vec::new();
    let mut permissions = true;
    let mut symlinks = true;
    let mut i: usize = 0;
    while i < paths.len()
        invariant
            i <= paths@.len(),
            after@.len() == paths@.len(),
            pv == crate::collection::arg_views(paths@),
            ev == crate::collection::arg_views(expected@),
            acv == crate::collection::arg_views(actual@),
            afv == after_views(after@),
            b == (|i: int| snapshot_of(before@, pv[i], before@.len() as int)),
            entries@.len() == i,
            forall|j: int| 0 <= j < i ==> (#[trigger] entries@[j])@ == Json::Object(seq![
                ("after"@, opt_descriptor(afv[j])),
                ("before"@, opt_descriptor(b(j))),
                ("path"@, Json::Str(pv[j])),
                ("status"@, Json::Str(diff_status(pv[j], ev, acv, b(j), afv[j]))),
            ]),
            permissions == (forall|j: int| 0 <= j < i && compared_and(pv[j], ev, acv, b(j), afv[j]) ==> b(j).unwrap().mode == afv[j].unwrap().mode),
            symlinks == (forall|j: int| 0 <= j < i && compared_and(pv[j], ev, acv, b(j), afv[j]) ==> b(j).unwrap().symlink == afv[j].unwrap().symlink),
        decreases paths.len() - i,
    {
        let path = paths[i].as_str();
        assert(pv[i as int] == path@);
        let bs = find_snapshot(before, path);
        let a: Option<&Snapshot> = match &after[i] { Some(s) => Some(s), None => None };
        assert(afv[i as int] == match a { Some(v) => Some(v@), None => None });
        let in_actual = has(actual, path);
        let in_expected = has(expected, path);
        let status = if !in_actual {
            "missing"
        } else if !in_expected {
            "unexpected"
        } else {
            match bs {
                Some(bv) => match a {
                    Some(av) => {
                        if bv.mode != av.mode {
                            permissions = false;
                        }
                        if bv.symlink != av.symlink {
                            symlinks = false;
                        }
                        if bytes_eq(bv.bytes.as_slice(), av.bytes.as_slice()) { "unchanged" } else { "modified" }
                    },
                    None => "missing",
                },
                None => "created",
            }
        };
        let mut m: Vec<(String, JsonValue)> = Vec::new();
        assert(member_views(m@) =~= Seq::<(Seq<char>, Json)>::empty());
        push_member(&mut m, "after", opt_descriptor_value(a));
        push_member(&mut m, "before", opt_descriptor_value(bs));
        push_member(&mut m, "path", text_value(path));
        push_member(&mut m, "status", text_value(status));
        let e = object_of(m);
        assert(e@ =~= Json::Object(seq![
            ("after"@, opt_descriptor(afv[i as int])),
            ("before"@, opt_descriptor(b(i as int))),
            ("path"@, Json::Str(pv[i as int])),
            ("status"@, Json::Str(diff_status(pv[i as int], ev, acv, b(i as int), afv[i as int]))),
        ])) by {
            if let Json::Object(x) = e@ {
                assert(x =~= seq![
                    ("after"@, opt_descriptor(afv[i as int])),
                    ("before"@, opt_descriptor(b(i as int))),
                    ("path"@, Json::Str(pv[i as int])),
                    ("status"@, Json::Str(diff_status(pv[i as int], ev, acv, b(i as int), afv[i as int]))),
                ]);
            }
        }
        entries.push(e);
        i += 1;
    }
    let ghost ents = entries@;
    let list = JsonValue::Array(entries);
    let mut m: Vec<(String, JsonValue)> = Vec::new();
    assert(member_views(m@) =~= Seq::<(Seq<char>, Json)>::empty());
    push_member(&mut m, "entries", list);
    push_member(&mut m, "permissions_unchanged", JsonValue::Bool(permissions));
    push_member(&mut m, "symlinks_unchanged", JsonValue::Bool(symlinks));
    let r = object_of(m);
    assert(r@ =~= spec_workspace_diff(pv, ev, acv, before@, afv)) by {
        if let Json::Object(x) = r@ {
            if let Json::Object(y) = spec_workspace_diff(pv, ev, acv, before@, afv) {
                if let Json::Array(l) = x[0].1 {
                    if let Json::Array(k) = y[0].1 {
                        assert(l =~= k);
                    }
                }
                assert(x =~= y);
            }
        }
    }
    r
}

} // verus!
