//! Keeping the runner's paths and the relay key out of recorded output:
//! every occurrence of a runner path becomes `<redacted-path>`, the key
//! becomes `[REDACTED]`, and the text is cut to the artifact limit.
use vstd::prelude::*;
use crate::json::{Json, JsonValue};
use crate::text::{fit_prefix, lemma_fit_prefix, replace_all, spec_replace, utf8_len};

verus! {

/// The most bytes of one recorded text.
pub const MAX_ARTIFACT_BYTES: usize = 2097152;

/// The text with the first `n` paths redacted, in order; empty paths are
/// skipped.
pub open spec fn redact_paths(value: Seq<char>, paths: Seq<Seq<char>>, n: int) -> Seq<char>
    decreases n,
{
    if n <= 0 {
        value
    } else if paths[n - 1].len() == 0 {
        redact_paths(value, paths, n - 1)
    } else {
        spec_replace(redact_paths(value, paths, n - 1), paths[n - 1], "<redacted-path>"@)
    }
}

/// The text with the paths, then the key (where there is one that is not
/// empty), redacted.
pub open spec fn spec_redact(value: Seq<char>, paths: Seq<Seq<char>>, key: Option<Seq<char>>) -> Seq<char> {
    let p = redact_paths(value, paths, paths.len() as int);
    match key {
        Some(k) => if k.len() > 0 { spec_replace(p, k, "[REDACTED]"@) } else { p },
        None => p,
    }
}

/// Whether cutting the text to the artifact limit falls on a character
/// boundary (`String::truncate` panics otherwise); a text within the limit
/// is not cut.
pub open spec fn cuts_cleanly(s: Seq<char>) -> bool {
    utf8_len(s) > MAX_ARTIFACT_BYTES ==> utf8_len(s.take(fit_prefix(s, MAX_ARTIFACT_BYTES as int) as int)) == MAX_ARTIFACT_BYTES
}

/// The text cut to the artifact limit.
pub open spec fn spec_cut(s: Seq<char>) -> Seq<char> {
    if utf8_len(s) > MAX_ARTIFACT_BYTES { s.take(fit_prefix(s, MAX_ARTIFACT_BYTES as int) as int) } else { s }
}

/// Redacts the runner's paths (`paths`) and the relay key (`key`, where one
/// is configured) in a text.
pub fn redact_text(value: &str, paths: &Vec<String>, key: Option<&str>) -> (r: String)
    ensures
        r@ == spec_redact(value@, crate::collection::arg_views(paths@), match key { Some(k) => Some(k@), None => None }),
{
    let ghost pv = crate::collection::arg_views(paths@);
    let mut out = crate::text::owned(value);
    let mut i: usize = 0;
    while i < paths.len()
        invariant
            i <= paths@.len(),
            pv == crate::collection::arg_views(paths@),
            out@ == redact_paths(value@, pv, i as int),
        decreases paths.len() - i,
    {
        assert(pv[i as int] == paths@[i as int]@);
        if crate::text::chars_of(paths[i].as_str()).len() > 0 {
            out = replace_all(out.as_str(), paths[i].as_str(), "<redacted-path>");
        }
        i += 1;
    }
    match key {
        Some(k) => {
            if crate::text::chars_of(k).len() > 0 {
                replace_all(out.as_str(), k, "[REDACTED]")
            } else {
                out
            }
        },
        None => out,
    }
}

/// Whether a text can be cut to the artifact limit.
pub fn artifact_cut_is_clean(s: &str) -> (r: bool)
    ensures
        r == cuts_cleanly(s@),
{
    if crate::text::byte_len(s) <= MAX_ARTIFACT_BYTES {
        return true;
    }
    let chars = crate::text::chars_of(s);
    let n = crate::text::prefix_within(chars.as_slice(), MAX_ARTIFACT_BYTES);
    proof {
        lemma_fit_prefix(s@, MAX_ARTIFACT_BYTES as int);
    }
    let head = crate::text::string_of(crate::text::slice_chars(chars.as_slice(), 0, n).as_slice());
    assert(head@ =~= s@.take(n as int));
    crate::text::byte_len(head.as_str()) == MAX_ARTIFACT_BYTES
}

/// Cuts a text to the artifact limit.
pub fn truncate_artifact(s: String) -> (r: String)
    requires
        cuts_cleanly(s@),
    ensures
        r@ == spec_cut(s@),
{
    if crate::text::byte_len(s.as_str()) <= MAX_ARTIFACT_BYTES {
        return s;
    }
    let chars = crate::text::chars_of(s.as_str());
    let n = crate::text::prefix_within(chars.as_slice(), MAX_ARTIFACT_BYTES);
    proof {
        lemma_fit_prefix(s@, MAX_ARTIFACT_BYTES as int);
    }
    let head = crate::text::string_of(crate::text::slice_chars(chars.as_slice(), 0, n).as_slice());
    assert(head@ =~= s@.take(n as int));
    head
}

/// Redacts a text and cuts it to the artifact limit.
pub fn sanitize_output(value: &str, paths: &Vec<String>, key: Option<&str>) -> (r: String)
    requires
        cuts_cleanly(spec_redact(value@, crate::collection::arg_views(paths@), match key { Some(k) => Some(k@), None => None })),
    ensures
        r@ == spec_cut(spec_redact(value@, crate::collection::arg_views(paths@), match key { Some(k) => Some(k@), None => None })),
{
    truncate_artifact(redact_text(value, paths, key))
}

/// A value with every string in it sanitized.
pub open spec fn spec_redact_value(v: Json, paths: Seq<Seq<char>>, key: Option<Seq<char>>) -> Json
    decreases v,
{
    match v {
        Json::Str(s) => Json::Str(spec_cut(spec_redact(s, paths, key))),
        Json::Array(items) => Json::Array(
            Seq::new(items.len(), |i: int| if 0 <= i < items.len() { spec_redact_value(items[i], paths, key) } else { Json::Null }),
        ),
        Json::Object(members) => Json::Object(
            Seq::new(members.len(), |i: int| if 0 <= i < members.len() { (members[i].0, spec_redact_value(members[i].1, paths, key)) } else { (Seq::empty(), Json::Null) }),
        ),
        _ => v,
    }
}

/// Whether every string in a value can be cut once redacted.
pub open spec fn strings_cut_cleanly(v: Json, paths: Seq<Seq<char>>, key: Option<Seq<char>>) -> bool
    decreases v,
{
    match v {
        Json::Str(s) => cuts_cleanly(spec_redact(s, paths, key)),
        Json::Array(items) => forall|i: int| 0 <= i < items.len() ==> strings_cut_cleanly(#[trigger] items[i], paths, key),
        Json::Object(members) => forall|i: int| 0 <= i < members.len() ==> strings_cut_cleanly(#[trigger] members[i].1, paths, key),
        _ => true,
    }
}


/// Sanitizes every string in a value, keeping its shape and its keys.
#[verifier::loop_isolation(false)]
pub fn redact_value(value: &JsonValue, paths: &Vec<String>, key: Option<&str>) -> (r: JsonValue)
    requires
        strings_cut_cleanly(value@, crate::collection::arg_views(paths@), match key { Some(k) => Some(k@), None => None }),
    ensures
        r@ == spec_redact_value(value@, crate::collection::arg_views(paths@), match key { Some(k) => Some(k@), None => None }),
    decreases *value,
{
    let ghost pv = crate::collection::arg_views(paths@);
    let ghost kv = match key { Some(k) => Some(k@), None => None };
    match value {
        JsonValue::Str(text) => JsonValue::Str(sanitize_output(text.as_str(), paths, key)),
        JsonValue::Array(items) => {
            let mut out: Vec<JsonValue> = Vec::new();
            let mut i: usize = 0;
            while i < items.len()
                invariant
                    i <= items.len(),
                    out@.len() == i,
                    forall|j: int| 0 <= j < i ==> #[trigger] out@[j]@ == spec_redact_value(items@[j]@, pv, kv),
                decreases items.len() - i,
            {
                assert(decreases_to!(*value => *items));
                assert(decreases_to!(*items => items@));
                assert(decreases_to!(items@ => items@[i as int]));
                proof {
                    if let Json::Array(a) = value@ {
                        assert(a[i as int] == items@[i as int]@);
                        assert(strings_cut_cleanly(a[i as int], pv, kv));
                    }
                }
                let c = redact_value(&items[i], paths, key);
                out.push(c);
                i += 1;
            }
            let ghost outv = out@;
            let r = JsonValue::Array(out);
            assert(r@ =~= spec_redact_value(value@, pv, kv)) by {
                if let Json::Array(a) = r@ {
                    if let Json::Array(b) = spec_redact_value(value@, pv, kv) {
                        assert forall|j: int| 0 <= j < a.len() implies a[j] == b[j] by {
                            assert(outv[j]@ == spec_redact_value(items@[j]@, pv, kv));
                        }
                        assert(a =~= b);
                    }
                }
            }
            r
        },
        JsonValue::Object(members) => {
            let mut out: Vec<(String, JsonValue)> = Vec::new();
            let mut i: usize = 0;
            while i < members.len()
                invariant
                    i <= members.len(),
                    out@.len() == i,
                    forall|j: int| #![trigger out@[j]] 0 <= j < i ==> out@[j].0@ == members@[j].0@
                        && out@[j].1@ == spec_redact_value(members@[j].1@, pv, kv),
                decreases members.len() - i,
            {
                assert(decreases_to!(*value => *members));
                assert(decreases_to!(*members => members@));
                assert(decreases_to!(members@ => members@[i as int]));
                assert(decreases_to!(members@[i as int] => members@[i as int].1));
                proof {
                    if let Json::Object(a) = value@ {
                        assert(a[i as int].1 == members@[i as int].1@);
                        assert(strings_cut_cleanly(a[i as int].1, pv, kv));
                    }
                }
                let k = crate::json::copy_string(&members[i].0);
                let v = redact_value(&members[i].1, paths, key);
                out.push((k, v));
                i += 1;
            }
            let r = JsonValue::Object(out);
            assert(r@ =~= spec_redact_value(value@, pv, kv)) by {
                if let Json::Object(a) = r@ {
                    if let Json::Object(b) = spec_redact_value(value@, pv, kv) {
                        assert(a =~= b);
                    }
                }
            }
            r
        },
        _ => value.copy(),
    }
}

/// Whether every string of a value can be sanitized.
#[verifier::loop_isolation(false)]
pub fn value_cuts_cleanly(value: &JsonValue, paths: &Vec<String>, key: Option<&str>) -> (r: bool)
    ensures
        r == strings_cut_cleanly(value@, crate::collection::arg_views(paths@), match key { Some(k) => Some(k@), None => None }),
    decreases *value,
{
    let ghost pv = crate::collection::arg_views(paths@);
    let ghost kv = match key { Some(k) => Some(k@), None => None };
    match value {
        JsonValue::Str(text) => artifact_cut_is_clean(redact_text(text.as_str(), paths, key).as_str()),
        JsonValue::Array(items) => {
            let mut i: usize = 0;
            while i < items.len()
                invariant
                    i <= items.len(),
                    forall|j: int| 0 <= j < i ==> strings_cut_cleanly(#[trigger] items@[j]@, pv, kv),
                decreases items.len() - i,
            {
                assert(decreases_to!(*value => *items));
                assert(decreases_to!(*items => items@));
                assert(decreases_to!(items@ => items@[i as int]));
                if !value_cuts_cleanly(&items[i], paths, key) {
                    proof {
                        if let Json::Array(a) = value@ {
                            assert(a[i as int] == items@[i as int]@);
                        }
                    }
                    return false;
                }
                i += 1;
            }
            proof {
                if let Json::Array(a) = value@ {
                    assert forall|j: int| 0 <= j < a.len() implies strings_cut_cleanly(#[trigger] a[j], pv, kv) by {
                        assert(a[j] == items@[j]@);
                    }
                }
            }
            true
        },
        JsonValue::Object(members) => {
            let mut i: usize = 0;
            while i < members.len()
                invariant
                    i <= members.len(),
                    forall|j: int| 0 <= j < i ==> strings_cut_cleanly(#[trigger] members@[j].1@, pv, kv),
                decreases members.len() - i,
            {
                assert(decreases_to!(*value => *members));
                assert(decreases_to!(*members => members@));
                assert(decreases_to!(members@ => members@[i as int]));
                assert(decreases_to!(members@[i as int] => members@[i as int].1));
                if !value_cuts_cleanly(&members[i].1, paths, key) {
                    proof {
                        if let Json::Object(a) = value@ {
                            assert(a[i as int].1 == members@[i as int].1@);
                        }
                    }
                    return false;
                }
                i += 1;
            }
            proof {
                if let Json::Object(a) = value@ {
                    assert forall|j: int| 0 <= j < a.len() implies strings_cut_cleanly(#[trigger] a[j].1, pv, kv) by {
                        assert(a[j].1 == members@[j].1@);
                    }
                }
            }
            true
        },
        _ => true,
    }
}

} // verus!
