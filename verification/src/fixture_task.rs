//! The task of a block as the evidence tool describes it: its fixture
//! (inputs, expected result, streams, exit code and manifest, and the
//! receipt's nonce and path) and its prompt.
use vstd::prelude::*;
use crate::codex_evidence::{lossy_text, utf8_lossy};
use crate::json::{Json, JsonValue, spec_as_bool, spec_as_i64, spec_as_str, spec_field, spec_lookup};
use crate::m5_runner::{TaskSpec, required_string, spec_required_string};
use crate::text::{owned, push_all};

verus! {

/// The inputs among the first `n` members, or the first that is not text.
pub open spec fn input_pairs(members: Seq<(Seq<char>, Json)>, n: int) -> Result<Seq<(Seq<char>, Seq<char>)>, Seq<char>>
    decreases n,
{
    if n <= 0 || n > members.len() {
        Ok(Seq::empty())
    } else {
        match input_pairs(members, n - 1) {
            Err(e) => Err(e),
            Ok(prev) => match members[n - 1].1 {
                Json::Str(t) => Ok(prev.push((members[n - 1].0, t))),
                _ => Err("fixture input "@ + members[n - 1].0 + " is not a string"@),
            },
        }
    }
}

/// The fixture's inputs by path (none where `inputs` is not an object).
pub open spec fn fixture_inputs(m: Seq<(Seq<char>, Json)>) -> Result<Seq<(Seq<char>, Seq<char>)>, Seq<char>> {
    match spec_lookup(m, "inputs"@) {
        Some(Json::Object(im)) => input_pairs(im, im.len() as int),
        _ => Ok(Seq::empty()),
    }
}

/// The strings among the first `n` items, or the error where one is not.
pub open spec fn manifest_items(items: Seq<Json>, n: int) -> Result<Seq<Seq<char>>, Seq<char>>
    decreases n,
{
    if n <= 0 || n > items.len() {
        Ok(Seq::empty())
    } else {
        match manifest_items(items, n - 1) {
            Err(e) => Err(e),
            Ok(prev) => match items[n - 1] {
                Json::Str(t) => Ok(prev.push(t)),
                _ => Err("expected_manifest contains a non-string"@),
            },
        }
    }
}

/// The manifest the task expects.
pub open spec fn fixture_manifest(m: Seq<(Seq<char>, Json)>) -> Result<Seq<Seq<char>>, Seq<char>> {
    match spec_lookup(m, "expected_manifest"@) {
        Some(Json::Array(items)) => manifest_items(items, items.len() as int),
        _ => Err("fixture expected_manifest is missing"@),
    }
}

/// Why a fixture cannot be read, checked in order: not an object, an input
/// that is not text, no expected manifest or one with a non-string, and
/// a missing `id`, `cohort` or `fixture_nonce`.
pub open spec fn fixture_error(v: Json) -> Option<Seq<char>> {
    match v {
        Json::Object(m) => if fixture_inputs(m) is Err {
            Some(fixture_inputs(m)->Err_0)
        } else if fixture_manifest(m) is Err {
            Some(fixture_manifest(m)->Err_0)
        } else if spec_required_string(m, "id"@) is Err {
            Some(spec_required_string(m, "id"@)->Err_0)
        } else if spec_required_string(m, "cohort"@) is Err {
            Some(spec_required_string(m, "cohort"@)->Err_0)
        } else if spec_required_string(m, "fixture_nonce"@) is Err {
            Some(spec_required_string(m, "fixture_nonce"@)->Err_0)
        } else {
            None
        },
        _ => Some("fixture output is not an object"@),
    }
}

/// The text with its trailing line breaks removed.
pub open spec fn trim_line_ends(s: Seq<char>) -> Seq<char>
    decreases s.len(),
{
    if s.len() > 0 && (s.last() == '\r' || s.last() == '\n') {
        trim_line_ends(s.drop_last())
    } else {
        s
    }
}

/// A string member, or the default where it is absent or not a string.
pub open spec fn text_or(v: Json, key: Seq<char>, default: Seq<char>) -> Seq<char> {
    match spec_as_str(spec_field(v, key)) {
        Some(t) => t,
        None => default,
    }
}

/// Whether a task read from a fixture is what the fixture and the prompt
/// say: the fields by name, with their defaults.
pub open spec fn task_matches(t: TaskSpec, v: Json, prompt_stdout: Seq<u8>) -> bool {
    let m = match v { Json::Object(m) => m, _ => Seq::empty() };
    &&& t.id@ == spec_required_string(m, "id"@)->Ok_0
    &&& t.cohort@ == spec_required_string(m, "cohort"@)->Ok_0
    &&& t.prompt@ == trim_line_ends(utf8_lossy(prompt_stdout))
    &&& Seq::new(t.inputs@.len(), |i: int| (t.inputs@[i].0@, t.inputs@[i].1@)) == fixture_inputs(m)->Ok_0
    &&& t.expected@ == spec_field(v, "expected"@)
    &&& t.expected_stdout@ == text_or(v, "expected_stdout"@, Seq::empty())
    &&& t.expected_stderr@ == text_or(v, "expected_stderr"@, Seq::empty())
    &&& t.expected_exit_code == (match spec_as_i64(spec_field(v, "expected_exit_code"@)) { Some(c) => c, None => 0 }) as i32
    &&& crate::collection::arg_views(t.expected_manifest@) == fixture_manifest(m)->Ok_0
    &&& t.editable.is_some() == spec_as_str(spec_field(v, "editable"@)).is_some()
    &&& (t.editable.is_some() ==> Some(t.editable.unwrap()@) == spec_as_str(spec_field(v, "editable"@)))
    &&& t.background == (match spec_as_bool(spec_field(v, "background"@)) { Some(b) => b, None => false })
    &&& t.fixture_nonce@ == spec_required_string(m, "fixture_nonce"@)->Ok_0
    &&& t.receipt_path@ == text_or(v, "receipt_path"@, ".m5/receipt.json"@)
    &&& t.oracle@ == text_or(v, "oracle"@, "result_json+workspace_manifest+process_trace"@)
}

fn text_member(v: &JsonValue, key: &str, default: &str) -> (r: String)
    ensures
        r@ == text_or(v@, key@, default@),
{
    match v.field_str(key) {
        Some(t) => owned(t),
        None => owned(default),
    }
}

/// Removes trailing line breaks.
pub fn trim_line_breaks(s: &str) -> (r: String)
    ensures
        r@ == trim_line_ends(s@),
{
    let chars = crate::text::chars_of(s);
    let mut end = chars.len();
    assert(s@.take(end as int) =~= s@);
    while end > 0 && (chars[end - 1] == '\r' || chars[end - 1] == '\n')
        invariant
            end <= chars@.len(),
            chars@ == s@,
            trim_line_ends(s@) == trim_line_ends(s@.take(end as int)),
        decreases end,
    {
        assert(s@.take(end as int).drop_last() =~= s@.take(end - 1));
        end -= 1;
    }
    crate::text::string_of(crate::text::slice_chars(chars.as_slice(), 0, end).as_slice())
}

/// Reads a task from the fixture the evidence tool printed and the prompt
/// it printed.
#[verifier::loop_isolation(false)]
pub fn task_from_fixture(value: &JsonValue, prompt_stdout: &[u8]) -> (r: Result<TaskSpec, String>)
    ensures
        match r {
            Ok(t) => fixture_error(value@) is None && task_matches(t, value@, prompt_stdout@),
            Err(e) => fixture_error(value@) == Some(e@),
        },
{
    let members = match value {
        JsonValue::Object(ms) => ms,
        _ => return Err(owned("fixture output is not an object")),
    };
    let ghost m = match value@ { Json::Object(m) => m, _ => Seq::empty() };
    proof {
        crate::json_object::lemma_object_view(*members);
    }
    let prompt = trim_line_breaks(lossy_text(prompt_stdout).as_str());
    let mut inputs: Vec<(String, String)> = Vec::new();
    match value.get("inputs") {
        Some(obj @ JsonValue::Object(im)) => {
            let ghost imv = crate::json_object::member_views(im@);
            proof {
                crate::json_object::lemma_object_view(*im);
                assert(spec_lookup(m, "inputs"@) == Some(obj@));
                assert(obj@ == Json::Object(imv));
            }
            let mut i: usize = 0;
            while i < im.len()
                invariant
                    i <= im@.len(),
                    imv == crate::json_object::member_views(im@),
                    input_pairs(imv, i as int) is Ok,
                    Seq::new(inputs@.len(), |j: int| (inputs@[j].0@, inputs@[j].1@)) == input_pairs(imv, i as int)->Ok_0,
                decreases im.len() - i,
            {
                let ghost before = Seq::new(inputs@.len(), |j: int| (inputs@[j].0@, inputs@[j].1@));
                assert(imv[i as int] == (im@[i as int].0@, im@[i as int].1@));
                match &im[i].1 {
                    JsonValue::Str(t) => {
                        inputs.push((owned(im[i].0.as_str()), owned(t.as_str())));
                        assert(Seq::new(inputs@.len(), |j: int| (inputs@[j].0@, inputs@[j].1@)) =~= before.push((im@[i as int].0@, t@)));
                    },
                    _ => {
                        let mut e = owned("fixture input ");
                        push_all(&mut e, im[i].0.as_str());
                        push_all(&mut e, " is not a string");
                        proof {
                            assert(imv[i as int].1 !is Str);
                            assert(input_pairs(imv, i + 1) == Err::<Seq<(Seq<char>, Seq<char>)>, Seq<char>>(e@));
                            lemma_input_error_stays(imv, i as int + 1, imv.len() as int);
                        }
                        return Err(e);
                    },
                }
                i += 1;
            }
            assert(imv.len() == im@.len());
        },
        _ => {
            assert(Seq::new(inputs@.len(), |j: int| (inputs@[j].0@, inputs@[j].1@)) =~= Seq::<(Seq<char>, Seq<char>)>::empty());
        },
    }
    assert(fixture_inputs(m) is Ok);
    assert(Seq::new(inputs@.len(), |j: int| (inputs@[j].0@, inputs@[j].1@)) == fixture_inputs(m)->Ok_0);
    let mut manifest: Vec<String> = Vec::new();
    match value.get("expected_manifest") {
        Some(arr @ JsonValue::Array(items)) => {
            let ghost iv = Seq::new(items@.len(), |j: int| items@[j]@);
            proof {
                if let Json::Array(a) = arr@ {
                    assert(a =~= iv);
                }
                assert(spec_lookup(m, "expected_manifest"@) == Some(Json::Array(iv)));
            }
            let mut i: usize = 0;
            while i < items.len()
                invariant
                    i <= items@.len(),
                    iv == Seq::new(items@.len(), |j: int| items@[j]@),
                    manifest_items(iv, i as int) is Ok,
                    crate::collection::arg_views(manifest@) == manifest_items(iv, i as int)->Ok_0,
                decreases items.len() - i,
            {
                match &items[i] {
                    JsonValue::Str(t) => {
                        assert(iv[i as int] == items@[i as int]@);
                        let ghost before = crate::collection::arg_views(manifest@);
                        manifest.push(owned(t.as_str()));
                        assert(crate::collection::arg_views(manifest@) =~= before.push(t@));
                    },
                    _ => {
                        proof {
                            assert(iv[i as int] == items@[i as int]@);
                            lemma_manifest_error_stays(iv, i as int + 1, iv.len() as int);
                        }
                        return Err(owned("expected_manifest contains a non-string"));
                    },
                }
                i += 1;
            }
            proof {
                if let Json::Array(a) = arr@ {
                    assert(a =~= iv);
                }
            }
        },
        _ => return Err(owned("fixture expected_manifest is missing")),
    }
    assert(fixture_manifest(m) is Ok);
    let id = match required_string(value, "id") {
        Ok(x) => x,
        Err(e) => return Err(e),
    };
    let cohort = match required_string(value, "cohort") {
        Ok(x) => x,
        Err(e) => return Err(e),
    };
    let fixture_nonce = match required_string(value, "fixture_nonce") {
        Ok(x) => x,
        Err(e) => return Err(e),
    };
    let exit: i64 = match value.field("expected_exit_code").as_i64() { Some(c) => c, None => 0 };
    let editable = match value.field_str("editable") { Some(e) => Some(owned(e)), None => None };
    let background = match value.field("background").as_bool() { Some(b) => b, None => false };
    let t = TaskSpec {
        id,
        cohort,
        prompt,
        inputs,
        expected: value.field("expected"),
        expected_stdout: text_member(value, "expected_stdout", ""),
        expected_stderr: text_member(value, "expected_stderr", ""),
        expected_exit_code: #[verifier::truncate] (exit as i32),
        expected_manifest: manifest,
        editable,
        background,
        fixture_nonce,
        receipt_path: text_member(value, "receipt_path", ".m5/receipt.json"),
        oracle: text_member(value, "oracle", "result_json+workspace_manifest+process_trace"),
    };
    proof {
        reveal_strlit("");
        assert(""@ =~= Seq::<char>::empty());
    }
    Ok(t)
}

/// An input that is not text stays the error however many members follow.
proof fn lemma_input_error_stays(members: Seq<(Seq<char>, Json)>, k: int, n: int)
    requires
        0 < k <= n <= members.len(),
        input_pairs(members, k) is Err,
    ensures
        input_pairs(members, n) == input_pairs(members, k),
    decreases n - k,
{
    if n > k {
        lemma_input_error_stays(members, k, n - 1);
    }
}

/// A manifest item that is not text stays the error.
proof fn lemma_manifest_error_stays(items: Seq<Json>, k: int, n: int)
    requires
        0 < k <= n <= items.len(),
        manifest_items(items, k) is Err,
    ensures
        manifest_items(items, n) == manifest_items(items, k),
    decreases n - k,
{
    if n > k {
        lemma_manifest_error_stays(items, k, n - 1);
    }
}

} // verus!
