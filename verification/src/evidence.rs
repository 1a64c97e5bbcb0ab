//! Evidence files: SHA-256 digests, JSON Lines read back with their
//! completeness, trace rows with their context, and trace normalisation.
use vstd::prelude::*;
use vstd::string::*;
use crate::json::{Json, JsonNumber, JsonValue, Num, json_parse, parse_json, spec_member, str_eq};
use crate::json_object::{extend_members, member_views, object_of, set_member, spec_extend, spec_set};
use crate::text::{byte_views, decimal, owned, push_all, push_char, push_decimal, spec_split, split_bytes};

verus! {

/// The SHA-256 digest of some bytes, as `sha2` computes it.
pub uninterp spec fn sha256(bytes: Seq<u8>) -> Seq<u8>;

/// Hashes bytes with `sha2::Sha256::digest`; the 32-byte result is named,
/// not restated.
#[verifier::external_body]
fn sha256_bytes(bytes: &[u8]) -> (r: Vec<u8>)
    ensures
        r@ == sha256(bytes@),
        r@.len() == 32,
{
    <sha2::Sha256 as sha2::Digest>::digest(bytes).to_vec()
}

/// A lower-case hexadecimal digit.
pub open spec fn hex_char(d: int) -> char {
    if d < 10 { ((d + 48) as u8) as char } else { ((d + 87) as u8) as char }
}

/// Bytes written as lower-case hexadecimal, two digits each (`{:x}`).
pub open spec fn spec_hex(bytes: Seq<u8>) -> Seq<char>
    decreases bytes.len(),
{
    if bytes.len() == 0 {
        Seq::empty()
    } else {
        spec_hex(bytes.drop_last()) + seq![hex_char(bytes.last() as int / 16), hex_char(bytes.last() as int % 16)]
    }
}

fn hex_digit(d: u8) -> (c: char)
    requires
        d < 16,
    ensures
        c == hex_char(d as int),
{
    if d < 10 { (d + 48) as char } else { (d + 87) as char }
}

/// Writes bytes as lower-case hexadecimal.
pub fn hex(bytes: &[u8]) -> (r: String)
    ensures
        r@ == spec_hex(bytes@),
{
    let mut out = String::new();
    let mut i: usize = 0;
    while i < bytes.len()
        invariant
            i <= bytes.len(),
            out@ == spec_hex(bytes@.take(i as int)),
        decreases bytes.len() - i,
    {
        let b = bytes[i];
        assert(bytes@.take(i + 1).drop_last() =~= bytes@.take(i as int));
        push_char(&mut out, hex_digit(b / 16));
        push_char(&mut out, hex_digit(b % 16));
        i += 1;
    }
    assert(bytes@.take(i as int) =~= bytes@);
    out
}

/// The hexadecimal SHA-256 digest that names evidence files.
pub fn digest(bytes: &[u8]) -> (r: String)
    ensures
        r@ == spec_hex(sha256(bytes@)),
{
    let d = sha256_bytes(bytes);
    hex(d.as_slice())
}

/// The JSON values of a JSON Lines file, read from piece `i` on: empty lines
/// are skipped, an unfinished last line is not read, and reading stops at
/// the first line that is not JSON, which makes the file incomplete.
pub open spec fn lines_from(pieces: Seq<Seq<u8>>, i: int, complete: bool) -> (Seq<Json>, bool)
    decreases pieces.len() - i,
{
    if i >= pieces.len() || i < 0 {
        (Seq::empty(), complete)
    } else if pieces[i].len() == 0 {
        lines_from(pieces, i + 1, complete)
    } else if i == pieces.len() - 1 && !complete {
        (Seq::empty(), complete)
    } else {
        match json_parse(pieces[i]) {
            Some(v) => {
                let rest = lines_from(pieces, i + 1, complete);
                (seq![v] + rest.0, rest.1)
            },
            None => (Seq::empty(), false),
        }
    }
}

/// Whether a JSON Lines file ends with its last line: it is empty or ends
/// with a newline.
pub open spec fn ends_complete(bytes: Seq<u8>) -> bool {
    bytes.len() == 0 || bytes.last() == 10
}

/// The values of a JSON Lines file and whether it was complete.
pub open spec fn spec_lines(bytes: Seq<u8>) -> (Seq<Json>, bool) {
    lines_from(spec_split(bytes, 10u8), 0, ends_complete(bytes))
}

/// The views of some values.
pub open spec fn value_views(v: Seq<JsonValue>) -> Seq<Json> {
    v.map_values(|x: JsonValue| x@)
}

/// Reads the values of a JSON Lines file, and whether the file was complete.
pub fn lines(bytes: &[u8]) -> (r: (Vec<JsonValue>, bool))
    ensures
        value_views(r.0@) == spec_lines(bytes@).0,
        r.1 == spec_lines(bytes@).1,
{
    let complete = bytes.len() == 0 || bytes[bytes.len() - 1] == 10;
    let pieces = split_bytes(bytes, 10);
    let ghost p = byte_views(pieces@);
    let mut values: Vec<JsonValue> = Vec::new();
    let mut i: usize = 0;
    while i < pieces.len()
        invariant
            i <= pieces.len(),
            p == byte_views(pieces@),
            p == spec_split(bytes@, 10u8),
            complete == ends_complete(bytes@),
            spec_lines(bytes@) == (value_views(values@) + lines_from(p, i as int, complete).0, lines_from(p, i as int, complete).1),
        decreases pieces.len() - i,
    {
        assert(pieces@[i as int]@ == p[i as int]);
        if pieces[i].len() == 0 {
            i += 1;
            continue;
        }
        if i == pieces.len() - 1 && !complete {
            assert(value_views(values@) + Seq::<Json>::empty() =~= value_views(values@));
            return (values, complete);
        }
        match parse_json(pieces[i].as_slice()) {
            Some(v) => {
                let ghost before = value_views(values@);
                let ghost vv = v@;
                values.push(v);
                assert(value_views(values@) =~= before.push(vv));
                assert(value_views(values@) + lines_from(p, i + 1, complete).0 =~= before + (seq![vv] + lines_from(p, i + 1, complete).0));
            },
            None => {
                assert(value_views(values@) + Seq::<Json>::empty() =~= value_views(values@));
                return (values, false);
            },
        }
        i += 1;
    }
    assert(value_views(values@) + Seq::<Json>::empty() =~= value_views(values@));
    (values, complete)
}

/// Lifts the members of a row's `detail` object to the row itself; the
/// detail's `status` becomes `http_status`.
pub open spec fn lift_detail(members: Seq<(Seq<char>, Json)>, detail: Seq<(Seq<char>, Json)>) -> Seq<(Seq<char>, Json)>
    decreases detail.len(),
{
    if detail.len() == 0 {
        members
    } else {
        let key = if detail[0].0 == "status"@ { "http_status"@ } else { detail[0].0 };
        lift_detail(spec_set(members, key, detail[0].1), detail.drop_first())
    }
}

/// A trace row as the reports read it.
pub open spec fn spec_normalize_trace(row: Json) -> Json {
    match row {
        Json::Object(members) => match crate::json::spec_lookup(members, "detail"@) {
            Some(Json::Object(detail)) => Json::Object(lift_detail(members, detail)),
            _ => row,
        },
        _ => row,
    }
}

/// Normalises a trace row: the members of its `detail` object are lifted to
/// the row, `status` as `http_status`.
pub fn normalize_trace(row: JsonValue) -> (r: JsonValue)
    ensures
        r@ == spec_normalize_trace(row@),
{
    let detail = match row.get("detail") {
        Some(JsonValue::Object(d)) => {
            let c = copy_members(d);
            proof {
                crate::json_object::lemma_object_view(*d);
            }
            object_of(c)
        },
        _ => return row,
    };
    assert(spec_member(row@, "detail"@) == Some(detail@));
    let ghost rv = row@;
    match row {
        JsonValue::Object(members) => {
            let mut members = members;
            proof {
                crate::json_object::lemma_object_view(members);
            }
            match &detail {
                JsonValue::Object(d) => {
                    proof {
                        crate::json_object::lemma_object_view(*d);
                    }
                    let ghost dv = member_views(d@);
                    let ghost goal = lift_detail(member_views(members@), dv);
                    let mut i: usize = 0;
                    assert(dv.skip(0) =~= dv);
                    while i < d.len()
                        invariant
                            i <= d.len(),
                            dv == member_views(d@),
                            goal == lift_detail(member_views(members@), dv.skip(i as int)),
                        decreases d.len() - i,
                    {
                        let v = d[i].1.copy();
                        assert(dv.skip(i as int)[0] == dv[i as int]);
                        assert(dv.skip(i as int).drop_first() =~= dv.skip(i + 1));
                        if str_eq(d[i].0.as_str(), "status") {
                            set_member(&mut members, "http_status", v);
                        } else {
                            set_member(&mut members, d[i].0.as_str(), v);
                        }
                        i += 1;
                    }
                    assert(dv.skip(i as int) =~= Seq::<(Seq<char>, Json)>::empty());
                    assert(detail@ == Json::Object(dv));
                    object_of(members)
                },
                _ => object_of(members),
            }
        },
        other => other,
    }
}

fn copy_members(m: &Vec<(String, JsonValue)>) -> (r: Vec<(String, JsonValue)>)
    ensures
        member_views(r@) == member_views(m@),
{
    let mut out: Vec<(String, JsonValue)> = Vec::new();
    let mut i: usize = 0;
    while i < m.len()
        invariant
            i <= m.len(),
            member_views(out@) == member_views(m@).take(i as int),
        decreases m.len() - i,
    {
        let ghost before = member_views(out@);
        let k = owned(m[i].0.as_str());
        let v = m[i].1.copy();
        out.push((k, v));
        assert(member_views(out@) =~= before.push(member_views(m@)[i as int]));
        assert(member_views(m@).take(i + 1) =~= member_views(m@).take(i as int).push(member_views(m@)[i as int]));
        i += 1;
    }
    assert(member_views(m@).take(i as int) =~= member_views(m@));
    out
}


/// A JSON number from an `i32`, as `serde_json` makes it.
pub open spec fn int_number(n: i32) -> Json {
    if n >= 0 { Json::Number(Num::PosInt(n as u64)) } else { Json::Number(Num::NegInt(n as i64)) }
}

fn int_value(n: i32) -> (r: JsonValue)
    ensures
        r@ == int_number(n),
{
    if n >= 0 { JsonValue::Number(JsonNumber::PosInt(n as u64)) } else { JsonValue::Number(JsonNumber::NegInt(n as i64)) }
}

/// The members that every evidence trace row starts with.
pub open spec fn trace_base(timestamp: u64, phase: Seq<char>, event: Seq<char>, pid: u32, pgid: i32) -> Seq<(Seq<char>, Json)> {
    seq![
        ("schema_version"@, Json::Number(Num::PosInt(2))),
        ("monotonic_ns"@, Json::Number(Num::PosInt(timestamp))),
        ("clock_domain"@, Json::Str("os-monotonic"@)),
        ("phase"@, Json::Str(phase)),
        ("event"@, Json::Str(event)),
        ("pid"@, Json::Number(Num::PosInt(pid as u64))),
        ("pgid"@, int_number(pgid)),
        ("parent_id"@, Json::Null),
        ("exit_code"@, Json::Null),
        ("signal"@, Json::Null),
        ("stdout_bytes"@, Json::Null),
        ("stderr_bytes"@, Json::Null),
        ("status"@, Json::Str("unknown"@)),
        ("failure_class"@, Json::Null),
        ("confidence"@, Json::Str("observed"@)),
    ]
}

/// The members of an object (none for other values).
pub open spec fn members_of(v: Json) -> Seq<(Seq<char>, Json)> {
    match v {
        Json::Object(m) => m,
        _ => Seq::empty(),
    }
}

/// The identifier of a trace row: process, trace file and sequence number.
pub open spec fn spec_event_id(pid: u32, namespace: Seq<char>, sequence: u64) -> Seq<char> {
    decimal(pid as nat) + ":"@ + namespace + ":"@ + decimal(sequence as nat)
}

/// One evidence trace row: the fixed members, then the trace's context, then
/// the detail's members, then its sequence number and identifier.
pub open spec fn spec_trace_event(
    context: Json,
    namespace: Seq<char>,
    sequence: u64,
    timestamp: u64,
    phase: Seq<char>,
    event: Seq<char>,
    detail: Json,
    pid: u32,
    pgid: i32,
) -> Json {
    let m = spec_extend(spec_extend(trace_base(timestamp, phase, event, pid, pgid), members_of(context)), members_of(detail));
    let m2 = spec_set(m, "sequence"@, Json::Number(Num::PosInt(sequence)));
    Json::Object(spec_set(m2, "event_id"@, Json::Str(spec_event_id(pid, namespace, sequence))))
}

/// The numbering and context of one evidence trace file.
pub struct Trace {
    context: JsonValue,
    namespace: String,
    sequence: u64,
}

fn push_member(m: &mut Vec<(String, JsonValue)>, key: &str, value: JsonValue)
    ensures
        member_views(final(m)@) == member_views(old(m)@).push((key@, value@)),
{
    let ghost before = member_views(m@);
    let ghost v = value@;
    m.push((owned(key), value));
    assert(member_views(m@) =~= before.push((key@, v)));
}

fn text_value(s: &str) -> (r: JsonValue)
    ensures
        r@ == Json::Str(s@),
{
    JsonValue::Str(owned(s))
}

fn members_copy(v: &JsonValue) -> (r: Vec<(String, JsonValue)>)
    ensures
        member_views(r@) == members_of(v@),
{
    match v {
        JsonValue::Object(m) => {
            proof {
                crate::json_object::lemma_object_view(*m);
            }
            copy_members(m)
        },
        _ => {
            let r: Vec<(String, JsonValue)> = Vec::new();
            assert(member_views(r@) =~= Seq::empty());
            r
        },
    }
}

impl Trace {
    pub closed spec fn spec_context(&self) -> Json {
        self.context@
    }

    pub closed spec fn spec_namespace(&self) -> Seq<char> {
        self.namespace@
    }

    pub closed spec fn spec_sequence(&self) -> u64 {
        self.sequence
    }

    /// The trace written to the file at `path`: its rows are numbered from
    /// one and identified by the digest of the path.
    pub fn create(path: &str, context: JsonValue) -> (t: Trace)
        ensures
            t.spec_context() == context@,
            t.spec_namespace() == spec_hex(sha256(path.spec_bytes())),
            t.spec_sequence() == 0,
    {
        let namespace = digest(path.as_bytes());
        Trace { context, namespace, sequence: 0 }
    }

    /// The next row of the trace.
    pub fn at(&mut self, timestamp: u64, phase: &str, event: &str, detail: &JsonValue, pid: u32, pgid: i32) -> (row: JsonValue)
        requires
            old(self).spec_sequence() < u64::MAX,
        ensures
            final(self).spec_sequence() == old(self).spec_sequence() + 1,
            final(self).spec_context() == old(self).spec_context(),
            final(self).spec_namespace() == old(self).spec_namespace(),
            row@ == spec_trace_event(old(self).spec_context(), old(self).spec_namespace(), (old(self).spec_sequence() + 1) as u64,
                timestamp, phase@, event@, detail@, pid, pgid),
    {
        let mut m: Vec<(String, JsonValue)> = Vec::new();
        push_member(&mut m, "schema_version", JsonValue::Number(JsonNumber::PosInt(2)));
        push_member(&mut m, "monotonic_ns", JsonValue::Number(JsonNumber::PosInt(timestamp)));
        push_member(&mut m, "clock_domain", text_value("os-monotonic"));
        push_member(&mut m, "phase", text_value(phase));
        push_member(&mut m, "event", text_value(event));
        push_member(&mut m, "pid", JsonValue::Number(JsonNumber::PosInt(pid as u64)));
        push_member(&mut m, "pgid", int_value(pgid));
        push_member(&mut m, "parent_id", JsonValue::Null);
        push_member(&mut m, "exit_code", JsonValue::Null);
        push_member(&mut m, "signal", JsonValue::Null);
        push_member(&mut m, "stdout_bytes", JsonValue::Null);
        push_member(&mut m, "stderr_bytes", JsonValue::Null);
        push_member(&mut m, "status", text_value("unknown"));
        push_member(&mut m, "failure_class", JsonValue::Null);
        push_member(&mut m, "confidence", text_value("observed"));
        assert(member_views(m@) =~= trace_base(timestamp, phase@, event@, pid, pgid));
        let context = members_copy(&self.context);
        extend_members(&mut m, &context);
        let fields = members_copy(detail);
        extend_members(&mut m, &fields);
        self.sequence = self.sequence + 1;
        set_member(&mut m, "sequence", JsonValue::Number(JsonNumber::PosInt(self.sequence)));
        let mut id = String::new();
        push_decimal(&mut id, pid as u64);
        push_all(&mut id, ":");
        push_all(&mut id, self.namespace.as_str());
        push_all(&mut id, ":");
        push_decimal(&mut id, self.sequence);
        assert(id@ =~= spec_event_id(pid, self.namespace@, self.sequence));
        set_member(&mut m, "event_id", JsonValue::Str(id));
        object_of(m)
    }
}

// ---------------------------------------------------------------------------
// Seals
// ---------------------------------------------------------------------------

/// Whether a file of an evidence directory is listed in its seal: every
/// file but one named `seal.json`.
pub open spec fn spec_file_listed(path: Seq<char>) -> bool {
    spec_split(path, '/').last() != "seal.json"@
}

/// The inventory row of one file: its path below the directory and the
/// hexadecimal SHA-256 digest of its bytes.
pub open spec fn spec_inventory_row(path: Seq<char>, bytes: Seq<u8>) -> Json {
    Json::Object(seq![("path"@, Json::Str(path)), ("sha256"@, Json::Str(spec_hex(sha256(bytes))))])
}

/// The views of some files, each a path and its bytes.
pub open spec fn file_views(files: Seq<(String, Vec<u8>)>) -> Seq<(Seq<char>, Seq<u8>)> {
    files.map_values(|f: (String, Vec<u8>)| (f.0@, f.1@))
}

/// The inventory rows of some files, in their order, leaving out the seal.
pub open spec fn spec_inventory(files: Seq<(Seq<char>, Seq<u8>)>) -> Seq<Json>
    decreases files.len(),
{
    if files.len() == 0 {
        Seq::empty()
    } else {
        let rest = spec_inventory(files.drop_last());
        let f = files.last();
        if spec_file_listed(f.0) { rest.push(spec_inventory_row(f.0, f.1)) } else { rest }
    }
}

/// The seal document of a directory whose files are `files`.
pub open spec fn spec_seal_document(files: Seq<(Seq<char>, Seq<u8>)>) -> Json {
    Json::Object(seq![
        ("files"@, Json::Array(spec_inventory(files))),
        ("schema_version"@, Json::Number(Num::PosInt(2))),
    ])
}

fn file_listed(path: &str) -> (r: bool)
    ensures
        r == spec_file_listed(path@),
{
    let chars = crate::text::chars_of(path);
    let segments = crate::text::split_on(chars.as_slice(), '/');
    proof {
        crate::text::lemma_split_nonempty(path@, '/');
        reveal_strlit("seal.json");
    }
    let name: Vec<char> = vec!['s', 'e', 'a', 'l', '.', 'j', 's', 'o', 'n'];
    assert(name@ =~= "seal.json"@);
    let last = &segments[segments.len() - 1];
    assert(last@ == crate::text::char_views(segments@).last());
    !crate::text::chars_eq(last.as_slice(), name.as_slice())
}

/// An array of the given values, in order.
pub fn array_of(items: Vec<JsonValue>) -> (r: JsonValue)
    ensures
        r@ == Json::Array(value_views(items@)),
{
    let ghost v = value_views(items@);
    let r = JsonValue::Array(items);
    assert(r@ == Json::Array(v)) by {
        if let Json::Array(z) = r@ {
            assert(z =~= v);
        }
    }
    r
}

/// The inventory of an evidence directory. `files` holds each regular file
/// below it, as its path relative to the directory and its bytes, in the
/// order of a depth-first walk that visits each directory's entries sorted
/// by name; every file but a `seal.json` gets a row.
pub fn inventory(files: &Vec<(String, Vec<u8>)>) -> (rows: Vec<JsonValue>)
    ensures
        value_views(rows@) == spec_inventory(file_views(files@)),
{
    let ghost fv = file_views(files@);
    let mut rows: Vec<JsonValue> = Vec::new();
    let mut i: usize = 0;
    while i < files.len()
        invariant
            i <= files.len(),
            fv == file_views(files@),
            value_views(rows@) == spec_inventory(fv.take(i as int)),
        decreases files.len() - i,
    {
        assert(fv.take(i + 1).drop_last() =~= fv.take(i as int));
        assert(fv.take(i + 1).last() == (files@[i as int].0@, files@[i as int].1@));
        if file_listed(files[i].0.as_str()) {
            let ghost before = value_views(rows@);
            let path = crate::json_object::text_value(files[i].0.as_str());
            let sum = JsonValue::Str(digest(files[i].1.as_slice()));
            let row = crate::json_object::object2("path", path, "sha256", sum);
            rows.push(row);
            assert(value_views(rows@) =~= before.push(row@));
        }
        i += 1;
    }
    assert(fv.take(i as int) =~= fv);
    rows
}

/// The seal of an evidence directory: the schema version and the inventory
/// of `files` (see [`inventory`]), which a sealed directory keeps as
/// `seal.json`.
pub fn seal_document(files: &Vec<(String, Vec<u8>)>) -> (r: JsonValue)
    ensures
        r@ == spec_seal_document(file_views(files@)),
{
    let rows = inventory(files);
    let list = array_of(rows);
    let version = JsonValue::Number(JsonNumber::PosInt(2));
    crate::json_object::object2("files", list, "schema_version", version)
}

/// An array holding a copy of each of the given values.
pub fn array_copy(items: &Vec<JsonValue>) -> (r: JsonValue)
    ensures
        r@ == Json::Array(value_views(items@)),
{
    let ghost iv = value_views(items@);
    let mut copies: Vec<JsonValue> = Vec::new();
    let mut i: usize = 0;
    while i < items.len()
        invariant
            i <= items.len(),
            iv == value_views(items@),
            value_views(copies@) == iv.take(i as int),
        decreases items.len() - i,
    {
        assert(iv[i as int] == items@[i as int]@);
        let ghost before = value_views(copies@);
        copies.push(items[i].copy());
        assert(value_views(copies@) =~= before.push(iv[i as int]));
        assert(iv.take(i + 1) =~= iv.take(i as int).push(iv[i as int]));
        i += 1;
    }
    assert(iv.take(i as int) =~= iv);
    array_of(copies)
}

} // verus!
