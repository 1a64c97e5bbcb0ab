//! Capturing the agent's output: what is kept of each chunk read from its
//! pipes, when its first output, first response, tool calls and completed
//! turn were seen, and how the helpers' output files are put together.
use vstd::prelude::*;
use vstd::relations::{sorted_by, total_ordering};
use crate::codex_evidence::{lossy_text, utf8_lossy};
use crate::order::key_lt;
use crate::json::str_eq;
use crate::text::{contains_str, owned, spec_contains};

verus! {

/// The most bytes kept of one pipe, or of one kind of helper output.
pub const MAX_CAPTURE_BYTES: usize = 8388608;

/// When (in milliseconds from the agent's start) each marker was first
/// seen, and the last tool call.
#[derive(Clone, Copy)]
pub struct CaptureMeta {
    pub first_stdout_ms: Option<i64>,
    pub first_stderr_ms: Option<i64>,
    pub first_response_ms: Option<i64>,
    pub first_tool_ms: Option<i64>,
    pub last_tool_ms: Option<i64>,
    pub turn_completed_ms: Option<i64>,
}

/// Nothing seen yet.
pub open spec fn no_markers() -> CaptureMeta {
    CaptureMeta {
        first_stdout_ms: None,
        first_stderr_ms: None,
        first_response_ms: None,
        first_tool_ms: None,
        last_tool_ms: None,
        turn_completed_ms: None,
    }
}

/// Nothing seen yet.
pub fn new_capture_meta() -> (r: CaptureMeta)
    ensures
        r == no_markers(),
{
    CaptureMeta {
        first_stdout_ms: None,
        first_stderr_ms: None,
        first_response_ms: None,
        first_tool_ms: None,
        last_tool_ms: None,
        turn_completed_ms: None,
    }
}

/// Whether the text holds an event of the type `kind`, written with or
/// without a space after the colon.
pub open spec fn has_type(text: Seq<char>, compact: Seq<char>, spaced: Seq<char>) -> bool {
    spec_contains(text, compact) || spec_contains(text, spaced)
}

/// What is kept after a chunk: the chunk, cut to what still fits.
pub open spec fn kept_after(captured: Seq<u8>, chunk: Seq<u8>) -> Seq<u8> {
    if captured.len() < MAX_CAPTURE_BYTES {
        let room = (MAX_CAPTURE_BYTES - captured.len()) as int;
        captured + chunk.take(if room < chunk.len() { room } else { chunk.len() as int })
    } else {
        captured
    }
}

/// The markers after a chunk arrived `arrival_ms` into the run and the
/// captured output was scanned at `scan_ms`: the first chunk of a pipe
/// marks its first output; on standard output, the first item started
/// marks the first response, each command execution in the captured text
/// marks a tool call, and the first completed turn marks the turn.
pub open spec fn spec_capture_step(m: CaptureMeta, kept: Seq<u8>, stdout: bool, first: bool, arrival_ms: i64, scan_ms: i64) -> CaptureMeta {
    let m1 = if first {
        if stdout { CaptureMeta { first_stdout_ms: Some(arrival_ms), ..m } } else { CaptureMeta { first_stderr_ms: Some(arrival_ms), ..m } }
    } else {
        m
    };
    if stdout {
        let text = utf8_lossy(kept);
        let m2 = if m1.first_response_ms is None && has_type(text, "\"type\":\"item.started\""@, "\"type\": \"item.started\""@) {
            CaptureMeta { first_response_ms: Some(scan_ms), ..m1 }
        } else {
            m1
        };
        let m3 = if has_type(text, "\"type\":\"command_execution\""@, "\"type\": \"command_execution\""@) {
            CaptureMeta {
                first_tool_ms: if m2.first_tool_ms is None { Some(scan_ms) } else { m2.first_tool_ms },
                last_tool_ms: Some(scan_ms),
                ..m2
            }
        } else {
            m2
        };
        if m3.turn_completed_ms is None && has_type(text, "\"type\":\"turn.completed\""@, "\"type\": \"turn.completed\""@) {
            CaptureMeta { turn_completed_ms: Some(scan_ms), ..m3 }
        } else {
            m3
        }
    } else {
        m1
    }
}

/// Keeps what fits of a chunk read from a pipe.
pub fn keep_chunk(captured: &mut Vec<u8>, chunk: &[u8])
    ensures
        final(captured)@ == kept_after(old(captured)@, chunk@),
{
    if captured.len() < MAX_CAPTURE_BYTES {
        let room = MAX_CAPTURE_BYTES - captured.len();
        let keep = if room < chunk.len() { room } else { chunk.len() };
        let ghost before = captured@;
        let mut i: usize = 0;
        while i < keep
            invariant
                i <= keep,
                keep <= chunk@.len(),
                captured@ == before + chunk@.take(i as int),
            decreases keep - i,
        {
            captured.push(chunk[i]);
            assert(chunk@.take(i + 1) =~= chunk@.take(i as int).push(chunk@[i as int]));
            i += 1;
        }
    }
}

/// Updates the markers once a chunk was kept (`kept` is all that was
/// captured of the pipe so far).
pub fn capture_step(m: &mut CaptureMeta, kept: &[u8], stdout: bool, first: bool, arrival_ms: i64, scan_ms: i64)
    ensures
        *final(m) == spec_capture_step(*old(m), kept@, stdout, first, arrival_ms, scan_ms),
{
    if first {
        if stdout {
            m.first_stdout_ms = Some(arrival_ms);
        } else {
            m.first_stderr_ms = Some(arrival_ms);
        }
    }
    if stdout {
        let text = lossy_text(kept);
        let t = text.as_str();
        if m.first_response_ms.is_none() && (contains_str(t, "\"type\":\"item.started\"") || contains_str(t, "\"type\": \"item.started\"")) {
            m.first_response_ms = Some(scan_ms);
        }
        if contains_str(t, "\"type\":\"command_execution\"") || contains_str(t, "\"type\": \"command_execution\"") {
            if m.first_tool_ms.is_none() {
                m.first_tool_ms = Some(scan_ms);
            }
            m.last_tool_ms = Some(scan_ms);
        }
        if m.turn_completed_ms.is_none() && (contains_str(t, "\"type\":\"turn.completed\"") || contains_str(t, "\"type\": \"turn.completed\"")) {
            m.turn_completed_ms = Some(scan_ms);
        }
    }
}


/// Names in code-point order (byte order of their UTF-8 encoding).
pub open spec fn name_order() -> spec_fn(Seq<char>, Seq<char>) -> bool {
    |a: Seq<char>, b: Seq<char>| a == b || key_lt(a, b)
}

/// The name order is a total order.
pub proof fn lemma_name_order()
    ensures
        total_ordering(name_order()),
{
    let r = name_order();
    assert forall|x: Seq<char>, y: Seq<char>| #[trigger] r(x, y) && #[trigger] r(y, x) implies x == y by {
        crate::order::lemma_key_order(x, y, x);
    }
    assert forall|x: Seq<char>, y: Seq<char>, z: Seq<char>| #[trigger] r(x, y) && #[trigger] r(y, z) implies r(x, z) by {
        crate::order::lemma_key_order(x, y, z);
    }
    assert forall|x: Seq<char>, y: Seq<char>| #[trigger] r(x, y) || #[trigger] r(y, x) by {
        crate::order::lemma_key_order(x, y, x);
    }
}

/// Whether a file in the agent's directory holds helper output of the
/// given kind (`.stdout` or `.stderr`).
pub open spec fn is_stream_file(name: Seq<char>, suffix: Seq<char>) -> bool {
    crate::text::spec_starts_with(name, "command-output-"@) && crate::text::spec_ends_with(name, suffix)
}

/// The names of the files of one kind, in the order given.
pub open spec fn stream_files_upto(names: Seq<Seq<char>>, suffix: Seq<char>, n: int) -> Seq<Seq<char>>
    decreases n,
{
    if n <= 0 {
        Seq::empty()
    } else if is_stream_file(names[n - 1], suffix) {
        stream_files_upto(names, suffix, n - 1).push(names[n - 1])
    } else {
        stream_files_upto(names, suffix, n - 1)
    }
}

/// The names of the files of one kind, sorted.
pub open spec fn stream_files(names: Seq<Seq<char>>, suffix: Seq<char>) -> Seq<Seq<char>> {
    stream_files_upto(names, suffix, names.len() as int).sort_by(name_order())
}

pub fn insert_name(v: &mut Vec<String>, name: String)
    requires
        sorted_by(crate::collection::arg_views(old(v)@), name_order()),
    ensures
        sorted_by(crate::collection::arg_views(final(v)@), name_order()),
        crate::collection::arg_views(final(v)@).to_multiset() == crate::collection::arg_views(old(v)@).to_multiset().insert(name@),
{
    let ghost nv0 = name@;
    let ghost old_views = crate::collection::arg_views(v@);
    proof {
        lemma_name_order();
    }
    let mut p: usize = 0;
    while p < v.len() && (str_eq(v[p].as_str(), name.as_str()) || crate::order::key_before(v[p].as_str(), name.as_str()))
        invariant
            p <= v@.len(),
            old_views == crate::collection::arg_views(v@),
            nv0 == name@,
            forall|j: int| 0 <= j < p ==> name_order()(#[trigger] old_views[j], nv0),
        decreases v.len() - p,
    {
        assert(old_views[p as int] == v@[p as int]@);
        p += 1;
    }
    let ghost after_p = p < v@.len();
    proof {
        if after_p {
            assert(old_views[p as int] == v@[p as int]@);
        }
    }
    v.insert(p, name);
    let ghost nv = crate::collection::arg_views(v@);
    assert(nv =~= old_views.insert(p as int, nv0));
    proof {
        vstd::seq_lib::to_multiset_insert(old_views, p as int, nv0);
        let r = name_order();
        if after_p {
            assert(!r(old_views[p as int], nv0));
            assert(r(old_views[p as int], nv0) || r(nv0, old_views[p as int]));
        }
        assert forall|i: int, j: int| 0 <= i < j < nv.len() implies #[trigger] r(nv[i], nv[j]) by {
            if j < p {
                assert(r(old_views[i], old_views[j]));
            } else if j == p {
            } else if i < p {
                assert(r(old_views[i], nv0));
                assert(r(nv0, old_views[p as int]));
                if j - 1 > p {
                    assert(r(old_views[p as int], old_views[j - 1]));
                }
            } else if i == p {
                assert(r(nv0, old_views[p as int]));
                if j - 1 > p {
                    assert(r(old_views[p as int], old_views[j - 1]));
                }
            } else {
                assert(r(old_views[i - 1], old_views[j - 1]));
            }
        }
    }
}

/// Picks the helper output files of one kind from the names in the agent's
/// directory and sorts them.
pub fn helper_stream_files(names: &Vec<String>, suffix: &str) -> (r: Vec<String>)
    ensures
        crate::collection::arg_views(r@) == stream_files(crate::collection::arg_views(names@), suffix@),
{
    let ghost nv = crate::collection::arg_views(names@);
    let ghost picked = stream_files_upto(nv, suffix@, nv.len() as int);
    let mut out: Vec<String> = Vec::new();
    assert(crate::collection::arg_views(out@) =~= Seq::<Seq<char>>::empty());
    assert(stream_files_upto(nv, suffix@, 0) =~= Seq::<Seq<char>>::empty());
    let mut i: usize = 0;
    while i < names.len()
        invariant
            i <= names@.len(),
            nv == crate::collection::arg_views(names@),
            sorted_by(crate::collection::arg_views(out@), name_order()),
            crate::collection::arg_views(out@).to_multiset() == stream_files_upto(nv, suffix@, i as int).to_multiset(),
        decreases names.len() - i,
    {
        let name = names[i].as_str();
        assert(nv[i as int] == name@);
        if crate::text::starts_with(name, "command-output-") && crate::protocol::ends_with(name, suffix) {
            insert_name(&mut out, owned(name));
            proof {
                vstd::seq_lib::to_multiset_build(stream_files_upto(nv, suffix@, i as int), name@);
            }
        }
        i += 1;
    }
    proof {
        lemma_name_order();
        picked.lemma_sort_by_ensures(name_order());
        vstd::seq_lib::lemma_sorted_unique(crate::collection::arg_views(out@), picked.sort_by(name_order()), name_order());
    }
    out
}

/// The available chunks among the first `n`, one after another.
pub open spec fn flat_chunks(chunks: Seq<Option<Seq<u8>>>, n: int) -> Seq<u8>
    decreases n,
{
    if n <= 0 {
        Seq::empty()
    } else {
        match chunks[n - 1] {
            Some(c) => flat_chunks(chunks, n - 1) + c,
            None => flat_chunks(chunks, n - 1),
        }
    }
}

/// At most the capture limit of some bytes.
pub open spec fn capped(b: Seq<u8>) -> Seq<u8> {
    if b.len() <= MAX_CAPTURE_BYTES { b } else { b.take(MAX_CAPTURE_BYTES as int) }
}

/// The views of the helper files' contents.
pub open spec fn chunk_views(chunks: Seq<Option<Vec<u8>>>) -> Seq<Option<Seq<u8>>> {
    Seq::new(chunks.len(), |i: int| match chunks[i] { Some(c) => Some(c@), None => None })
}

/// Puts the helpers' output files together, in order, up to the capture
/// limit (`None` where a file could not be read), and decodes the bytes.
pub fn concatenate_streams(chunks: &Vec<Option<Vec<u8>>>) -> (r: String)
    ensures
        r@ == utf8_lossy(capped(flat_chunks(chunk_views(chunks@), chunks@.len() as int))),
{
    let ghost cv = chunk_views(chunks@);
    let mut bytes: Vec<u8> = Vec::new();
    let mut i: usize = 0;
    while i < chunks.len()
        invariant
            i <= chunks@.len(),
            cv == chunk_views(chunks@),
            bytes@ == capped(flat_chunks(cv, i as int)),
        decreases chunks.len() - i,
    {
        let ghost before = flat_chunks(cv, i as int);
        match &chunks[i] {
            Some(c) => {
                assert(cv[i as int] == Some(c@));
                assert(flat_chunks(cv, i + 1) == before + c@);
                keep_chunk(&mut bytes, c.as_slice());
                proof {
                    let after = before + c@;
                    if before.len() < MAX_CAPTURE_BYTES {
                        let room = (MAX_CAPTURE_BYTES - before.len()) as int;
                        if room < c@.len() {
                            assert(bytes@ =~= after.take(MAX_CAPTURE_BYTES as int));
                        } else {
                            assert(bytes@ =~= after.take(after.len() as int));
                            assert(after.take(after.len() as int) =~= after);
                        }
                    } else {
                        assert(bytes@ =~= after.take(MAX_CAPTURE_BYTES as int));
                    }
                }
            },
            None => {
                assert(cv[i as int] is None);
            },
        }
        i += 1;
    }
    lossy_text(bytes.as_slice())
}

} // verus!
