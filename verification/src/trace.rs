//! The evaluation trace that the terminal layer writes: identifiers for
//! trace rows, spans of traced phases, and the exact JSON text of each row.
use vstd::prelude::*;
use crate::text::{chars_of, decimal, escape_with, lemma_escape_step, owned, push_all, push_char, push_decimal};

verus! {

/// Hands out the next trace sequence number, advancing the counter (with
/// wrap-around, as an atomic `fetch_add` does).
pub fn next_id(sequence: &mut u64) -> (id: u64)
    ensures
        id == *old(sequence),
        *final(sequence) == (if *old(sequence) == u64::MAX { 0 } else { (*old(sequence) + 1) as u64 }),
{
    let id = *sequence;
    *sequence = if id == u64::MAX { 0 } else { id + 1 };
    id
}

/// Successive identifiers differ while the counter has not wrapped.
pub proof fn lemma_ids_distinct(first: u64, count: nat, i: nat, j: nat)
    requires
        first + count <= u64::MAX + 1,
        i < j < count,
    ensures
        (first + i) as u64 != (first + j) as u64,
{
}

/// A traced phase: its name and the detail written at its beginning and at
/// its return.
pub struct Span {
    phase: &'static str,
    detail: String,
}

impl Span {
    pub closed spec fn spec_phase(&self) -> Seq<char> {
        self.phase@
    }

    pub closed spec fn spec_detail(&self) -> Seq<char> {
        self.detail@
    }

    /// The phase's name.
    pub fn phase(&self) -> (r: &'static str)
        ensures
            r@ == self.spec_phase(),
    {
        self.phase
    }

    /// The detail written with both events of the phase.
    pub fn detail(&self) -> (r: &str)
        ensures
            r@ == self.spec_detail(),
    {
        self.detail.as_str()
    }
}

/// Opens a traced phase; its `begin` and `return` rows carry `detail`.
pub fn span(phase: &'static str, detail: String) -> (s: Span)
    ensures
        s.spec_phase() == phase@,
        s.spec_detail() == detail@,
{
    Span { phase, detail }
}

/// Whether a character is a control character (general category Cc).
pub open spec fn is_control(c: char) -> bool {
    (c as u32) <= 0x1f || (0x7f <= (c as u32) && (c as u32) <= 0x9f)
}

/// A lower-case hexadecimal digit.
pub open spec fn hex_digit(d: nat) -> char {
    if d < 10 { ((d + 48) as u8) as char } else { ((d + 87) as u8) as char }
}

/// How a JSON string writes one character.
pub open spec fn json_char(c: char) -> Seq<char> {
    if c == '"' {
        seq!['\\', '"']
    } else if c == '\\' {
        seq!['\\', '\\']
    } else if c == '\n' {
        seq!['\\', 'n']
    } else if c == '\r' {
        seq!['\\', 'r']
    } else if c == '\t' {
        seq!['\\', 't']
    } else if is_control(c) {
        let n = c as u32 as nat;
        seq!['\\', 'u', hex_digit(n / 4096 % 16), hex_digit(n / 256 % 16), hex_digit(n / 16 % 16), hex_digit(n % 16)]
    } else {
        seq![c]
    }
}

/// A text as a quoted JSON string.
pub open spec fn spec_escape_json(s: Seq<char>) -> Seq<char> {
    seq!['"'] + escape_with(s, |c: char| json_char(c)) + seq!['"']
}

fn hex(d: u32) -> (c: char)
    requires
        d < 16,
    ensures
        c == hex_digit(d as nat),
{
    if d < 10 {
        ((d + 48) as u8) as char
    } else {
        ((d + 87) as u8) as char
    }
}

/// Quotes a text as a JSON string, escaping quotes, backslashes and control
/// characters.
pub fn escape_json(value: &str) -> (r: String)
    ensures
        r@ == spec_escape_json(value@),
{
    let chars = chars_of(value);
    let mut out = String::new();
    push_char(&mut out, '"');
    let mut i: usize = 0;
    while i < chars.len()
        invariant
            i <= chars.len(),
            chars@ == value@,
            out@ == seq!['"'] + escape_with(chars@.take(i as int), |c: char| json_char(c)),
        decreases chars.len() - i,
    {
        let c = chars[i];
        proof {
            lemma_escape_step(chars@, |c: char| json_char(c), i as int);
        }
        let ghost before = out@;
        let n = c as u32;
        if c == '"' {
            push_char(&mut out, '\\');
            push_char(&mut out, '"');
        } else if c == '\\' {
            push_char(&mut out, '\\');
            push_char(&mut out, '\\');
        } else if c == '\n' {
            push_char(&mut out, '\\');
            push_char(&mut out, 'n');
        } else if c == '\r' {
            push_char(&mut out, '\\');
            push_char(&mut out, 'r');
        } else if c == '\t' {
            push_char(&mut out, '\\');
            push_char(&mut out, 't');
        } else if n <= 0x1f || (0x7f <= n && n <= 0x9f) {
            push_char(&mut out, '\\');
            push_char(&mut out, 'u');
            push_char(&mut out, hex(n / 4096 % 16));
            push_char(&mut out, hex(n / 256 % 16));
            push_char(&mut out, hex(n / 16 % 16));
            push_char(&mut out, hex(n % 16));
        } else {
            push_char(&mut out, c);
        }
        assert(out@ =~= before + json_char(c));
        i += 1;
    }
    push_char(&mut out, '"');
    assert(chars@.take(chars@.len() as int) =~= chars@);
    out
}

/// A context value of a trace row: the quoted value, or `null` when unset.
pub open spec fn spec_json_string(value: Option<Seq<char>>) -> Seq<char> {
    match value {
        Some(v) => spec_escape_json(v),
        None => "null"@,
    }
}

/// A context value of a trace row: the quoted value, or `null` when unset.
pub fn json_string(value: Option<&str>) -> (r: String)
    ensures
        r@ == spec_json_string(match value { Some(v) => Some(v@), None => None }),
{
    match value {
        Some(v) => escape_json(v),
        None => owned("null"),
    }
}

/// What a trace row says about the attempt it belongs to (the `MBTX_*`
/// environment of the process).
pub struct TraceContext {
    pub experiment_id: Option<String>,
    pub pair_id: Option<String>,
    pub attempt_id: Option<String>,
    pub task_id: Option<String>,
    pub backend: Option<String>,
}

/// The view of an optional string.
pub open spec fn opt_view(s: Option<String>) -> Option<Seq<char>> {
    match s {
        Some(v) => Some(v@),
        None => None,
    }
}

fn opt_str(s: &Option<String>) -> (r: Option<&str>)
    ensures
        match r { Some(v) => Some(v@), None => None::<Seq<char>> } == opt_view(*s),
{
    match s {
        Some(v) => Some(v.as_str()),
        None => None,
    }
}

/// The text of one trace row (one JSON object and a newline).
pub open spec fn spec_trace_row(
    context: TraceContext,
    phase: Seq<char>,
    event: Seq<char>,
    detail: Seq<char>,
    timestamp: u64,
    pid: u32,
    id: u64,
) -> Seq<char> {
    "{\"schema_version\":2,\"experiment_id\":"@ + spec_json_string(opt_view(context.experiment_id))
        + ",\"pair_id\":"@ + spec_json_string(opt_view(context.pair_id))
        + ",\"attempt_id\":"@ + spec_json_string(opt_view(context.attempt_id))
        + ",\"task_id\":"@ + spec_json_string(opt_view(context.task_id))
        + ",\"backend\":"@ + spec_json_string(opt_view(context.backend))
        + ",\"phase\":\""@ + phase + "\",\"event\":\""@ + event
        + "\",\"parent_id\":null,\"monotonic_ns\":"@ + decimal(timestamp as nat)
        + ",\"clock_domain\":\"os-monotonic\",\"pid\":"@ + decimal(pid as nat)
        + ",\"sequence\":"@ + decimal(id as nat)
        + ",\"exit_code\":null,\"signal\":null,\"stdout_bytes\":null,\"stderr_bytes\":null,\"status\":\"unknown\",\"failure_class\":null,\"confidence\":\"observed\",\"detail\":"@
        + detail + "}\n"@
}

/// Writes one trace row. Phase and event names are written as they are;
/// `detail` is already JSON.
pub fn trace_row(
    context: &TraceContext,
    phase: &str,
    event: &str,
    detail: &str,
    timestamp: u64,
    pid: u32,
    id: u64,
) -> (r: String)
    ensures
        r@ == spec_trace_row(*context, phase@, event@, detail@, timestamp, pid, id),
{
    let mut out = owned("{\"schema_version\":2,\"experiment_id\":");
    let t = json_string(opt_str(&context.experiment_id));
    push_all(&mut out, t.as_str());
    push_all(&mut out, ",\"pair_id\":");
    let t = json_string(opt_str(&context.pair_id));
    push_all(&mut out, t.as_str());
    push_all(&mut out, ",\"attempt_id\":");
    let t = json_string(opt_str(&context.attempt_id));
    push_all(&mut out, t.as_str());
    push_all(&mut out, ",\"task_id\":");
    let t = json_string(opt_str(&context.task_id));
    push_all(&mut out, t.as_str());
    push_all(&mut out, ",\"backend\":");
    let t = json_string(opt_str(&context.backend));
    push_all(&mut out, t.as_str());
    push_all(&mut out, ",\"phase\":\"");
    push_all(&mut out, phase);
    push_all(&mut out, "\",\"event\":\"");
    push_all(&mut out, event);
    push_all(&mut out, "\",\"parent_id\":null,\"monotonic_ns\":");
    push_decimal(&mut out, timestamp);
    push_all(&mut out, ",\"clock_domain\":\"os-monotonic\",\"pid\":");
    push_decimal(&mut out, pid as u64);
    push_all(&mut out, ",\"sequence\":");
    push_decimal(&mut out, id);
    push_all(
        &mut out,
        ",\"exit_code\":null,\"signal\":null,\"stdout_bytes\":null,\"stderr_bytes\":null,\"status\":\"unknown\",\"failure_class\":null,\"confidence\":\"observed\",\"detail\":",
    );
    push_all(&mut out, detail);
    push_all(&mut out, "}\n");
    out
}

/// The detail of a file-descriptor snapshot.
pub open spec fn spec_resources_detail(call_id: Seq<char>, open_fds: Option<usize>) -> Seq<char> {
    "{\"call_id\":"@ + spec_escape_json(call_id) + ",\"open_fds\":"@
        + (match open_fds { Some(n) => decimal(n as nat), None => "null"@ }) + "}"@
}

/// The detail of a file-descriptor snapshot of a tool call.
pub fn resources_detail(call_id: &str, open_fds: Option<usize>) -> (r: String)
    ensures
        r@ == spec_resources_detail(call_id@, open_fds),
{
    let mut out = owned("{\"call_id\":");
    let id = escape_json(call_id);
    push_all(&mut out, id.as_str());
    push_all(&mut out, ",\"open_fds\":");
    match open_fds {
        Some(n) => push_decimal(&mut out, n as u64),
        None => push_all(&mut out, "null"),
    }
    push_all(&mut out, "}");
    out
}

/// The file that keeps the bytes of one stream read.
pub open spec fn spec_stream_file(pid: u32, id: u64, name: Seq<char>) -> Seq<char> {
    "stream-"@ + decimal(pid as nat) + "-"@ + decimal(id as nat) + "-"@ + name + ".bin"@
}

/// The file that keeps the bytes of one stream read.
pub fn stream_file(pid: u32, id: u64, name: &str) -> (r: String)
    ensures
        r@ == spec_stream_file(pid, id, name@),
{
    let mut out = owned("stream-");
    push_decimal(&mut out, pid as u64);
    push_all(&mut out, "-");
    push_decimal(&mut out, id);
    push_all(&mut out, "-");
    push_all(&mut out, name);
    push_all(&mut out, ".bin");
    out
}

/// The event of a stream read: `eof` for an empty read.
pub open spec fn spec_stream_event(len: usize) -> Seq<char> {
    if len == 0 { "eof"@ } else { "read"@ }
}

/// The detail of a stream read.
pub open spec fn spec_stream_detail(id: u64, name: Seq<char>, len: usize, file: Seq<char>) -> Seq<char> {
    "{\"stream_id\":"@ + decimal(id as nat) + ",\"stream\":\""@ + name + "\",\"bytes\":"@
        + decimal(len as nat) + ",\"file\":\""@ + file + "\"}"@
}

/// The event name and detail of a stream read.
pub fn stream_row(id: u64, name: &str, len: usize, file: &str) -> (r: (&'static str, String))
    ensures
        r.0@ == spec_stream_event(len),
        r.1@ == spec_stream_detail(id, name@, len, file@),
{
    let mut out = owned("{\"stream_id\":");
    push_decimal(&mut out, id);
    push_all(&mut out, ",\"stream\":\"");
    push_all(&mut out, name);
    push_all(&mut out, "\",\"bytes\":");
    push_decimal(&mut out, len as u64);
    push_all(&mut out, ",\"file\":\"");
    push_all(&mut out, file);
    push_all(&mut out, "\"}");
    (if len == 0 { "eof" } else { "read" }, out)
}

} // verus!
