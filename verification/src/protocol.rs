//! The MBTX wire contract, independent of the Codex agent and process launcher.
//!
//! A run request is one canonical JSON line. The runner answers with a JSONL
//! stream of lifecycle events that [`Progress`] decodes from arbitrary pipe
//! fragments, enforcing correlation with the admitted request and the order
//! `started`, output (`stdout`/`stderr` with consecutive sequence numbers),
//! then exactly one terminal event.
use vstd::prelude::*;
use crate::json::{
    Json, JsonNumber, JsonValue, Num, copy_string, json_error_text, json_parse, json_text, parse_json, spec_lookup,
    str_eq, to_json_text,
};
use crate::text::{
    byte_len, chars_of, decimal, fit_prefix, i64_text, lemma_fit_prefix, lemma_utf8_len_concat,
    lemma_utf8_len_push, lemma_utf8_len_take, owned, prefix_within, push_all, push_char,
    push_decimal, signed_decimal, utf8_len, utf8_width, width_of,
};

verus! {

/// Largest encoded run request, in bytes.
pub const MAX_REQUEST_BYTES: usize = 32768;
/// Largest runner JSONL frame, in bytes.
pub const MAX_FRAME_BYTES: usize = 1048576;
/// Largest amount of output text one batch carries, in bytes.
pub const MAX_BATCH_BYTES: usize = 8192;
/// Output events a runner may emit per request.
pub const MAX_OUTPUT_EVENTS: usize = 4096;
/// Largest serialized reply handed to the model, in bytes.
pub const MAX_REPLY_BYTES: usize = 8000;

/// The operations the `mbtx` tool accepts.
#[derive(Debug)]
pub enum Arguments {
    Run(RunArguments),
    JobOutput { job_id: String },
    JobStop { job_id: String },
}

/// Arguments of `op = run`.
#[derive(Debug)]
pub struct RunArguments {
    pub source: Option<String>,
    pub script_path: Option<String>,
    pub args: Vec<String>,
    pub cwd: Option<String>,
    pub background: bool,
    pub timeout_ms: u64,
}

/// The timeout applied when a run request names none.
pub fn default_timeout() -> (ms: u64)
    ensures
        ms == 30000,
{
    30000
}

/// A runner failure as reported in a `failed` event.
#[derive(Debug, PartialEq)]
pub struct Failure {
    pub kind: String,
    pub message: String,
}

/// How a runner job ended.
#[derive(Debug, PartialEq)]
pub enum Terminal {
    Completed { exit_code: i32, duration_ms: u64 },
    Stopped { duration_ms: u64 },
    Failed { error: Failure },
}

/// Output text gathered from one batch of runner events, with the number of
/// bytes that did not fit.
#[derive(Debug)]
pub struct Batch {
    pub stdout: String,
    pub stderr: String,
    pub omitted_bytes: usize,
}

/// A decoded runner event.
enum Event {
    Started { id: String, job_id: String },
    Stdout { id: String, job_id: String, seq: usize, data: String },
    Stderr { id: String, job_id: String, seq: usize, data: String },
    Completed { id: String, job_id: String, exit_code: i32, duration_ms: u64 },
    Stopped { id: String, job_id: String, duration_ms: u64 },
    Failed { id: String, job_id: String, error: Failure },
}

/// Decoder state for one admitted request.
pub struct Progress {
    id: String,
    job_id: Option<String>,
    next_seq: usize,
    pending: Vec<u8>,
    pub terminal: Option<Terminal>,
}

// ---------------------------------------------------------------------------
// Mathematical views
// ---------------------------------------------------------------------------

/// The view of a [`Terminal`].
pub enum TerminalView {
    Completed { exit_code: i32, duration_ms: u64 },
    Stopped { duration_ms: u64 },
    Failed { kind: Seq<char>, message: Seq<char> },
}

/// The view of a [`Batch`].
pub struct BatchView {
    pub stdout: Seq<char>,
    pub stderr: Seq<char>,
    pub omitted: nat,
}

/// The view of a [`Progress`].
pub struct ProgressView {
    pub id: Seq<char>,
    pub job_id: Option<Seq<char>>,
    pub next_seq: nat,
    pub pending: Seq<u8>,
    pub terminal: Option<TerminalView>,
}

/// The view of a decoded runner event.
pub enum EventView {
    Started { id: Seq<char>, job_id: Seq<char> },
    Output { stderr: bool, id: Seq<char>, job_id: Seq<char>, seq: nat, data: Seq<char> },
    Completed { id: Seq<char>, job_id: Seq<char>, exit_code: i32, duration_ms: u64 },
    Stopped { id: Seq<char>, job_id: Seq<char>, duration_ms: u64 },
    Failed { id: Seq<char>, job_id: Seq<char>, kind: Seq<char>, message: Seq<char> },
}

/// Why decoding runner output failed.
pub enum IngestError {
    FrameTooLarge,
    Malformed,
    InvalidEvent,
    AfterTerminal,
    BadStart,
    Mismatch,
    BadSequence,
    Overflow,
}

impl Terminal {
    pub open spec fn view(&self) -> TerminalView {
        match self {
            Terminal::Completed { exit_code, duration_ms } => TerminalView::Completed { exit_code: *exit_code, duration_ms: *duration_ms },
            Terminal::Stopped { duration_ms } => TerminalView::Stopped { duration_ms: *duration_ms },
            Terminal::Failed { error } => TerminalView::Failed { kind: error.kind@, message: error.message@ },
        }
    }
}

/// The view of an optional terminal.
pub open spec fn terminal_view(t: Option<Terminal>) -> Option<TerminalView> {
    match t {
        Some(t) => Some(t@),
        None => None,
    }
}

/// The view of an optional string.
pub open spec fn opt_str(s: Option<String>) -> Option<Seq<char>> {
    match s {
        Some(s) => Some(s@),
        None => None,
    }
}

impl Batch {
    pub open spec fn view(&self) -> BatchView {
        BatchView { stdout: self.stdout@, stderr: self.stderr@, omitted: self.omitted_bytes as nat }
    }
}

impl Progress {
    pub closed spec fn view(&self) -> ProgressView {
        ProgressView {
            id: self.id@,
            job_id: opt_str(self.job_id),
            next_seq: self.next_seq as nat,
            pending: self.pending@,
            terminal: terminal_view(self.terminal),
        }
    }

    /// The decoder's bounds: a partial frame never exceeds the frame limit
    /// and at most [`MAX_OUTPUT_EVENTS`] output events were accepted.
    pub closed spec fn wf(&self) -> bool {
        &&& self.pending@.len() <= MAX_FRAME_BYTES
        &&& self.next_seq <= MAX_OUTPUT_EVENTS
    }
}

impl Event {
    spec fn view(&self) -> EventView {
        match self {
            Event::Started { id, job_id } => EventView::Started { id: id@, job_id: job_id@ },
            Event::Stdout { id, job_id, seq, data } => EventView::Output { stderr: false, id: id@, job_id: job_id@, seq: *seq as nat, data: data@ },
            Event::Stderr { id, job_id, seq, data } => EventView::Output { stderr: true, id: id@, job_id: job_id@, seq: *seq as nat, data: data@ },
            Event::Completed { id, job_id, exit_code, duration_ms } => EventView::Completed { id: id@, job_id: job_id@, exit_code: *exit_code, duration_ms: *duration_ms },
            Event::Stopped { id, job_id, duration_ms } => EventView::Stopped { id: id@, job_id: job_id@, duration_ms: *duration_ms },
            Event::Failed { id, job_id, error } => EventView::Failed { id: id@, job_id: job_id@, kind: error.kind@, message: error.message@ },
        }
    }
}

// ---------------------------------------------------------------------------
// Event decoding
// ---------------------------------------------------------------------------

/// The variant a runner event's `event` tag selects: one of the six
/// snake_case names, or its index among them.
pub open spec fn spec_tag_variant(tag: Json) -> Option<nat> {
    match tag {
        Json::Str(s) => if s == "started"@ { Some(0) } else if s == "stdout"@ { Some(1) }
            else if s == "stderr"@ { Some(2) } else if s == "completed"@ { Some(3) }
            else if s == "stopped"@ { Some(4) } else if s == "failed"@ { Some(5) } else { None },
        Json::Number(Num::PosInt(u)) => if u < 6 { Some(u as nat) } else { None },
        _ => None,
    }
}

/// How many fields the variant carries.
pub open spec fn spec_arity(k: nat) -> nat {
    if k == 0 { 2 } else if k == 1 || k == 2 || k == 3 { 4 } else { 3 }
}

/// The name of field `i` of variant `k`, in declaration order.
pub open spec fn spec_field_name(k: nat, i: nat) -> Seq<char> {
    if i == 0 { "id"@ } else if i == 1 { "job_id"@ }
    else if k == 1 || k == 2 { if i == 2 { "seq"@ } else { "data"@ } }
    else if k == 3 { if i == 2 { "exit_code"@ } else { "duration_ms"@ } }
    else if k == 4 { "duration_ms"@ }
    else { "error"@ }
}

/// The variant of an event value: the tag member of an object, or the first
/// element of an array that holds exactly the variant's fields after it.
pub open spec fn spec_event_variant(v: Json) -> Option<nat> {
    match v {
        Json::Object(ms) => match spec_lookup(ms, "event"@) {
            Some(t) => spec_tag_variant(t),
            None => None,
        },
        Json::Array(items) => if items.len() >= 1 {
            match spec_tag_variant(items[0]) {
                Some(k) => if items.len() == spec_arity(k) + 1 { Some(k) } else { None },
                None => None,
            }
        } else {
            None
        },
        _ => None,
    }
}

/// Field `i` of an event of variant `k`: the member of that name, or the
/// element after the tag.
pub open spec fn spec_event_field(v: Json, k: nat, i: nat) -> Option<Json> {
    match v {
        Json::Object(ms) => spec_lookup(ms, spec_field_name(k, i)),
        Json::Array(items) => if i + 1 < items.len() { Some(items[i + 1int]) } else { None },
        _ => None,
    }
}

/// A string field.
pub open spec fn spec_text(o: Option<Json>) -> Option<Seq<char>> {
    match o {
        Some(Json::Str(s)) => Some(s),
        _ => None,
    }
}

/// A `usize` field: a non-negative integer that fits.
pub open spec fn spec_usize(o: Option<Json>) -> Option<nat> {
    match o {
        Some(Json::Number(Num::PosInt(u))) => if u <= usize::MAX { Some(u as nat) } else { None },
        _ => None,
    }
}

/// An `i32` field: an integer in range.
pub open spec fn spec_i32(o: Option<Json>) -> Option<i32> {
    match o {
        Some(Json::Number(Num::PosInt(u))) => if u <= i32::MAX { Some(u as i32) } else { None },
        Some(Json::Number(Num::NegInt(i))) => if i >= i32::MIN { Some(i as i32) } else { None },
        _ => None,
    }
}

/// A `u64` field.
pub open spec fn spec_u64(o: Option<Json>) -> Option<u64> {
    match o {
        Some(Json::Number(Num::PosInt(u))) => Some(u),
        _ => None,
    }
}

/// A `Failure` field: an object with string `kind` and `message` members, or
/// an array of exactly those two strings.
pub open spec fn spec_failure(o: Option<Json>) -> Option<(Seq<char>, Seq<char>)> {
    match o {
        Some(Json::Object(ms)) => match (spec_text(spec_lookup(ms, "kind"@)), spec_text(spec_lookup(ms, "message"@))) {
            (Some(k), Some(m)) => Some((k, m)),
            _ => None,
        },
        Some(Json::Array(items)) => if items.len() == 2 {
            match (spec_text(Some(items[0])), spec_text(Some(items[1]))) {
                (Some(k), Some(m)) => Some((k, m)),
                _ => None,
            }
        } else {
            None
        },
        _ => None,
    }
}

/// The runner event a JSON value denotes, as the internally tagged
/// `#[serde(tag = "event")]` decoding reads it.
pub open spec fn spec_decode_event(v: Json) -> Option<EventView> {
    match spec_event_variant(v) {
        None => None,
        Some(k) => {
            let id = spec_text(spec_event_field(v, k, 0));
            let job = spec_text(spec_event_field(v, k, 1));
            if id is None || job is None {
                None
            } else if k == 0 {
                Some(EventView::Started { id: id->0, job_id: job->0 })
            } else if k == 1 || k == 2 {
                match (spec_usize(spec_event_field(v, k, 2)), spec_text(spec_event_field(v, k, 3))) {
                    (Some(seq), Some(data)) => Some(EventView::Output { stderr: k == 2, id: id->0, job_id: job->0, seq, data }),
                    _ => None,
                }
            } else if k == 3 {
                match (spec_i32(spec_event_field(v, k, 2)), spec_u64(spec_event_field(v, k, 3))) {
                    (Some(code), Some(ms)) => Some(EventView::Completed { id: id->0, job_id: job->0, exit_code: code, duration_ms: ms }),
                    _ => None,
                }
            } else if k == 4 {
                match spec_u64(spec_event_field(v, k, 2)) {
                    Some(ms) => Some(EventView::Stopped { id: id->0, job_id: job->0, duration_ms: ms }),
                    None => None,
                }
            } else {
                match spec_failure(spec_event_field(v, k, 2)) {
                    Some((kind, message)) => Some(EventView::Failed { id: id->0, job_id: job->0, kind, message }),
                    None => None,
                }
            }
        },
    }
}

/// The event a complete frame carries: its JSON text decoded as an event.
pub open spec fn spec_frame_event(frame: Seq<u8>) -> Option<EventView> {
    match json_parse(frame) {
        Some(v) => spec_decode_event(v),
        None => None,
    }
}

fn tag_variant(tag: &JsonValue) -> (r: Option<usize>)
    ensures
        match r {
            Some(k) => spec_tag_variant(tag@) == Some(k as nat),
            None => spec_tag_variant(tag@) is None,
        },
{
    match tag {
        JsonValue::Str(s) => {
            let s = s.as_str();
            if str_eq(s, "started") { Some(0) } else if str_eq(s, "stdout") { Some(1) }
            else if str_eq(s, "stderr") { Some(2) } else if str_eq(s, "completed") { Some(3) }
            else if str_eq(s, "stopped") { Some(4) } else if str_eq(s, "failed") { Some(5) } else { None }
        },
        JsonValue::Number(JsonNumber::PosInt(u)) => if *u < 6 { Some(*u as usize) } else { None },
        _ => None,
    }
}

fn arity(k: usize) -> (n: usize)
    requires
        k < 6,
    ensures
        n == spec_arity(k as nat),
{
    if k == 0 { 2 } else if k == 1 || k == 2 || k == 3 { 4 } else { 3 }
}

fn field_name(k: usize, i: usize) -> (name: &'static str)
    ensures
        name@ == spec_field_name(k as nat, i as nat),
{
    if i == 0 { "id" } else if i == 1 { "job_id" }
    else if k == 1 || k == 2 { if i == 2 { "seq" } else { "data" } }
    else if k == 3 { if i == 2 { "exit_code" } else { "duration_ms" } }
    else if k == 4 { "duration_ms" }
    else { "error" }
}

fn event_variant(v: &JsonValue) -> (r: Option<usize>)
    ensures
        match r {
            Some(k) => spec_event_variant(v@) == Some(k as nat) && k < 6,
            None => spec_event_variant(v@) is None,
        },
{
    match v {
        JsonValue::Object(_) => {
            match v.get("event") {
                Some(t) => tag_variant(t),
                None => None,
            }
        },
        JsonValue::Array(items) => {
            if items.len() >= 1 {
                match tag_variant(&items[0]) {
                    Some(k) => if items.len() - 1 == arity(k) { Some(k) } else { None },
                    None => None,
                }
            } else {
                None
            }
        },
        _ => None,
    }
}

fn event_field<'a>(v: &'a JsonValue, k: usize, i: usize) -> (r: Option<&'a JsonValue>)
    requires
        i < 4,
    ensures
        match r {
            Some(f) => spec_event_field(v@, k as nat, i as nat) == Some(f@),
            None => spec_event_field(v@, k as nat, i as nat) is None,
        },
{
    match v {
        JsonValue::Object(_) => {
            let r = v.get(field_name(k, i));
            r
        },
        JsonValue::Array(items) => if i + 1 < items.len() { Some(&items[i + 1]) } else { None },
        _ => None,
    }
}

fn text_field(f: Option<&JsonValue>) -> (r: Option<String>)
    ensures
        opt_str(r) == spec_text(opt_view_ref(f)),
{
    match f {
        Some(JsonValue::Str(s)) => Some(copy_string(s)),
        _ => None,
    }
}

/// The view of an optional reference.
pub open spec fn opt_view_ref(o: Option<&JsonValue>) -> Option<Json> {
    match o {
        Some(v) => Some(v@),
        None => None,
    }
}

fn usize_field(f: Option<&JsonValue>) -> (r: Option<usize>)
    ensures
        match r {
            Some(u) => spec_usize(opt_view_ref(f)) == Some(u as nat),
            None => spec_usize(opt_view_ref(f)) is None,
        },
{
    match f {
        Some(JsonValue::Number(JsonNumber::PosInt(u))) => if *u <= usize::MAX as u64 { Some(*u as usize) } else { None },
        _ => None,
    }
}

fn i32_field(f: Option<&JsonValue>) -> (r: Option<i32>)
    ensures
        r == spec_i32(opt_view_ref(f)),
{
    match f {
        Some(JsonValue::Number(JsonNumber::PosInt(u))) => if *u <= i32::MAX as u64 { Some(*u as i32) } else { None },
        Some(JsonValue::Number(JsonNumber::NegInt(i))) => if *i >= i32::MIN as i64 { Some(*i as i32) } else { None },
        _ => None,
    }
}

fn u64_field(f: Option<&JsonValue>) -> (r: Option<u64>)
    ensures
        r == spec_u64(opt_view_ref(f)),
{
    match f {
        Some(JsonValue::Number(JsonNumber::PosInt(u))) => Some(*u),
        _ => None,
    }
}

fn failure_field(f: Option<&JsonValue>) -> (r: Option<Failure>)
    ensures
        match r {
            Some(e) => spec_failure(opt_view_ref(f)) == Some((e.kind@, e.message@)),
            None => spec_failure(opt_view_ref(f)) is None,
        },
{
    match f {
        Some(v) => match v {
            JsonValue::Object(_) => {
                match (text_field(v.get("kind")), text_field(v.get("message"))) {
                    (Some(kind), Some(message)) => Some(Failure { kind, message }),
                    _ => None,
                }
            },
            JsonValue::Array(items) => {
                if items.len() == 2 {
                    match (text_field(Some(&items[0])), text_field(Some(&items[1]))) {
                        (Some(kind), Some(message)) => Some(Failure { kind, message }),
                        _ => None,
                    }
                } else {
                    None
                }
            },
            _ => None,
        },
        None => None,
    }
}

fn decode_event(v: &JsonValue) -> (r: Option<Event>)
    ensures
        match r {
            Some(e) => spec_decode_event(v@) == Some(e@),
            None => spec_decode_event(v@) is None,
        },
{
    let k = match event_variant(v) {
        Some(k) => k,
        None => return None,
    };
    let id = match text_field(event_field(v, k, 0)) {
        Some(id) => id,
        None => return None,
    };
    let job_id = match text_field(event_field(v, k, 1)) {
        Some(job_id) => job_id,
        None => return None,
    };
    if k == 0 {
        Some(Event::Started { id, job_id })
    } else if k == 1 || k == 2 {
        match (usize_field(event_field(v, k, 2)), text_field(event_field(v, k, 3))) {
            (Some(seq), Some(data)) => if k == 1 {
                Some(Event::Stdout { id, job_id, seq, data })
            } else {
                Some(Event::Stderr { id, job_id, seq, data })
            },
            _ => None,
        }
    } else if k == 3 {
        match (i32_field(event_field(v, k, 2)), u64_field(event_field(v, k, 3))) {
            (Some(exit_code), Some(duration_ms)) => Some(Event::Completed { id, job_id, exit_code, duration_ms }),
            _ => None,
        }
    } else if k == 4 {
        match u64_field(event_field(v, k, 2)) {
            Some(duration_ms) => Some(Event::Stopped { id, job_id, duration_ms }),
            None => None,
        }
    } else {
        match failure_field(event_field(v, k, 2)) {
            Some(error) => Some(Event::Failed { id, job_id, error }),
            None => None,
        }
    }
}


// ---------------------------------------------------------------------------
// Output batches
// ---------------------------------------------------------------------------

/// Appends the first `n` characters of `chars` to `out` and returns their
/// encoded length in bytes.
fn push_prefix(out: &mut String, chars: &[char], n: usize) -> (bytes: usize)
    requires
        n <= chars@.len(),
        utf8_len(chars@) <= usize::MAX,
    ensures
        final(out)@ == old(out)@ + chars@.take(n as int),
        bytes == utf8_len(chars@.take(n as int)),
{
    let mut i: usize = 0;
    let mut bytes: usize = 0;
    proof {
        assert(chars@.take(0) =~= Seq::<char>::empty());
        assert(encode_utf8_empty() == 0);
    }
    while i < n
        invariant
            n <= chars@.len(),
            i <= n,
            utf8_len(chars@) <= usize::MAX,
            out@ == old(out)@ + chars@.take(i as int),
            bytes == utf8_len(chars@.take(i as int)),
        decreases n - i,
    {
        let c = chars[i];
        let w = width_of(c);
        proof {
            assert(chars@.take(i + 1) =~= chars@.take(i as int).push(c));
            lemma_utf8_len_push(chars@.take(i as int), c);
            lemma_utf8_len_take(chars@, i + 1);
        }
        push_char(out, c);
        bytes = bytes + w;
        i += 1;
    }
    bytes
}

/// `utf8_len` of the empty sequence is zero.
pub open spec fn encode_utf8_empty() -> nat {
    utf8_len(Seq::<char>::empty())
}

/// Bytes still free in a batch whose texts hold `used` bytes.
pub open spec fn spec_available(used: nat) -> nat {
    if used >= MAX_BATCH_BYTES { 0 } else { (MAX_BATCH_BYTES - used) as nat }
}

/// A batch after appending `data` to one of its streams: the longest prefix
/// of `data` that fits in the remaining [`MAX_BATCH_BYTES`] (cut at a
/// character boundary) is kept and the rest is counted as omitted.
pub open spec fn spec_append(b: BatchView, data: Seq<char>, stderr: bool) -> BatchView {
    let available = spec_available(utf8_len(b.stdout) + utf8_len(b.stderr));
    let taken = data.take(fit_prefix(data, available as int) as int);
    BatchView {
        stdout: if stderr { b.stdout } else { b.stdout + taken },
        stderr: if stderr { b.stderr + taken } else { b.stderr },
        omitted: b.omitted + (utf8_len(data) - utf8_len(taken)) as nat,
    }
}

impl Batch {
    /// An empty batch.
    pub fn new() -> (b: Batch)
        ensures
            b@ == (BatchView { stdout: Seq::empty(), stderr: Seq::empty(), omitted: 0 }),
    {
        Batch { stdout: String::new(), stderr: String::new(), omitted_bytes: 0 }
    }

    /// Appends output text, keeping the batch within [`MAX_BATCH_BYTES`].
    pub fn append(&mut self, data: &str, stderr: bool)
        requires
            utf8_len(old(self).stdout@) + utf8_len(old(self).stderr@) <= usize::MAX,
            old(self).omitted_bytes + utf8_len(data@) <= usize::MAX,
        ensures
            final(self)@ == spec_append(old(self)@, data@, stderr),
    {
        let used = self.stdout.as_str().len() + self.stderr.as_str().len();
        let available = if used >= MAX_BATCH_BYTES { 0 } else { MAX_BATCH_BYTES - used };
        let total = data.len();
        let chars = chars_of(data);
        let n = prefix_within(chars.as_slice(), available);
        proof {
            lemma_fit_prefix(chars@, available as int);
        }
        let kept = if stderr {
            push_prefix(&mut self.stderr, chars.as_slice(), n)
        } else {
            push_prefix(&mut self.stdout, chars.as_slice(), n)
        };
        proof {
            lemma_utf8_len_take(chars@, n as int);
        }
        self.omitted_bytes = self.omitted_bytes + (total - kept);
    }
}

impl Default for Batch {
    fn default() -> (b: Batch)
        ensures
            b@ == (BatchView { stdout: Seq::empty(), stderr: Seq::empty(), omitted: 0 }),
    {
        Batch::new()
    }
}


// ---------------------------------------------------------------------------
// Lifecycle decoding
// ---------------------------------------------------------------------------

/// The message each decoding failure is reported with.
pub open spec fn spec_ingest_message(e: IngestError) -> Seq<char> {
    match e {
        IngestError::FrameTooLarge => "runner JSONL frame exceeds 1 MiB"@,
        IngestError::Malformed => "invalid runner JSONL: "@,
        IngestError::InvalidEvent => "invalid runner JSONL: not a runner event"@,
        IngestError::AfterTerminal => "runner emitted an event after its terminal event"@,
        IngestError::BadStart => "invalid or duplicate runner started event"@,
        IngestError::Mismatch => "runner event does not match the admitted request and job"@,
        IngestError::BadSequence => "runner output sequence is missing, duplicated, or over limit"@,
        IngestError::Overflow => "runner output exceeds the addressable byte count"@,
    }
}

/// The message an ingest error is reported with, given the state it left:
/// a frame that is not JSON at all is reported with `serde_json`'s own
/// message about that frame.
pub open spec fn spec_error_text(p: ProgressView, e: IngestError) -> Seq<char> {
    match e {
        IngestError::Malformed => "invalid runner JSONL: "@ + json_error_text(p.pending),
        _ => spec_ingest_message(e),
    }
}

fn ingest_message(e: IngestError) -> (m: String)
    ensures
        m@ == spec_ingest_message(e),
{
    match e {
        IngestError::FrameTooLarge => owned("runner JSONL frame exceeds 1 MiB"),
        IngestError::Malformed => owned("invalid runner JSONL: "),
        IngestError::InvalidEvent => owned("invalid runner JSONL: not a runner event"),
        IngestError::AfterTerminal => owned("runner emitted an event after its terminal event"),
        IngestError::BadStart => owned("invalid or duplicate runner started event"),
        IngestError::Mismatch => owned("runner event does not match the admitted request and job"),
        IngestError::BadSequence => owned("runner output sequence is missing, duplicated, or over limit"),
        IngestError::Overflow => owned("runner output exceeds the addressable byte count"),
    }
}

/// Whether an event names the admitted request and the job it started.
pub open spec fn spec_correlates(p: ProgressView, id: Seq<char>, job_id: Seq<char>) -> bool {
    id == p.id && p.job_id == Some(job_id)
}

/// The state, batch and error after applying one event to a state that has
/// no terminal event yet.
pub open spec fn spec_apply(p: ProgressView, b: BatchView, e: EventView) -> (ProgressView, BatchView, Option<IngestError>) {
    match e {
        EventView::Started { id, job_id } => {
            if id != p.id || job_id.len() == 0 || p.job_id is Some {
                (p, b, Some(IngestError::BadStart))
            } else {
                (ProgressView { job_id: Some(job_id), ..p }, b, None)
            }
        },
        EventView::Output { stderr, id, job_id, seq, data } => {
            if !spec_correlates(p, id, job_id) {
                (p, b, Some(IngestError::Mismatch))
            } else if seq != p.next_seq || seq >= MAX_OUTPUT_EVENTS {
                (p, b, Some(IngestError::BadSequence))
            } else {
                let p1 = ProgressView { next_seq: p.next_seq + 1, ..p };
                if b.omitted + utf8_len(data) > usize::MAX {
                    (p1, b, Some(IngestError::Overflow))
                } else {
                    (p1, spec_append(b, data, stderr), None)
                }
            }
        },
        EventView::Completed { id, job_id, exit_code, duration_ms } => {
            if !spec_correlates(p, id, job_id) {
                (p, b, Some(IngestError::Mismatch))
            } else {
                (ProgressView { terminal: Some(TerminalView::Completed { exit_code, duration_ms }), ..p }, b, None)
            }
        },
        EventView::Stopped { id, job_id, duration_ms } => {
            if !spec_correlates(p, id, job_id) {
                (p, b, Some(IngestError::Mismatch))
            } else {
                (ProgressView { terminal: Some(TerminalView::Stopped { duration_ms }), ..p }, b, None)
            }
        },
        EventView::Failed { id, job_id, kind, message } => {
            if !spec_correlates(p, id, job_id) {
                (p, b, Some(IngestError::Mismatch))
            } else {
                let kind = kind.take(fit_prefix(kind, 64) as int);
                let message = message.take(fit_prefix(message, 512) as int);
                (ProgressView { terminal: Some(TerminalView::Failed { kind, message }), ..p }, b, None)
            }
        },
    }
}

/// The length of the first newline-terminated segment of `bytes` (all of it
/// when it holds no newline).
pub open spec fn spec_segment_len(bytes: Seq<u8>) -> nat
    decreases bytes.len(),
{
    if bytes.len() == 0 {
        0
    } else if bytes[0] == 10 {
        1
    } else {
        1 + spec_segment_len(bytes.drop_first())
    }
}

/// Decoding `bytes` from state `p` into batch `b`: each newline-terminated
/// frame (joined with the partial frame carried over from earlier input) is
/// decoded as one event; an unterminated tail is carried over. Returns the
/// final state, the batch, and the error that stopped decoding, if any.
pub open spec fn spec_ingest(p: ProgressView, bytes: Seq<u8>, b: BatchView) -> (ProgressView, BatchView, Option<IngestError>)
    decreases bytes.len(),
{
    if bytes.len() == 0 {
        (p, b, None)
    } else {
        let n = spec_segment_len(bytes);
        proof {
            lemma_segment_len_bounds(bytes);
        }
        if n == 0 {
            (p, b, None)
        } else if p.pending.len() + n > MAX_FRAME_BYTES {
            (p, b, Some(IngestError::FrameTooLarge))
        } else {
            let frame = p.pending + bytes.take(n as int);
            let p1 = ProgressView { pending: frame, ..p };
            if bytes[n - 1] != 10 {
                spec_ingest(p1, bytes.skip(n as int), b)
            } else {
                match spec_frame_event(frame) {
                    None => (p1, b, Some(if json_parse(frame) is None { IngestError::Malformed } else { IngestError::InvalidEvent })),
                    Some(e) => {
                        let p2 = ProgressView { pending: Seq::empty(), ..p1 };
                        if p2.terminal is Some {
                            (p2, b, Some(IngestError::AfterTerminal))
                        } else {
                            let (p3, b3, err) = spec_apply(p2, b, e);
                            if err is Some {
                                (p3, b3, err)
                            } else {
                                spec_ingest(p3, bytes.skip(n as int), b3)
                            }
                        }
                    },
                }
            }
        }
    }
}

/// The batch text never exceeds the batch limit.
pub open spec fn batch_bounded(b: BatchView) -> bool {
    utf8_len(b.stdout) + utf8_len(b.stderr) <= MAX_BATCH_BYTES
}

/// Appending keeps a bounded batch bounded.
proof fn lemma_append_bounded(b: BatchView, data: Seq<char>, stderr: bool)
    requires
        batch_bounded(b),
    ensures
        batch_bounded(spec_append(b, data, stderr)),
{
    let available = spec_available(utf8_len(b.stdout) + utf8_len(b.stderr));
    lemma_fit_prefix(data, available as int);
    let taken = data.take(fit_prefix(data, available as int) as int);
    lemma_utf8_len_concat(b.stdout, taken);
    lemma_utf8_len_concat(b.stderr, taken);
}

/// A non-empty input has a segment of at least one byte.
pub proof fn lemma_segment_len_bounds(bytes: Seq<u8>)
    ensures
        spec_segment_len(bytes) <= bytes.len(),
        bytes.len() > 0 ==> spec_segment_len(bytes) >= 1,
    decreases bytes.len(),
{
    if bytes.len() > 0 {
        lemma_segment_len_bounds(bytes.drop_first());
    }
}

/// Characterizes the segment length by the position of the first newline.
proof fn lemma_segment_len(bytes: Seq<u8>, k: int)
    requires
        0 <= k <= bytes.len(),
        forall|j: int| 0 <= j < k ==> bytes[j] != 10,
        k == bytes.len() || bytes[k] == 10,
    ensures
        spec_segment_len(bytes) == if k == bytes.len() { k } else { k + 1 },
    decreases k,
{
    if k > 0 {
        lemma_segment_len(bytes.drop_first(), k - 1);
    }
}

impl Progress {
    /// A decoder for the request with id `id`, before any runner output.
    pub fn new(id: String) -> (p: Progress)
        ensures
            p@ == (ProgressView { id: id@, job_id: None, next_seq: 0, pending: Seq::empty(), terminal: None }),
            p.wf(),
    {
        Progress { id, job_id: None, next_seq: 0, pending: Vec::new(), terminal: None }
    }

    /// Checks that an event names the admitted request and its job.
    fn correlate(&self, id: &str, job_id: &str) -> (r: Result<(), String>)
        ensures
            r is Ok == spec_correlates(self@, id@, job_id@),
            r is Err ==> r->Err_0@ == spec_ingest_message(IngestError::Mismatch),
    {
        let matches = match &self.job_id {
            Some(j) => str_eq(self.id.as_str(), id) && str_eq(j.as_str(), job_id),
            None => false,
        };
        if matches {
            Ok(())
        } else {
            Err(ingest_message(IngestError::Mismatch))
        }
    }

    /// Admits one output event: it must be correlated and carry the next
    /// sequence number, below [`MAX_OUTPUT_EVENTS`].
    fn output_event(&mut self, id: &str, job_id: &str, seq: usize) -> (r: Result<(), IngestError>)
        requires
            old(self).wf(),
        ensures
            final(self).wf(),
            !spec_correlates(old(self)@, id@, job_id@) ==> r == Err::<(), IngestError>(IngestError::Mismatch) && final(self)@ == old(self)@,
            spec_correlates(old(self)@, id@, job_id@) && (seq != old(self)@.next_seq || seq >= MAX_OUTPUT_EVENTS)
                ==> r == Err::<(), IngestError>(IngestError::BadSequence) && final(self)@ == old(self)@,
            spec_correlates(old(self)@, id@, job_id@) && seq == old(self)@.next_seq && seq < MAX_OUTPUT_EVENTS
                ==> r is Ok && final(self)@ == (ProgressView { next_seq: old(self)@.next_seq + 1, ..old(self)@ }),
    {
        if self.correlate(id, job_id).is_err() {
            return Err(IngestError::Mismatch);
        }
        if seq != self.next_seq || seq >= MAX_OUTPUT_EVENTS {
            return Err(IngestError::BadSequence);
        }
        self.next_seq = self.next_seq + 1;
        Ok(())
    }

    /// Applies one decoded event (the state has no terminal event yet).
    fn apply(&mut self, e: Event, batch: &mut Batch) -> (err: Option<IngestError>)
        requires
            old(self).wf(),
            batch_bounded(old(batch)@),
        ensures
            final(self).wf(),
            batch_bounded(final(batch)@),
            (final(self)@, final(batch)@, err) == spec_apply(old(self)@, old(batch)@, e@),
    {
        match e {
            Event::Started { id, job_id } => {
                if !str_eq(id.as_str(), self.id.as_str()) || job_id.as_str().is_empty() || self.job_id.is_some() {
                    return Some(IngestError::BadStart);
                }
                self.job_id = Some(job_id);
                None
            },
            Event::Stdout { id, job_id, seq, data } => {
                match self.output_event(id.as_str(), job_id.as_str(), seq) {
                    Err(e) => return Some(e),
                    Ok(()) => {},
                }
                if byte_len(data.as_str()) > usize::MAX - batch.omitted_bytes {
                    return Some(IngestError::Overflow);
                }
                proof { lemma_append_bounded(batch@, data@, false); }
                batch.append(data.as_str(), false);
                None
            },
            Event::Stderr { id, job_id, seq, data } => {
                match self.output_event(id.as_str(), job_id.as_str(), seq) {
                    Err(e) => return Some(e),
                    Ok(()) => {},
                }
                if byte_len(data.as_str()) > usize::MAX - batch.omitted_bytes {
                    return Some(IngestError::Overflow);
                }
                proof { lemma_append_bounded(batch@, data@, true); }
                batch.append(data.as_str(), true);
                None
            },
            Event::Completed { id, job_id, exit_code, duration_ms } => {
                if self.correlate(id.as_str(), job_id.as_str()).is_err() {
                    return Some(IngestError::Mismatch);
                }
                self.terminal = Some(Terminal::Completed { exit_code, duration_ms });
                None
            },
            Event::Stopped { id, job_id, duration_ms } => {
                if self.correlate(id.as_str(), job_id.as_str()).is_err() {
                    return Some(IngestError::Mismatch);
                }
                self.terminal = Some(Terminal::Stopped { duration_ms });
                None
            },
            Event::Failed { id, job_id, error } => {
                if self.correlate(id.as_str(), job_id.as_str()).is_err() {
                    return Some(IngestError::Mismatch);
                }
                let kind = truncate_to(error.kind.as_str(), 64);
                let message = truncate_to(error.message.as_str(), 512);
                self.terminal = Some(Terminal::Failed { error: Failure { kind, message } });
                None
            },
        }
    }

    /// Decodes arbitrary pipe fragments, enforcing correlation and lifecycle
    /// order. Complete frames are decoded as events; a trailing partial
    /// frame is kept for the next call.
    pub fn ingest(&mut self, bytes: &[u8]) -> (r: Result<Batch, String>)
        requires
            old(self).wf(),
        ensures
            final(self).wf(),
            ({
                let (p, b, err) = spec_ingest(old(self)@, bytes@, BatchView { stdout: Seq::empty(), stderr: Seq::empty(), omitted: 0 });
                &&& final(self)@ == p
                &&& match err {
                    None => r is Ok && r->Ok_0@ == b,
                    Some(e) => r is Err && r->Err_0@ == spec_error_text(final(self)@, e),
                }
            }),
    {
        let mut batch = Batch::new();
        let mut start: usize = 0;
        let ghost whole = spec_ingest(old(self)@, bytes@, batch@);
        proof {
            assert(bytes@.skip(0) =~= bytes@);
            assert(utf8_len(Seq::<char>::empty()) == 0) by {
                assert(vstd::utf8::encode_utf8(Seq::<char>::empty()) =~= Seq::<u8>::empty());
            }
        }
        while start < bytes.len()
            invariant
                start <= bytes.len(),
                self.wf(),
                batch_bounded(batch@),
                whole == spec_ingest(old(self)@, bytes@, BatchView { stdout: Seq::empty(), stderr: Seq::empty(), omitted: 0 }),
                whole == spec_ingest(self@, bytes@.skip(start as int), batch@),
            decreases bytes.len() - start,
        {
            let ghost rest = bytes@.skip(start as int);
            let mut end = start;
            while end < bytes.len() && bytes[end] != 10u8
                invariant
                    start <= end <= bytes.len(),
                    forall|j: int| start <= j < end ==> bytes@[j] != 10,
                decreases bytes.len() - end,
            {
                end += 1;
            }
            proof {
                lemma_segment_len(rest, (end - start) as int);
            }
            if end < bytes.len() {
                end += 1;
            }
            let n = end - start;
            assert(n == spec_segment_len(rest));
            if n > MAX_FRAME_BYTES - self.pending.len() {
                return Err(ingest_message(IngestError::FrameTooLarge));
            }
            let ghost old_pending = self.pending@;
            let ghost before = self@;
            let ghost old_seq = self.next_seq;
            let mut i = start;
            while i < end
                invariant
                    start <= i <= end,
                    end <= bytes.len(),
                    self.pending@ == old_pending + bytes@.subrange(start as int, i as int),
                    self@ == (ProgressView { pending: self.pending@, ..before }),
                    self.next_seq == old_seq,
                decreases end - i,
            {
                self.pending.push(bytes[i]);
                assert(bytes@.subrange(start as int, i + 1) =~= bytes@.subrange(start as int, i as int).push(bytes@[i as int]));
                i += 1;
            }
            assert(bytes@.subrange(start as int, end as int) =~= rest.take(n as int));
            assert(rest.skip(n as int) =~= bytes@.skip(end as int));
            assert(rest[n - 1] == bytes@[end - 1]);
            if bytes[end - 1] != 10u8 {
                start = end;
                continue;
            }
            let parsed = crate::json::parse_json_or_message(self.pending.as_slice());
            let event = match parsed {
                Ok(v) => decode_event(&v),
                Err(m) => {
                    let mut text = ingest_message(IngestError::Malformed);
                    crate::text::push_all(&mut text, m.as_str());
                    return Err(text);
                },
            };
            let event = match event {
                Some(e) => e,
                None => return Err(ingest_message(IngestError::InvalidEvent)),
            };
            self.pending = Vec::new();
            if self.terminal.is_some() {
                return Err(ingest_message(IngestError::AfterTerminal));
            }
            match self.apply(event, &mut batch) {
                Some(e) => return Err(ingest_message(e)),
                None => {},
            }
            start = end;
        }
        Ok(batch)
    }

    /// Checks the runner's exit: it must exit with code 0 after a complete
    /// terminal event and no partial frame.
    pub fn finish(&self, runner_exit_code: i32) -> (r: Result<(), String>)
        ensures
            runner_exit_code != 0 ==> r is Err && r->Err_0@ == "runner exited with code "@ + signed_decimal(runner_exit_code as int),
            runner_exit_code == 0 && (self@.pending.len() > 0 || self@.terminal is None)
                ==> r is Err && r->Err_0@ == "runner exited without a complete terminal event"@,
            runner_exit_code == 0 && self@.pending.len() == 0 && self@.terminal is Some ==> r is Ok,
    {
        if runner_exit_code != 0 {
            let mut message = owned("runner exited with code ");
            let code = i64_text(runner_exit_code as i64);
            push_all(&mut message, code.as_str());
            return Err(message);
        }
        if self.pending.len() > 0 || self.terminal.is_none() {
            return Err(owned("runner exited without a complete terminal event"));
        }
        Ok(())
    }

    /// The job id the runner reported when it started.
    pub fn job_id(&self) -> (r: Option<&str>)
        ensures
            match r {
                Some(s) => self@.job_id == Some(s@),
                None => self@.job_id is None,
            },
    {
        match &self.job_id {
            Some(j) => Some(j.as_str()),
            None => None,
        }
    }
}

/// The longest prefix of `s` that fits in `limit` bytes, cut at a character
/// boundary (`String::truncate(floor_char_boundary(limit))`).
pub fn truncate_to(s: &str, limit: usize) -> (r: String)
    ensures
        r@ == s@.take(fit_prefix(s@, limit as int) as int),
{
    let chars = chars_of(s);
    let n = prefix_within(chars.as_slice(), limit);
    proof { lemma_fit_prefix(chars@, limit as int); }
    let mut out = String::new();
    let mut i: usize = 0;
    while i < n
        invariant
            n <= chars@.len(),
            i <= n,
            out@ == chars@.take(i as int),
        decreases n - i,
    {
        push_char(&mut out, chars[i]);
        assert(chars@.take(i + 1) =~= chars@.take(i as int).push(chars@[i as int]));
        i += 1;
    }
    out
}


// ---------------------------------------------------------------------------
// Run requests
// ---------------------------------------------------------------------------

/// The view of a list of strings.
pub open spec fn strings_view(v: Seq<String>) -> Seq<Seq<char>> {
    Seq::new(v.len(), |i: int| v[i]@)
}

/// `text.ends_with(suffix)`.
pub open spec fn spec_ends_with(text: Seq<char>, suffix: Seq<char>) -> bool {
    text.len() >= suffix.len() && text.skip(text.len() - suffix.len()) == suffix
}

/// A text that the runner cannot take as an id, directory or script:
/// blank (`trim().is_empty()`) or holding a NUL character.
pub open spec fn spec_unusable(text: Seq<char>) -> bool {
    crate::text::is_blank(text) || text.contains('\0')
}

/// A JSON array of strings.
pub open spec fn spec_string_array(items: Seq<Seq<char>>) -> Json {
    Json::Array(Seq::new(items.len(), |i: int| Json::Str(items[i])))
}

/// The canonical run request object (members in the order `serde_json`
/// prints them). `script` is the source text or the script path, as
/// `is_source` says.
pub open spec fn spec_request_object(args: Seq<Seq<char>>, cwd: Seq<char>, id: Seq<char>, is_source: bool, script: Seq<char>, timeout_ms: u64) -> Json {
    Json::Object(seq![
        ("args"@, spec_string_array(args)),
        ("background"@, Json::Bool(false)),
        ("cwd"@, Json::Str(cwd)),
        ("id"@, Json::Str(id)),
        ("op"@, Json::Str("run"@)),
        (if is_source { "source"@ } else { "script_path"@ }, Json::Str(script)),
        ("timeout_ms"@, Json::Number(Num::PosInt(timeout_ms))),
    ])
}

/// What [`RunArguments::request`] returns: an error message, or the
/// encoded request line.
pub open spec fn spec_request(
    source: Option<Seq<char>>,
    script_path: Option<Seq<char>>,
    args: Seq<Seq<char>>,
    timeout_ms: u64,
    id: Seq<char>,
    cwd: Seq<char>,
) -> Result<Seq<char>, Seq<char>> {
    if !(1 <= timeout_ms <= 600000) {
        Err("timeout_ms must be between 1 and 600000"@)
    } else if spec_unusable(id) || spec_unusable(cwd)
        || (source matches Some(s) && spec_unusable(s))
        || (script_path matches Some(s) && spec_unusable(s)) {
        Err("id, cwd and script must be nonempty and contain no NUL"@)
    } else if exists|i: int| 0 <= i < args.len() && (#[trigger] args[i]).contains('\0') {
        Err("args must not contain NUL"@)
    } else {
        let chosen: Option<(bool, Seq<char>)> = match (source, script_path) {
            (Some(s), None) => Some((true, s)),
            (None, Some(p)) => if spec_ends_with(p, ".mbtx"@) { Some((false, p)) } else { None },
            _ => None,
        };
        match chosen {
            None => Err("provide exactly one source or .mbtx script_path"@),
            Some((is_source, script)) => {
                let text = json_text(spec_request_object(args, cwd, id, is_source, script, timeout_ms));
                if utf8_len(text) > MAX_REQUEST_BYTES {
                    Err("MBTX tool request exceeds 32 KiB; use script_path for larger scripts"@)
                } else {
                    Ok(text)
                }
            },
        }
    }
}

/// Whether `text` ends with `suffix`.
pub fn ends_with(text: &str, suffix: &str) -> (r: bool)
    ensures
        r == spec_ends_with(text@, suffix@),
{
    let t = chars_of(text);
    let s = chars_of(suffix);
    if t.len() < s.len() {
        return false;
    }
    let off = t.len() - s.len();
    let mut i: usize = 0;
    while i < s.len()
        invariant
            t@ == text@,
            s@ == suffix@,
            off == t.len() - s.len(),
            i <= s.len(),
            forall|j: int| 0 <= j < i ==> t@[off + j] == s@[j],
        decreases s.len() - i,
    {
        if t[off + i] != s[i] {
            assert(text@.skip(off as int)[i as int] != suffix@[i as int]);
            return false;
        }
        i += 1;
    }
    assert(text@.skip(off as int) =~= suffix@);
    true
}

fn unusable(text: &str) -> (r: bool)
    ensures
        r == spec_unusable(text@),
{
    crate::text::blank(text) || crate::text::has_char(text, '\0')
}

impl RunArguments {
    /// Builds one canonical JSONL run request. The host owns background
    /// scheduling, so the request always says `background: false`; an
    /// accepted request is a single line, with no line break in it.
    #[verifier::loop_isolation(false)]
    pub fn request(&self, id: &str, cwd: &str) -> (r: Result<String, String>)
        ensures
            match spec_request(opt_str(self.source), opt_str(self.script_path), strings_view(self.args@), self.timeout_ms, id@, cwd@) {
                Ok(text) => r is Ok && r->Ok_0@ == text,
                Err(message) => r is Err && r->Err_0@ == message,
            },
            r matches Ok(t) ==> !t@.contains('\n'),
    {
        if !(1 <= self.timeout_ms && self.timeout_ms <= 600000) {
            return Err(owned("timeout_ms must be between 1 and 600000"));
        }
        let bad_source = match &self.source { Some(s) => unusable(s.as_str()), None => false };
        let bad_path = match &self.script_path { Some(s) => unusable(s.as_str()), None => false };
        if unusable(id) || unusable(cwd) || bad_source || bad_path {
            return Err(owned("id, cwd and script must be nonempty and contain no NUL"));
        }
        let ghost args = strings_view(self.args@);
        let mut i: usize = 0;
        while i < self.args.len()
            invariant
                i <= self.args.len(),
                args == strings_view(self.args@),
                forall|j: int| 0 <= j < i ==> !(#[trigger] args[j]).contains('\0'),
            decreases self.args.len() - i,
        {
            if crate::text::has_char(self.args[i].as_str(), '\0') {
                assert(args[i as int].contains('\0'));
                return Err(owned("args must not contain NUL"));
            }
            i += 1;
        }
        let (is_source, script) = match (&self.source, &self.script_path) {
            (Some(s), None) => (true, s),
            (None, Some(p)) => {
                if ends_with(p.as_str(), ".mbtx") {
                    (false, p)
                } else {
                    return Err(owned("provide exactly one source or .mbtx script_path"));
                }
            },
            _ => return Err(owned("provide exactly one source or .mbtx script_path")),
        };
        let mut items: Vec<JsonValue> = Vec::new();
        let mut k: usize = 0;
        while k < self.args.len()
            invariant
                k <= self.args.len(),
                items@.len() == k,
                forall|j: int| 0 <= j < k ==> (#[trigger] items@[j])@ == Json::Str(self.args@[j]@),
            decreases self.args.len() - k,
        {
            items.push(JsonValue::Str(copy_string(&self.args[k])));
            k += 1;
        }
        let args_json = JsonValue::Array(items);
        proof {
            if let Json::Array(x) = args_json@ {
                if let Json::Array(y) = spec_string_array(args) {
                    assert forall|j: int| 0 <= j < x.len() implies x[j] == y[j] by {
                        assert(items@[j]@ == Json::Str(self.args@[j]@));
                    }
                    assert(x =~= y);
                }
            }
            assert(args_json@ == spec_string_array(args));
        }
        let mut members: Vec<(String, JsonValue)> = Vec::new();
        members.push((owned("args"), args_json));
        members.push((owned("background"), JsonValue::Bool(false)));
        members.push((owned("cwd"), JsonValue::Str(owned(cwd))));
        members.push((owned("id"), JsonValue::Str(owned(id))));
        members.push((owned("op"), JsonValue::Str(owned("run"))));
        members.push((if is_source { owned("source") } else { owned("script_path") }, JsonValue::Str(copy_string(script))));
        members.push((owned("timeout_ms"), JsonValue::Number(JsonNumber::PosInt(self.timeout_ms))));
        let request = JsonValue::Object(members);
        proof {
            let expected = spec_request_object(args, cwd@, id@, is_source, script@, self.timeout_ms);
            reveal_with_fuel(JsonValue::view, 2);
            if let Json::Object(a) = request@ {
                if let Json::Object(b) = expected {
                    assert(a.len() == 7);
                    assert(b.len() == 7);
                    assert(a[0] == b[0]);
                    assert(a[1].0 == b[1].0);
                    assert(a[1].1 == b[1].1);
                    assert(a[2] == b[2]);
                    assert(a[3] == b[3]);
                    assert(a[4] == b[4]);
                    assert(a[5] == b[5]);
                    assert(a[6] == b[6]);
                    assert(a =~= b);
                }
            }
            assert(request@ == expected);
        }
        let encoded = to_json_text(&request);
        if byte_len(encoded.as_str()) > MAX_REQUEST_BYTES {
            return Err(owned("MBTX tool request exceeds 32 KiB; use script_path for larger scripts"));
        }
        Ok(encoded)
    }
}


// ---------------------------------------------------------------------------
// Replies to the model
// ---------------------------------------------------------------------------

/// A JSON integer for an `i32`.
pub open spec fn spec_i32_json(n: i32) -> Json {
    if n >= 0 { Json::Number(Num::PosInt(n as u64)) } else { Json::Number(Num::NegInt(n as i64)) }
}

/// The reply object for a job state and its (possibly shortened) output,
/// with members in the order `serde_json` prints them.
pub open spec fn spec_reply_object(job_id: Option<Seq<char>>, terminal: Option<TerminalView>, stdout: Seq<char>, stderr: Seq<char>, omitted: nat) -> Json {
    let job = match job_id { Some(j) => Json::Str(j), None => Json::Null };
    let tail = seq![
        ("job_id"@, job),
        ("omitted_bytes"@, Json::Number(Num::PosInt(omitted as u64))),
    ];
    let streams = seq![("stderr"@, Json::Str(stderr)), ("stdout"@, Json::Str(stdout))];
    Json::Object(match terminal {
        None => tail + seq![("state"@, Json::Str("running"@))] + streams,
        Some(TerminalView::Completed { exit_code, duration_ms }) =>
            seq![("duration_ms"@, Json::Number(Num::PosInt(duration_ms))), ("exit_code"@, spec_i32_json(exit_code))]
                + tail + seq![("state"@, Json::Str("completed"@))] + streams,
        Some(TerminalView::Stopped { duration_ms }) =>
            seq![("duration_ms"@, Json::Number(Num::PosInt(duration_ms)))]
                + tail + seq![("state"@, Json::Str("stopped"@))] + streams,
        Some(TerminalView::Failed { kind, message }) =>
            seq![("error"@, Json::Object(seq![("kind"@, Json::Str(kind)), ("message"@, Json::Str(message))]))]
                + tail + seq![("state"@, Json::Str("failed"@))] + streams,
    })
}

/// The reply handed to the model: the job state with its output, the longer
/// output stream halved (at a character boundary, the cut bytes counted as
/// omitted) until the serialized reply fits in [`MAX_REPLY_BYTES`] or no
/// output is left.
pub open spec fn spec_reply(job_id: Option<Seq<char>>, terminal: Option<TerminalView>, stdout: Seq<char>, stderr: Seq<char>, omitted: nat) -> Json
    decreases utf8_len(stdout) + utf8_len(stderr),
{
    let value = spec_reply_object(job_id, terminal, stdout, stderr, omitted);
    if utf8_len(json_text(value)) <= MAX_REPLY_BYTES || (utf8_len(stdout) == 0 && utf8_len(stderr) == 0) {
        value
    } else if utf8_len(stdout) >= utf8_len(stderr) {
        let kept = stdout.take(fit_prefix(stdout, (utf8_len(stdout) / 2) as int) as int);
        proof { lemma_halve(stdout); }
        spec_reply(job_id, terminal, kept, stderr, omitted + (utf8_len(stdout) - utf8_len(kept)) as nat)
    } else {
        let kept = stderr.take(fit_prefix(stderr, (utf8_len(stderr) / 2) as int) as int);
        proof { lemma_halve(stderr); }
        spec_reply(job_id, terminal, stdout, kept, omitted + (utf8_len(stderr) - utf8_len(kept)) as nat)
    }
}

/// Halving a non-empty text at a character boundary makes it shorter.
pub proof fn lemma_halve(s: Seq<char>)
    ensures
        utf8_len(s) > 0 ==> utf8_len(s.take(fit_prefix(s, (utf8_len(s) / 2) as int) as int)) < utf8_len(s),
        utf8_len(s.take(fit_prefix(s, (utf8_len(s) / 2) as int) as int)) <= utf8_len(s) / 2,
        fit_prefix(s, (utf8_len(s) / 2) as int) <= s.len(),
{
    lemma_fit_prefix(s, (utf8_len(s) / 2) as int);
}

fn str_json(s: &str) -> (v: JsonValue)
    ensures
        v@ == Json::Str(s@),
{
    JsonValue::Str(owned(s))
}

fn reply_object(job_id: Option<&str>, terminal: Option<&Terminal>, stdout: &str, stderr: &str, omitted: usize) -> (v: JsonValue)
    ensures
        v@ == spec_reply_object(
            match job_id { Some(j) => Some(j@), None => None },
            match terminal { Some(t) => Some(t@), None => None },
            stdout@, stderr@, omitted as nat),
{
    let mut members: Vec<(String, JsonValue)> = Vec::new();
    let state: &str = match terminal {
        None => "running",
        Some(Terminal::Completed { exit_code, duration_ms }) => {
            members.push((owned("duration_ms"), JsonValue::Number(JsonNumber::PosInt(*duration_ms))));
            let code = if *exit_code >= 0 {
                JsonValue::Number(JsonNumber::PosInt(*exit_code as u64))
            } else {
                JsonValue::Number(JsonNumber::NegInt(*exit_code as i64))
            };
            members.push((owned("exit_code"), code));
            "completed"
        },
        Some(Terminal::Stopped { duration_ms }) => {
            members.push((owned("duration_ms"), JsonValue::Number(JsonNumber::PosInt(*duration_ms))));
            "stopped"
        },
        Some(Terminal::Failed { error }) => {
            let mut inner: Vec<(String, JsonValue)> = Vec::new();
            inner.push((owned("kind"), str_json(error.kind.as_str())));
            inner.push((owned("message"), str_json(error.message.as_str())));
            let e = JsonValue::Object(inner);
            proof {
                reveal_with_fuel(JsonValue::view, 2);
                if let Json::Object(a) = e@ {
                    assert(a =~= seq![("kind"@, Json::Str(error.kind@)), ("message"@, Json::Str(error.message@))]);
                }
            }
            members.push((owned("error"), e));
            "failed"
        },
    };
    let job = match job_id {
        Some(j) => str_json(j),
        None => JsonValue::Null,
    };
    members.push((owned("job_id"), job));
    members.push((owned("omitted_bytes"), JsonValue::Number(JsonNumber::PosInt(omitted as u64))));
    members.push((owned("state"), str_json(state)));
    members.push((owned("stderr"), str_json(stderr)));
    members.push((owned("stdout"), str_json(stdout)));
    let v = JsonValue::Object(members);
    proof {
        reveal_with_fuel(JsonValue::view, 2);
        let expected = spec_reply_object(
            match job_id { Some(j) => Some(j@), None => None },
            match terminal { Some(t) => Some(t@), None => None },
            stdout@, stderr@, omitted as nat);
        if let Json::Object(a) = v@ {
            if let Json::Object(b) = expected {
                assert(a.len() == b.len());
                assert forall|i: int| 0 <= i < a.len() implies a[i] == b[i] by {}
                assert(a =~= b);
            }
        }
    }
    v
}

/// Whether a reply can be made to fit: the reply with both output streams
/// cut away entirely (every output byte counted as omitted) serializes to
/// at most [`MAX_REPLY_BYTES`]. Where it does not, halving never makes the
/// reply fit, and shortening it never ends.
pub open spec fn reply_can_fit(job_id: Option<Seq<char>>, terminal: Option<TerminalView>, stdout: Seq<char>, stderr: Seq<char>, omitted: nat) -> bool {
    utf8_len(json_text(spec_reply_object(job_id, terminal, Seq::empty(), Seq::empty(),
        omitted + utf8_len(stdout) + utf8_len(stderr)))) <= MAX_REPLY_BYTES
}

/// Bounds the serialized reply, including JSON escaping, while keeping it
/// valid JSON: the longer output stream is halved until the reply fits.
/// It is made only for a reply that can fit (see [`reply_can_fit`]).
#[verifier::loop_isolation(false)]
pub fn reply(job_id: Option<&str>, terminal: Option<&Terminal>, batch: Batch) -> (v: JsonValue)
    requires
        batch.omitted_bytes + utf8_len(batch.stdout@) + utf8_len(batch.stderr@) <= usize::MAX,
        reply_can_fit(
            match job_id { Some(j) => Some(j@), None => None },
            match terminal { Some(t) => Some(t@), None => None },
            batch.stdout@, batch.stderr@, batch.omitted_bytes as nat),
    ensures
        v@ == spec_reply(
            match job_id { Some(j) => Some(j@), None => None },
            match terminal { Some(t) => Some(t@), None => None },
            batch.stdout@, batch.stderr@, batch.omitted_bytes as nat),
{
    let ghost job = match job_id { Some(j) => Some(j@), None => None };
    let ghost term = match terminal { Some(t) => Some(t@), None => None };
    let ghost whole = spec_reply(job, term, batch.stdout@, batch.stderr@, batch.omitted_bytes as nat);
    let mut stdout = batch.stdout;
    let mut stderr = batch.stderr;
    let mut omitted = batch.omitted_bytes;
    loop
        invariant
            omitted + utf8_len(stdout@) + utf8_len(stderr@) <= usize::MAX,
            whole == spec_reply(job, term, stdout@, stderr@, omitted as nat),
            job == (match job_id { Some(j) => Some(j@), None => None }),
            term == (match terminal { Some(t) => Some(t@), None => None }),
        decreases utf8_len(stdout@) + utf8_len(stderr@),
    {
        let value = reply_object(job_id, terminal, stdout.as_str(), stderr.as_str(), omitted);
        let text = to_json_text(&value);
        let out_len = byte_len(stdout.as_str());
        let err_len = byte_len(stderr.as_str());
        if byte_len(text.as_str()) <= MAX_REPLY_BYTES || (out_len == 0 && err_len == 0) {
            return value;
        }
        if out_len >= err_len {
            let half = truncate_to(stdout.as_str(), out_len / 2);
            let kept = byte_len(half.as_str());
            proof { lemma_halve(stdout@); }
            omitted = omitted + (out_len - kept);
            stdout = half;
        } else {
            let half = truncate_to(stderr.as_str(), err_len / 2);
            let kept = byte_len(half.as_str());
            proof { lemma_halve(stderr@); }
            omitted = omitted + (err_len - kept);
            stderr = half;
        }
    }
}


/// The reply for a job where it can be made to fit (see [`reply_can_fit`]),
/// or `None` where even a reply without any output is too large.
pub fn reply_checked(job_id: Option<&str>, terminal: Option<&Terminal>, batch: Batch) -> (v: Option<JsonValue>)
    requires
        batch.omitted_bytes + utf8_len(batch.stdout@) + utf8_len(batch.stderr@) <= usize::MAX,
    ensures
        ({
            let job = match job_id { Some(j) => Some(j@), None => None };
            let term = match terminal { Some(t) => Some(t@), None => None };
            &&& v is Some <==> reply_can_fit(job, term, batch.stdout@, batch.stderr@, batch.omitted_bytes as nat)
            &&& v matches Some(r) ==> r@ == spec_reply(job, term, batch.stdout@, batch.stderr@, batch.omitted_bytes as nat)
        }),
{
    let all = batch.omitted_bytes + byte_len(batch.stdout.as_str()) + byte_len(batch.stderr.as_str());
    let empty = reply_object(job_id, terminal, "", "", all);
    proof {
        reveal_strlit("");
    }
    assert(""@ =~= Seq::<char>::empty());
    let text = to_json_text(&empty);
    if byte_len(text.as_str()) <= MAX_REPLY_BYTES {
        Some(reply(job_id, terminal, batch))
    } else {
        None
    }
}

// ---------------------------------------------------------------------------
// Tool arguments
// ---------------------------------------------------------------------------

/// The view of [`RunArguments`].
pub struct RunArgumentsView {
    pub source: Option<Seq<char>>,
    pub script_path: Option<Seq<char>>,
    pub args: Seq<Seq<char>>,
    pub cwd: Option<Seq<char>>,
    pub background: bool,
    pub timeout_ms: u64,
}

/// The view of [`Arguments`].
pub enum ArgumentsView {
    Run(RunArgumentsView),
    JobOutput { job_id: Seq<char> },
    JobStop { job_id: Seq<char> },
}

impl RunArguments {
    pub open spec fn view(&self) -> RunArgumentsView {
        RunArgumentsView {
            source: opt_str(self.source),
            script_path: opt_str(self.script_path),
            args: strings_view(self.args@),
            cwd: opt_str(self.cwd),
            background: self.background,
            timeout_ms: self.timeout_ms,
        }
    }
}

impl Arguments {
    pub open spec fn view(&self) -> ArgumentsView {
        match self {
            Arguments::Run(r) => ArgumentsView::Run(r@),
            Arguments::JobOutput { job_id } => ArgumentsView::JobOutput { job_id: job_id@ },
            Arguments::JobStop { job_id } => ArgumentsView::JobStop { job_id: job_id@ },
        }
    }
}

/// The operation an `op` tag selects: its snake_case name or its index.
pub open spec fn spec_op_variant(tag: Json) -> Option<nat> {
    match tag {
        Json::Str(s) => if s == "run"@ { Some(0) } else if s == "job_output"@ { Some(1) } else if s == "job_stop"@ { Some(2) } else { None },
        Json::Number(Num::PosInt(u)) => if u < 3 { Some(u as nat) } else { None },
        _ => None,
    }
}

/// Whether `key` is a member that operation `k` accepts besides `op`.
pub open spec fn spec_known_key(k: nat, key: Seq<char>) -> bool {
    if k == 0 {
        key == "op"@ || key == "source"@ || key == "script_path"@ || key == "args"@ || key == "cwd"@
            || key == "background"@ || key == "timeout_ms"@
    } else {
        key == "op"@ || key == "job_id"@
    }
}

/// An optional string member: absent or `null` is `None`.
pub open spec fn spec_opt_text(o: Option<Json>) -> Option<Option<Seq<char>>> {
    match o {
        None => Some(None),
        Some(Json::Null) => Some(None),
        Some(Json::Str(s)) => Some(Some(s)),
        _ => None,
    }
}

/// Whether every element is a string.
pub open spec fn spec_all_text(items: Seq<Json>) -> bool {
    forall|i: int| 0 <= i < items.len() ==> (#[trigger] items[i]) is Str
}

/// The strings of an array of strings.
pub open spec fn spec_texts(items: Seq<Json>) -> Seq<Seq<char>> {
    Seq::new(items.len(), |i: int| match items[i] { Json::Str(s) => s, _ => Seq::empty() })
}

/// The tool arguments a JSON value denotes, as the derived
/// `#[serde(tag = "op", rename_all = "snake_case", deny_unknown_fields)]`
/// decoding reads an object: unknown members are refused, `args`,
/// `background` and `timeout_ms` default to an empty list, `false` and
/// 30000 when absent.
pub open spec fn spec_arguments(v: Json) -> Option<ArgumentsView> {
    match v {
        Json::Object(ms) => match spec_lookup(ms, "op"@) {
            None => None,
            Some(tag) => match spec_op_variant(tag) {
                None => None,
                Some(k) => if !(forall|i: int| 0 <= i < ms.len() ==> spec_known_key(k, (#[trigger] ms[i]).0)) {
                    None
                } else if k == 0 {
                    let source = spec_opt_text(spec_lookup(ms, "source"@));
                    let script_path = spec_opt_text(spec_lookup(ms, "script_path"@));
                    let cwd = spec_opt_text(spec_lookup(ms, "cwd"@));
                    let args: Option<Seq<Seq<char>>> = match spec_lookup(ms, "args"@) {
                        None => Some(Seq::empty()),
                        Some(Json::Array(items)) => if spec_all_text(items) { Some(spec_texts(items)) } else { None },
                        _ => None,
                    };
                    let background: Option<bool> = match spec_lookup(ms, "background"@) {
                        None => Some(false),
                        Some(Json::Bool(b)) => Some(b),
                        _ => None,
                    };
                    let timeout: Option<u64> = match spec_lookup(ms, "timeout_ms"@) {
                        None => Some(30000),
                        Some(Json::Number(Num::PosInt(u))) => Some(u),
                        _ => None,
                    };
                    match (source, script_path, cwd, args, background, timeout) {
                        (Some(source), Some(script_path), Some(cwd), Some(args), Some(background), Some(timeout_ms)) =>
                            Some(ArgumentsView::Run(RunArgumentsView { source, script_path, args, cwd, background, timeout_ms })),
                        _ => None,
                    }
                } else {
                    match spec_lookup(ms, "job_id"@) {
                        Some(Json::Str(job_id)) => if k == 1 { Some(ArgumentsView::JobOutput { job_id }) } else { Some(ArgumentsView::JobStop { job_id }) },
                        _ => None,
                    }
                },
            },
        },
        _ => None,
    }
}

fn op_variant(tag: &JsonValue) -> (r: Option<usize>)
    ensures
        match r {
            Some(k) => spec_op_variant(tag@) == Some(k as nat) && k < 3,
            None => spec_op_variant(tag@) is None,
        },
{
    match tag {
        JsonValue::Str(s) => {
            let s = s.as_str();
            if str_eq(s, "run") { Some(0) } else if str_eq(s, "job_output") { Some(1) } else if str_eq(s, "job_stop") { Some(2) } else { None }
        },
        JsonValue::Number(JsonNumber::PosInt(u)) => if *u < 3 { Some(*u as usize) } else { None },
        _ => None,
    }
}

fn known_key(k: usize, key: &str) -> (r: bool)
    ensures
        r == spec_known_key(k as nat, key@),
{
    if k == 0 {
        str_eq(key, "op") || str_eq(key, "source") || str_eq(key, "script_path") || str_eq(key, "args")
            || str_eq(key, "cwd") || str_eq(key, "background") || str_eq(key, "timeout_ms")
    } else {
        str_eq(key, "op") || str_eq(key, "job_id")
    }
}

fn opt_text(o: Option<&JsonValue>) -> (r: Option<Option<String>>)
    ensures
        match r {
            Some(x) => spec_opt_text(opt_view_ref(o)) == Some(opt_str(x)),
            None => spec_opt_text(opt_view_ref(o)) is None,
        },
{
    match o {
        None => Some(None),
        Some(JsonValue::Null) => Some(None),
        Some(JsonValue::Str(s)) => Some(Some(copy_string(s))),
        _ => None,
    }
}

impl Arguments {
    /// Reads tool arguments from a JSON object (see [`spec_arguments`]).
    #[verifier::loop_isolation(false)]
    pub fn from_json(v: &JsonValue) -> (r: Option<Arguments>)
        ensures
            match r {
                Some(a) => spec_arguments(v@) == Some(a@),
                None => spec_arguments(v@) is None,
            },
    {
        let members = match v {
            JsonValue::Object(ms) => ms,
            _ => return None,
        };
        let k = match v.get("op") {
            None => return None,
            Some(tag) => match op_variant(tag) {
                None => return None,
                Some(k) => k,
            },
        };
        let ghost ms = match v@ { Json::Object(m) => m, _ => Seq::empty() };
        let mut i: usize = 0;
        while i < members.len()
            invariant
                i <= members.len(),
                ms.len() == members@.len(),
                forall|j: int| 0 <= j < members@.len() ==> #[trigger] ms[j] == (members@[j].0@, members@[j].1@),
                forall|j: int| 0 <= j < i ==> spec_known_key(k as nat, (#[trigger] ms[j]).0),
            decreases members.len() - i,
        {
            if !known_key(k, members[i].0.as_str()) {
                assert(!spec_known_key(k as nat, ms[i as int].0));
                return None;
            }
            i += 1;
        }
        if k == 0 {
            let source = match opt_text(v.get("source")) { Some(x) => x, None => return None };
            let script_path = match opt_text(v.get("script_path")) { Some(x) => x, None => return None };
            let cwd = match opt_text(v.get("cwd")) { Some(x) => x, None => return None };
            let args: Vec<String> = match v.get("args") {
                None => Vec::new(),
                Some(JsonValue::Array(items)) => {
                    let mut out: Vec<String> = Vec::new();
                    let mut j: usize = 0;
                    while j < items.len()
                        invariant
                            j <= items.len(),
                            out@.len() == j,
                            forall|t: int| 0 <= t < j ==> (#[trigger] items@[t])@ == Json::Str(out@[t]@),
                        decreases items.len() - j,
                    {
                        match &items[j] {
                            JsonValue::Str(s) => out.push(copy_string(s)),
                            _ => {
                                proof {
                                    reveal_with_fuel(JsonValue::view, 2);
                                    let a = JsonValue::Array(*items);
                                    if let Json::Array(x) = a@ {
                                        assert(x[j as int] == items@[j as int]@);
                                        assert(!(x[j as int] is Str));
                                        assert(!spec_all_text(x));
                                    }
                                }
                                return None;
                            },
                        }
                        j += 1;
                    }
                    out
                },
                Some(_) => return None,
            };
            let background = match v.get("background") {
                None => false,
                Some(JsonValue::Bool(b)) => *b,
                Some(_) => return None,
            };
            let timeout_ms = match v.get("timeout_ms") {
                None => default_timeout(),
                Some(JsonValue::Number(JsonNumber::PosInt(u))) => *u,
                Some(_) => return None,
            };
            let r = RunArguments { source, script_path, args, cwd, background, timeout_ms };
            proof {
                reveal_with_fuel(JsonValue::view, 2);
                match spec_lookup(ms, "args"@) {
                    Some(Json::Array(items)) => {
                        assert(spec_all_text(items));
                        assert(strings_view(r.args@) =~= spec_texts(items));
                    },
                    _ => {
                        assert(strings_view(r.args@) =~= Seq::<Seq<char>>::empty());
                    },
                }
            }
            Some(Arguments::Run(r))
        } else {
            match v.get("job_id") {
                Some(JsonValue::Str(j)) => {
                    if k == 1 {
                        Some(Arguments::JobOutput { job_id: copy_string(j) })
                    } else {
                        Some(Arguments::JobStop { job_id: copy_string(j) })
                    }
                },
                _ => None,
            }
        }
    }
}


// ---------------------------------------------------------------------------
// Laws of batches and lifecycle events
// ---------------------------------------------------------------------------

/// The longest prefix of `s` that ends at a character boundary and encodes
/// in at most `limit` bytes.
pub open spec fn is_longest_fit(s: Seq<char>, p: Seq<char>, limit: int) -> bool {
    &&& p.len() <= s.len()
    &&& p == s.take(p.len() as int)
    &&& utf8_len(p) <= limit
    &&& forall|j: int| p.len() < j <= s.len() ==> utf8_len(#[trigger] s.take(j)) > limit
}

proof fn lemma_fit_is_longest(s: Seq<char>, limit: int)
    requires
        limit >= 0,
    ensures
        is_longest_fit(s, s.take(fit_prefix(s, limit) as int), limit),
{
    let k = fit_prefix(s, limit) as int;
    lemma_fit_prefix(s, limit);
    assert(s.take(k).len() == k);
    assert(s.take(k) =~= s.take(s.take(k).len() as int));
    assert forall|j: int| k < j <= s.len() implies utf8_len(#[trigger] s.take(j)) > limit by {
        lemma_utf8_len_take(s.take(j), k + 1);
        assert(s.take(j).take(k + 1) =~= s.take(k + 1));
    }
}

/// A failed event for the admitted request and job ends the run as failed
/// and leaves the batch alone; its kind and message are kept as the longest
/// character-boundary prefixes of at most 64 and 512 bytes.
pub proof fn lemma_failed_event_is_cut(p: ProgressView, b: BatchView, id: Seq<char>, job_id: Seq<char>,
    kind: Seq<char>, message: Seq<char>)
    requires
        spec_correlates(p, id, job_id),
    ensures
        ({
            let (p2, b2, err) = spec_apply(p, b, EventView::Failed { id, job_id, kind, message });
            &&& err is None
            &&& b2 == b
            &&& p2.terminal matches Some(TerminalView::Failed { kind: k, message: m })
                && is_longest_fit(kind, k, 64) && is_longest_fit(message, m, 512)
        }),
{
    lemma_fit_is_longest(kind, 64);
    lemma_fit_is_longest(message, 512);
}


/// Appending output keeps, of the data, the longest prefix that ends at a
/// character boundary and fits what is left of the batch's byte budget; it
/// goes after the chosen stream, the other stream is untouched, and every
/// other byte of the data is counted as omitted.
pub proof fn lemma_append_keeps_longest_fit(b: BatchView, data: Seq<char>, stderr: bool)
    ensures
        ({
            let a = spec_append(b, data, stderr);
            let room = spec_available(utf8_len(b.stdout) + utf8_len(b.stderr));
            let kept = if stderr { a.stderr.skip(b.stderr.len() as int) } else { a.stdout.skip(b.stdout.len() as int) };
            &&& (if stderr { a.stderr == b.stderr + kept && a.stdout == b.stdout }
                 else { a.stdout == b.stdout + kept && a.stderr == b.stderr })
            &&& is_longest_fit(data, kept, room as int)
            &&& a.omitted == b.omitted + utf8_len(data) - utf8_len(kept)
        }),
{
    let room = spec_available(utf8_len(b.stdout) + utf8_len(b.stderr));
    let k = fit_prefix(data, room as int) as int;
    lemma_fit_is_longest(data, room as int);
    lemma_fit_prefix(data, room as int);
    lemma_utf8_len_take(data, k);
    let a = spec_append(b, data, stderr);
    if stderr {
        assert(a.stderr.skip(b.stderr.len() as int) =~= data.take(k));
    } else {
        assert(a.stdout.skip(b.stdout.len() as int) =~= data.take(k));
    }
}


/// The output streams a reply keeps, halving as [`spec_reply`] does.
pub open spec fn reply_streams(job_id: Option<Seq<char>>, terminal: Option<TerminalView>, stdout: Seq<char>, stderr: Seq<char>, omitted: nat) -> (Seq<char>, Seq<char>)
    decreases utf8_len(stdout) + utf8_len(stderr),
{
    let value = spec_reply_object(job_id, terminal, stdout, stderr, omitted);
    if utf8_len(json_text(value)) <= MAX_REPLY_BYTES || (utf8_len(stdout) == 0 && utf8_len(stderr) == 0) {
        (stdout, stderr)
    } else if utf8_len(stdout) >= utf8_len(stderr) {
        let kept = stdout.take(fit_prefix(stdout, (utf8_len(stdout) / 2) as int) as int);
        proof { lemma_halve(stdout); }
        reply_streams(job_id, terminal, kept, stderr, omitted + (utf8_len(stdout) - utf8_len(kept)) as nat)
    } else {
        let kept = stderr.take(fit_prefix(stderr, (utf8_len(stderr) / 2) as int) as int);
        proof { lemma_halve(stderr); }
        reply_streams(job_id, terminal, stdout, kept, omitted + (utf8_len(stderr) - utf8_len(kept)) as nat)
    }
}

/// A reply keeps a character-boundary prefix of each output stream and
/// counts exactly the bytes it cut as omitted; it fits in
/// [`MAX_REPLY_BYTES`] unless no output is left, and always where a reply
/// can fit at all (the only replies [`reply`] makes); and when the whole
/// output fits, nothing is cut.
pub proof fn lemma_reply_keeps_prefixes(job_id: Option<Seq<char>>, terminal: Option<TerminalView>, stdout: Seq<char>, stderr: Seq<char>, omitted: nat)
    ensures
        ({
            let (o, e) = reply_streams(job_id, terminal, stdout, stderr, omitted);
            let v = spec_reply(job_id, terminal, stdout, stderr, omitted);
            &&& o.len() <= stdout.len() && o == stdout.take(o.len() as int)
            &&& e.len() <= stderr.len() && e == stderr.take(e.len() as int)
            &&& utf8_len(o) <= utf8_len(stdout) && utf8_len(e) <= utf8_len(stderr)
            &&& v == spec_reply_object(job_id, terminal, o, e,
                    omitted + (utf8_len(stdout) - utf8_len(o)) as nat + (utf8_len(stderr) - utf8_len(e)) as nat)
            &&& (utf8_len(json_text(v)) <= MAX_REPLY_BYTES || (utf8_len(o) == 0 && utf8_len(e) == 0))
            &&& (utf8_len(json_text(spec_reply_object(job_id, terminal, stdout, stderr, omitted))) <= MAX_REPLY_BYTES
                    ==> o == stdout && e == stderr)
            &&& reply_can_fit(job_id, terminal, stdout, stderr, omitted) ==> utf8_len(json_text(v)) <= MAX_REPLY_BYTES
        }),
    decreases utf8_len(stdout) + utf8_len(stderr),
{
    let (o0, e0) = reply_streams(job_id, terminal, stdout, stderr, omitted);
    lemma_reply_keeps_prefixes_base(job_id, terminal, stdout, stderr, omitted);
    if utf8_len(o0) == 0 && utf8_len(e0) == 0 {
        lemma_utf8_nonempty(o0);
        lemma_utf8_nonempty(e0);
        assert(o0 =~= Seq::<char>::empty());
        assert(e0 =~= Seq::<char>::empty());
    }
}

proof fn lemma_reply_keeps_prefixes_base(job_id: Option<Seq<char>>, terminal: Option<TerminalView>, stdout: Seq<char>, stderr: Seq<char>, omitted: nat)
    ensures
        ({
            let (o, e) = reply_streams(job_id, terminal, stdout, stderr, omitted);
            let v = spec_reply(job_id, terminal, stdout, stderr, omitted);
            &&& o.len() <= stdout.len() && o == stdout.take(o.len() as int)
            &&& e.len() <= stderr.len() && e == stderr.take(e.len() as int)
            &&& utf8_len(o) <= utf8_len(stdout) && utf8_len(e) <= utf8_len(stderr)
            &&& v == spec_reply_object(job_id, terminal, o, e,
                    omitted + (utf8_len(stdout) - utf8_len(o)) as nat + (utf8_len(stderr) - utf8_len(e)) as nat)
            &&& (utf8_len(json_text(v)) <= MAX_REPLY_BYTES || (utf8_len(o) == 0 && utf8_len(e) == 0))
            &&& (utf8_len(json_text(spec_reply_object(job_id, terminal, stdout, stderr, omitted))) <= MAX_REPLY_BYTES
                    ==> o == stdout && e == stderr)
        }),
    decreases utf8_len(stdout) + utf8_len(stderr),
{
    let value = spec_reply_object(job_id, terminal, stdout, stderr, omitted);
    assert(stdout.take(stdout.len() as int) =~= stdout);
    assert(stderr.take(stderr.len() as int) =~= stderr);
    if utf8_len(json_text(value)) <= MAX_REPLY_BYTES || (utf8_len(stdout) == 0 && utf8_len(stderr) == 0) {
    } else if utf8_len(stdout) >= utf8_len(stderr) {
        let k = fit_prefix(stdout, (utf8_len(stdout) / 2) as int) as int;
        let kept = stdout.take(k);
        lemma_halve(stdout);
        lemma_utf8_len_take(stdout, k);
        let om2 = omitted + (utf8_len(stdout) - utf8_len(kept)) as nat;
        lemma_reply_keeps_prefixes_base(job_id, terminal, kept, stderr, om2);
        let (o, e) = reply_streams(job_id, terminal, kept, stderr, om2);
        assert(o == stdout.take(o.len() as int)) by {
            assert(kept.take(o.len() as int) =~= stdout.take(o.len() as int));
        }
    } else {
        let k = fit_prefix(stderr, (utf8_len(stderr) / 2) as int) as int;
        let kept = stderr.take(k);
        lemma_halve(stderr);
        lemma_utf8_len_take(stderr, k);
        let om2 = omitted + (utf8_len(stderr) - utf8_len(kept)) as nat;
        lemma_reply_keeps_prefixes_base(job_id, terminal, stdout, kept, om2);
        let (o, e) = reply_streams(job_id, terminal, stdout, kept, om2);
        assert(e == stderr.take(e.len() as int)) by {
            assert(kept.take(e.len() as int) =~= stderr.take(e.len() as int));
        }
    }
}


// ---------------------------------------------------------------------------
// Splitting the runner's byte stream
// ---------------------------------------------------------------------------

/// The bytes two texts encode to together.
pub open spec fn text_size(out: Seq<char>, err: Seq<char>) -> nat {
    utf8_len(out) + utf8_len(err)
}

/// One event applied with no output budget: the new state, the output it
/// adds to standard output and to standard error, and the error.
pub open spec fn apply_unbounded(p: ProgressView, e: EventView) -> (ProgressView, Seq<char>, Seq<char>, Option<IngestError>) {
    match e {
        EventView::Output { stderr, id, job_id, seq, data } => {
            if !spec_correlates(p, id, job_id) {
                (p, Seq::empty(), Seq::empty(), Some(IngestError::Mismatch))
            } else if seq != p.next_seq || seq >= MAX_OUTPUT_EVENTS {
                (p, Seq::empty(), Seq::empty(), Some(IngestError::BadSequence))
            } else {
                let p1 = ProgressView { next_seq: p.next_seq + 1, ..p };
                if utf8_len(data) > usize::MAX {
                    (p1, Seq::empty(), Seq::empty(), Some(IngestError::Overflow))
                } else if stderr {
                    (p1, Seq::empty(), data, None)
                } else {
                    (p1, data, Seq::empty(), None)
                }
            }
        },
        _ => {
            let r = spec_apply(p, BatchView { stdout: Seq::empty(), stderr: Seq::empty(), omitted: 0 }, e);
            (r.0, Seq::empty(), Seq::empty(), r.2)
        },
    }
}

/// Decoding with no output budget: the final state, all output of the
/// decoded events, and the error, if any (no output is given with one).
pub open spec fn ingest_unbounded(p: ProgressView, bytes: Seq<u8>) -> (ProgressView, Seq<char>, Seq<char>, Option<IngestError>)
    decreases bytes.len(),
{
    if bytes.len() == 0 {
        (p, Seq::empty(), Seq::empty(), None)
    } else {
        let n = spec_segment_len(bytes);
        proof {
            lemma_segment_len_bounds(bytes);
        }
        if n == 0 {
            (p, Seq::empty(), Seq::empty(), None)
        } else if p.pending.len() + n > MAX_FRAME_BYTES {
            (p, Seq::empty(), Seq::empty(), Some(IngestError::FrameTooLarge))
        } else {
            let frame = p.pending + bytes.take(n as int);
            let p1 = ProgressView { pending: frame, ..p };
            if bytes[n - 1] != 10 {
                ingest_unbounded(p1, bytes.skip(n as int))
            } else {
                match spec_frame_event(frame) {
                    None => (p1, Seq::empty(), Seq::empty(), Some(if json_parse(frame) is None { IngestError::Malformed } else { IngestError::InvalidEvent })),
                    Some(e) => {
                        let p2 = ProgressView { pending: Seq::empty(), ..p1 };
                        if p2.terminal is Some {
                            (p2, Seq::empty(), Seq::empty(), Some(IngestError::AfterTerminal))
                        } else {
                            let (p3, o, r, err) = apply_unbounded(p2, e);
                            if err is Some {
                                (p3, Seq::empty(), Seq::empty(), err)
                            } else {
                                let (p4, o4, r4, err4) = ingest_unbounded(p3, bytes.skip(n as int));
                                (p4, o + o4, r + r4, err4)
                            }
                        }
                    },
                }
            }
        }
    }
}

/// A text that is not empty encodes to at least one byte.
proof fn lemma_utf8_nonempty(s: Seq<char>)
    ensures
        s.len() > 0 ==> utf8_len(s) > 0,
{
    if s.len() > 0 {
        let c = s.last();
        assert(s =~= s.drop_last().push(c));
        lemma_utf8_len_push(s.drop_last(), c);
        assert(vstd::utf8::encode_scalar(c as u32).len() >= 1);
    }
}

/// A prefix as long in bytes as the whole text is the whole text.
proof fn lemma_take_full(s: Seq<char>, k: int)
    requires
        0 <= k <= s.len(),
        utf8_len(s.take(k)) == utf8_len(s),
    ensures
        s.take(k) == s,
{
    lemma_utf8_len_take(s, k);
    lemma_utf8_nonempty(s.skip(k));
    assert(s.take(s.len() as int) =~= s);
}

/// Applying an event to a batch that omitted nothing: the state and error
/// are those without a budget; the batch gains the event's output where it
/// still omits nothing, and where that output fits.
proof fn lemma_apply_unbounded(p: ProgressView, b: BatchView, e: EventView)
    requires
        b.omitted == 0,
    ensures
        ({
            let (p3, b3, err) = spec_apply(p, b, e);
            let (q, o, r, er) = apply_unbounded(p, e);
            &&& p3 == q && err == er
            &&& b3.omitted >= b.omitted
            &&& (err is None && b3.omitted == 0) ==> b3.stdout == b.stdout + o && b3.stderr == b.stderr + r
            &&& (err is None && text_size(b.stdout, b.stderr) + text_size(o, r) <= MAX_BATCH_BYTES)
                ==> b3 == (BatchView { stdout: b.stdout + o, stderr: b.stderr + r, omitted: 0 })
            &&& err is Some ==> b3 == b
        }),
{
    match e {
        EventView::Output { stderr, id, job_id, seq, data } => {
            let available = spec_available(utf8_len(b.stdout) + utf8_len(b.stderr));
            let k = fit_prefix(data, available as int) as int;
            lemma_fit_prefix(data, available as int);
            lemma_utf8_len_take(data, k);
            let a = spec_append(b, data, stderr);
            if a.omitted == 0 {
                lemma_take_full(data, k);
            }
            assert(b.stdout + Seq::<char>::empty() =~= b.stdout);
            assert(b.stderr + Seq::<char>::empty() =~= b.stderr);
            if text_size(b.stdout, b.stderr) + text_size(if stderr { Seq::empty() } else { data }, if stderr { data } else { Seq::empty() }) <= MAX_BATCH_BYTES {
                assert(utf8_len(Seq::<char>::empty()) == 0) by {
                    assert(vstd::utf8::encode_utf8(Seq::<char>::empty()) =~= Seq::<u8>::empty());
                }
                assert(data.take(k) =~= data);
            }
        },
        _ => {},
    }
}


/// Decoding never lowers the omitted count, keeps a bounded batch bounded,
/// and gives back the batch it was handed where it fails.
proof fn lemma_ingest_batch(p: ProgressView, bytes: Seq<u8>, b: BatchView)
    ensures
        spec_ingest(p, bytes, b).1.omitted >= b.omitted,
        batch_bounded(b) ==> batch_bounded(spec_ingest(p, bytes, b).1),
    decreases bytes.len(),
{
    if bytes.len() > 0 {
        let n = spec_segment_len(bytes);
        lemma_segment_len_bounds(bytes);
        if n > 0 && p.pending.len() + n <= MAX_FRAME_BYTES {
            let frame = p.pending + bytes.take(n as int);
            let p1 = ProgressView { pending: frame, ..p };
            if bytes[n - 1] != 10 {
                lemma_ingest_batch(p1, bytes.skip(n as int), b);
            } else {
                match spec_frame_event(frame) {
                    None => {},
                    Some(e) => {
                        let p2 = ProgressView { pending: Seq::empty(), ..p1 };
                        if p2.terminal is None {
                            let (p3, b3, err) = spec_apply(p2, b, e);
                            match e {
                                EventView::Output { stderr, data, .. } => {
                                    if batch_bounded(b) {
                                        lemma_append_bounded(b, data, stderr);
                                    }
                                },
                                _ => {},
                            }
                            if err is None {
                                lemma_ingest_batch(p3, bytes.skip(n as int), b3);
                            }
                        }
                    },
                }
            }
        }
    }
}

/// A decoding that omitted nothing and failed nowhere is the decoding with
/// no budget, its output added to the batch.
proof fn lemma_ingest_is_unbounded(p: ProgressView, bytes: Seq<u8>, b: BatchView)
    requires
        b.omitted == 0,
    ensures
        ({
            let (q, c, err) = spec_ingest(p, bytes, b);
            let (u, o, r, uerr) = ingest_unbounded(p, bytes);
            (err is None && c.omitted == 0) ==> uerr is None && u == q && c.stdout == b.stdout + o && c.stderr == b.stderr + r
        }),
    decreases bytes.len(),
{
    assert(b.stdout + Seq::<char>::empty() =~= b.stdout);
    assert(b.stderr + Seq::<char>::empty() =~= b.stderr);
    if bytes.len() > 0 {
        let n = spec_segment_len(bytes);
        lemma_segment_len_bounds(bytes);
        if n > 0 && p.pending.len() + n <= MAX_FRAME_BYTES {
            let frame = p.pending + bytes.take(n as int);
            let p1 = ProgressView { pending: frame, ..p };
            if bytes[n - 1] != 10 {
                lemma_ingest_is_unbounded(p1, bytes.skip(n as int), b);
            } else {
                match spec_frame_event(frame) {
                    None => {},
                    Some(e) => {
                        let p2 = ProgressView { pending: Seq::empty(), ..p1 };
                        if p2.terminal is None {
                            let (p3, b3, err) = spec_apply(p2, b, e);
                            lemma_apply_unbounded(p2, b, e);
                            let (q3, o, r, er) = apply_unbounded(p2, e);
                            if err is None {
                                lemma_ingest_batch(p3, bytes.skip(n as int), b3);
                                if b3.omitted == 0 {
                                    lemma_ingest_is_unbounded(p3, bytes.skip(n as int), b3);
                                    let (u4, o4, r4, e4) = ingest_unbounded(p3, bytes.skip(n as int));
                                    assert(b.stdout + o + o4 =~= b.stdout + (o + o4));
                                    assert(b.stderr + r + r4 =~= b.stderr + (r + r4));
                                }
                            }
                        }
                    },
                }
            }
        }
    }
}

/// Where the output of a decoding with no budget fits in the batch, the
/// decoding keeps all of it and omits nothing.
proof fn lemma_unbounded_fits(p: ProgressView, bytes: Seq<u8>, b: BatchView)
    requires
        b.omitted == 0,
        ingest_unbounded(p, bytes).3 is None,
        text_size(b.stdout, b.stderr) + text_size(ingest_unbounded(p, bytes).1, ingest_unbounded(p, bytes).2) <= MAX_BATCH_BYTES,
    ensures
        spec_ingest(p, bytes, b) == (ingest_unbounded(p, bytes).0,
            BatchView { stdout: b.stdout + ingest_unbounded(p, bytes).1, stderr: b.stderr + ingest_unbounded(p, bytes).2, omitted: 0 },
            None::<IngestError>),
    decreases bytes.len(),
{
    assert(b.stdout + Seq::<char>::empty() =~= b.stdout);
    assert(b.stderr + Seq::<char>::empty() =~= b.stderr);
    if bytes.len() > 0 {
        let n = spec_segment_len(bytes);
        lemma_segment_len_bounds(bytes);
        if n > 0 && p.pending.len() + n <= MAX_FRAME_BYTES {
            let frame = p.pending + bytes.take(n as int);
            let p1 = ProgressView { pending: frame, ..p };
            if bytes[n - 1] != 10 {
                lemma_unbounded_fits(p1, bytes.skip(n as int), b);
            } else {
                match spec_frame_event(frame) {
                    None => {},
                    Some(e) => {
                        let p2 = ProgressView { pending: Seq::empty(), ..p1 };
                        if p2.terminal is None {
                            let (q3, o, r, er) = apply_unbounded(p2, e);
                            if er is None {
                                let (u4, o4, r4, e4) = ingest_unbounded(q3, bytes.skip(n as int));
                                lemma_utf8_len_concat(o, o4);
                                lemma_utf8_len_concat(r, r4);
                                lemma_utf8_len_concat(b.stdout, o);
                                lemma_utf8_len_concat(b.stderr, r);
                                lemma_apply_unbounded(p2, b, e);
                                let (p3, b3, err) = spec_apply(p2, b, e);
                                lemma_unbounded_fits(q3, bytes.skip(n as int), b3);
                                assert(b.stdout + o + o4 =~= b.stdout + (o + o4));
                                assert(b.stderr + r + r4 =~= b.stderr + (r + r4));
                            }
                        }
                    },
                }
            }
        }
    }
}


/// How the first segment of `x + y` relates to that of `x`: where `x` holds
/// a newline the two agree; where it holds none, the segment runs on into
/// the first segment of `y`.
proof fn lemma_segment_split(x: Seq<u8>, y: Seq<u8>)
    ensures
        spec_segment_len(x) <= x.len(),
        (x.len() > 0 && x[spec_segment_len(x) - 1] == 10) ==> spec_segment_len(x + y) == spec_segment_len(x),
        (x.len() == 0 || x[spec_segment_len(x) - 1] != 10) ==> spec_segment_len(x) == x.len()
            && spec_segment_len(x + y) == x.len() + spec_segment_len(y),
    decreases x.len(),
{
    lemma_segment_len_bounds(x);
    if x.len() == 0 {
        assert(x + y =~= y);
    } else if x[0] != 10 {
        let x1 = x.drop_first();
        assert((x + y).drop_first() =~= x1 + y);
        assert((x + y)[0] == x[0]);
        lemma_segment_split(x1, y);
        lemma_segment_len_bounds(x1);
        if x1.len() > 0 {
            assert(x[spec_segment_len(x) - 1] == x1[spec_segment_len(x1) - 1]);
        }
    } else {
        assert((x + y)[0] == x[0]);
    }
}

/// Splitting the input anywhere: decoding the whole with no budget fails
/// nowhere exactly when decoding the first part and then the rest fails
/// nowhere, and the two give the same final state and the same output.
proof fn lemma_unbounded_split(p: ProgressView, x: Seq<u8>, y: Seq<u8>)
    requires
        ingest_unbounded(p, x + y).3 is None,
    ensures
        ({
            let w = ingest_unbounded(p, x + y);
            let a = ingest_unbounded(p, x);
            let c = ingest_unbounded(a.0, y);
            &&& a.3 is None && c.3 is None
            &&& c.0 == w.0
            &&& a.1 + c.1 == w.1
            &&& a.2 + c.2 == w.2
        }),
    decreases x.len(),
{
    let b = x + y;
    if x.len() == 0 {
        assert(b =~= y);
        assert(Seq::<char>::empty() + ingest_unbounded(p, y).1 =~= ingest_unbounded(p, y).1);
        assert(Seq::<char>::empty() + ingest_unbounded(p, y).2 =~= ingest_unbounded(p, y).2);
    } else {
        lemma_segment_split(x, y);
        lemma_segment_len_bounds(x);
        lemma_segment_len_bounds(b);
        let n = spec_segment_len(b);
        let nx = spec_segment_len(x);
        if x[nx - 1] == 10 {
            // The first frame ends inside `x`: both decodings take it alike.
            assert(b.take(n as int) =~= x.take(n as int));
            assert(b[n - 1] == x[n - 1]);
            assert(b.skip(n as int) =~= x.skip(n as int) + y);
            let frame = p.pending + b.take(n as int);
            let p1 = ProgressView { pending: frame, ..p };
            let e = spec_frame_event(frame)->0;
            let p2 = ProgressView { pending: Seq::empty(), ..p1 };
            let (p3, o, r, er) = apply_unbounded(p2, e);
            lemma_unbounded_split(p3, x.skip(n as int), y);
            let a1 = ingest_unbounded(p3, x.skip(n as int));
            let c = ingest_unbounded(a1.0, y);
            assert(o + a1.1 + c.1 =~= o + (a1.1 + c.1));
            assert(r + a1.2 + c.2 =~= r + (a1.2 + c.2));
        } else {
            // No newline in `x`: it only extends the carried-over frame.
            let px = ProgressView { pending: p.pending + x, ..p };
            if y.len() == 0 {
                assert(b =~= x);
                let a = ingest_unbounded(p, x);
                assert(ingest_unbounded(a.0, y) == (a.0, Seq::<char>::empty(), Seq::<char>::empty(), None::<IngestError>));
                assert(a.1 + Seq::<char>::empty() =~= a.1);
                assert(a.2 + Seq::<char>::empty() =~= a.2);
            } else {
                lemma_segment_len_bounds(y);
                lemma_unbounded_extend(p, x, y);
                lemma_unbounded_partial(p, x);
                let c = ingest_unbounded(px, y);
                assert(Seq::<char>::empty() + c.1 =~= c.1);
                assert(Seq::<char>::empty() + c.2 =~= c.2);
            }
        }
    }
}

/// Input with no newline only extends the carried-over frame.
proof fn lemma_unbounded_partial(p: ProgressView, x: Seq<u8>)
    requires
        x.len() > 0,
        spec_segment_len(x) == x.len(),
        x[x.len() - 1] != 10,
        p.pending.len() + x.len() <= MAX_FRAME_BYTES,
    ensures
        ingest_unbounded(p, x) == (ProgressView { pending: p.pending + x, ..p }, Seq::<char>::empty(), Seq::<char>::empty(), None::<IngestError>),
{
    let n = x.len() as int;
    assert(x.take(n) =~= x);
    assert(x.skip(n) =~= Seq::<u8>::empty());
    let px = ProgressView { pending: p.pending + x, ..p };
    assert(ingest_unbounded(px, Seq::<u8>::empty()) == (px, Seq::<char>::empty(), Seq::<char>::empty(), None::<IngestError>));
}

/// Where `x` holds no newline, decoding `x + y` is decoding `y` with `x`
/// carried over.
proof fn lemma_unbounded_extend(p: ProgressView, x: Seq<u8>, y: Seq<u8>)
    requires
        x.len() > 0,
        y.len() > 0,
        spec_segment_len(x) == x.len(),
        spec_segment_len(x + y) == x.len() + spec_segment_len(y),
        spec_segment_len(y) >= 1,
        spec_segment_len(y) <= y.len(),
        p.pending.len() + x.len() + spec_segment_len(y) <= MAX_FRAME_BYTES,
    ensures
        ingest_unbounded(p, x + y) == ingest_unbounded(ProgressView { pending: p.pending + x, ..p }, y),
{
    let b = x + y;
    let px = ProgressView { pending: p.pending + x, ..p };
    let n = spec_segment_len(b);
    let ny = spec_segment_len(y);
    assert(b.take(n as int) =~= x + y.take(ny as int));
    assert(p.pending + b.take(n as int) =~= px.pending + y.take(ny as int));
    assert(b[n - 1] == y[ny - 1]);
    assert(b.skip(n as int) =~= y.skip(ny as int));
    let p1 = ProgressView { pending: p.pending + b.take(n as int), ..p };
    let q1 = ProgressView { pending: px.pending + y.take(ny as int), ..px };
    assert(p1 == q1);
    assert(p.pending.len() + n == px.pending.len() + ny);
}


/// Splitting the runner's byte stream anywhere changes nothing: where one
/// `ingest` of `x + y` succeeds and omits no output, an `ingest` of `x`
/// followed by an `ingest` of `y` succeeds too, omits nothing, ends in the
/// same state (the same terminal event among it), and the two batches'
/// streams joined are the one batch's streams.
pub proof fn lemma_ingest_split(p: ProgressView, x: Seq<u8>, y: Seq<u8>)
    requires
        spec_ingest(p, x + y, BatchView { stdout: Seq::empty(), stderr: Seq::empty(), omitted: 0 }).2 is None,
        spec_ingest(p, x + y, BatchView { stdout: Seq::empty(), stderr: Seq::empty(), omitted: 0 }).1.omitted == 0,
    ensures
        ({
            let empty = BatchView { stdout: Seq::empty(), stderr: Seq::empty(), omitted: 0 };
            let w = spec_ingest(p, x + y, empty);
            let a = spec_ingest(p, x, empty);
            let c = spec_ingest(a.0, y, empty);
            &&& a.2 is None && c.2 is None
            &&& a.1.omitted == 0 && c.1.omitted == 0
            &&& c.0 == w.0
            &&& a.1.stdout + c.1.stdout == w.1.stdout
            &&& a.1.stderr + c.1.stderr == w.1.stderr
        }),
{
    let empty = BatchView { stdout: Seq::<char>::empty(), stderr: Seq::<char>::empty(), omitted: 0 };
    assert(utf8_len(Seq::<char>::empty()) == 0) by {
        assert(vstd::utf8::encode_utf8(Seq::<char>::empty()) =~= Seq::<u8>::empty());
    }
    lemma_ingest_is_unbounded(p, x + y, empty);
    lemma_ingest_batch(p, x + y, empty);
    let u = ingest_unbounded(p, x + y);
    assert(Seq::<char>::empty() + u.1 =~= u.1);
    assert(Seq::<char>::empty() + u.2 =~= u.2);
    lemma_unbounded_split(p, x, y);
    let a = ingest_unbounded(p, x);
    let c = ingest_unbounded(a.0, y);
    lemma_utf8_len_concat(a.1, c.1);
    lemma_utf8_len_concat(a.2, c.2);
    assert(Seq::<char>::empty() + a.1 =~= a.1);
    assert(Seq::<char>::empty() + a.2 =~= a.2);
    assert(Seq::<char>::empty() + c.1 =~= c.1);
    assert(Seq::<char>::empty() + c.2 =~= c.2);
    lemma_unbounded_fits(p, x, empty);
    lemma_unbounded_fits(a.0, y, empty);
}

/// A segment that does not end in a newline is the whole input, which then
/// holds no newline.
proof fn lemma_segment_without_newline(bytes: Seq<u8>)
    requires
        bytes.len() > 0,
        bytes[spec_segment_len(bytes) - 1] != 10,
    ensures
        spec_segment_len(bytes) == bytes.len(),
        !bytes.contains(10u8),
    decreases bytes.len(),
{
    lemma_segment_len_bounds(bytes);
    if bytes[0] != 10 && bytes.len() > 1 {
        let rest = bytes.drop_first();
        lemma_segment_len_bounds(rest);
        assert(bytes[spec_segment_len(bytes) - 1] == rest[spec_segment_len(rest) - 1]);
        lemma_segment_without_newline(rest);
        assert forall|j: int| 0 <= j < bytes.len() implies bytes[j] != 10 by {
            if j > 0 {
                assert(bytes[j] == rest[j - 1]);
            }
        }
    }
}

/// Once the run has ended, nothing changes its end: decoding any input
/// leaves the terminal event as it was, and input that completes a frame
/// is refused, whatever the frame holds.
pub proof fn lemma_nothing_after_terminal(p: ProgressView, bytes: Seq<u8>, b: BatchView)
    requires
        p.terminal is Some,
    ensures
        spec_ingest(p, bytes, b).0.terminal == p.terminal,
        bytes.contains(10u8) ==> spec_ingest(p, bytes, b).2 is Some,
    decreases bytes.len(),
{
    if bytes.len() > 0 {
        let n = spec_segment_len(bytes);
        lemma_segment_len_bounds(bytes);
        if p.pending.len() + n <= MAX_FRAME_BYTES {
            let frame = p.pending + bytes.take(n as int);
            let p1 = ProgressView { pending: frame, ..p };
            if bytes[n - 1] != 10 {
                lemma_segment_without_newline(bytes);
                lemma_nothing_after_terminal(p1, bytes.skip(n as int), b);
            }
        }
    }
}

/// An accepted run request is the JSON text of an object that asks to
/// `run` with the given id, working directory, arguments and timeout, in the
/// foreground, and that carries the script the way it was given: source
/// text under `source` (and no `script_path`), or a script path under
/// `script_path` (and no `source`).
pub proof fn lemma_request_carries_its_script(
    source: Option<Seq<char>>,
    script_path: Option<Seq<char>>,
    args: Seq<Seq<char>>,
    timeout_ms: u64,
    id: Seq<char>,
    cwd: Seq<char>,
)
    requires
        spec_request(source, script_path, args, timeout_ms, id, cwd) is Ok,
    ensures
        exists|v: Json| {
            &&& spec_request(source, script_path, args, timeout_ms, id, cwd) == Ok::<Seq<char>, Seq<char>>(json_text(v))
            &&& crate::json::spec_member(v, "op"@) == Some(Json::Str("run"@))
            &&& crate::json::spec_member(v, "id"@) == Some(Json::Str(id))
            &&& crate::json::spec_member(v, "cwd"@) == Some(Json::Str(cwd))
            &&& crate::json::spec_member(v, "background"@) == Some(Json::Bool(false))
            &&& crate::json::spec_member(v, "timeout_ms"@) == Some(Json::Number(Num::PosInt(timeout_ms)))
            &&& crate::json::spec_member(v, "args"@) == Some(Json::Array(Seq::new(args.len(), |i: int| Json::Str(args[i]))))
            &&& (source matches Some(s) ==> crate::json::spec_member(v, "source"@) == Some(Json::Str(s)) && crate::json::spec_member(v, "script_path"@) is None)
            &&& (source is None ==> (script_path matches Some(p) && crate::json::spec_member(v, "script_path"@) == Some(Json::Str(p))
                    && crate::json::spec_member(v, "source"@) is None))
        },
{
    reveal_strlit("args");
    reveal_strlit("background");
    reveal_strlit("cwd");
    reveal_strlit("id");
    reveal_strlit("op");
    reveal_strlit("source");
    reveal_strlit("script_path");
    reveal_strlit("timeout_ms");
    let is_source = source is Some;
    let script = match source { Some(s) => s, None => script_path->0 };
    let v = spec_request_object(args, cwd, id, is_source, script, timeout_ms);
    let ms = seq![
        ("args"@, spec_string_array(args)),
        ("background"@, Json::Bool(false)),
        ("cwd"@, Json::Str(cwd)),
        ("id"@, Json::Str(id)),
        ("op"@, Json::Str("run"@)),
        (if is_source { "source"@ } else { "script_path"@ }, Json::Str(script)),
        ("timeout_ms"@, Json::Number(Num::PosInt(timeout_ms))),
    ];
    assert(v == Json::Object(ms));
    assert("args"@.len() == 4 && "background"@.len() == 10 && "cwd"@.len() == 3 && "id"@.len() == 2
        && "op"@.len() == 2 && "source"@.len() == 6 && "script_path"@.len() == 11 && "timeout_ms"@.len() == 10);
    assert("args"@ != "cwd"@ && "background"@ != "cwd"@);
    assert("id"@[0] != "op"@[0]);
    assert("background"@[0] != "timeout_ms"@[0]);
    crate::json::lemma_lookup_at(ms, "args"@, 0);
    crate::json::lemma_lookup_at(ms, "background"@, 1);
    crate::json::lemma_lookup_at(ms, "cwd"@, 2);
    crate::json::lemma_lookup_at(ms, "id"@, 3);
    crate::json::lemma_lookup_at(ms, "op"@, 4);
    crate::json::lemma_lookup_at(ms, "timeout_ms"@, 6);
    if is_source {
        crate::json::lemma_lookup_at(ms, "source"@, 5);
        crate::json::lemma_lookup_absent(ms, "script_path"@);
    } else {
        crate::json::lemma_lookup_at(ms, "script_path"@, 5);
        crate::json::lemma_lookup_absent(ms, "source"@);
    }
    assert(spec_request(source, script_path, args, timeout_ms, id, cwd) == Ok::<Seq<char>, Seq<char>>(json_text(v)));
    assert(crate::json::spec_member(v, "op"@) == Some(Json::Str("run"@)));
    assert(crate::json::spec_member(v, "args"@) == Some(Json::Array(Seq::new(args.len(), |i: int| Json::Str(args[i])))));
    assert(crate::json::spec_member(v, "timeout_ms"@) == Some(Json::Number(Num::PosInt(timeout_ms))));
    assert(source matches Some(s) ==> crate::json::spec_member(v, "source"@) == Some(Json::Str(s)) && crate::json::spec_member(v, "script_path"@) is None);
    assert(source is None ==> (script_path matches Some(p) && crate::json::spec_member(v, "script_path"@) == Some(Json::Str(p))
                    && crate::json::spec_member(v, "source"@) is None));
}

/// The reply's state fields as JSON: an `i32` as a JSON integer.
pub open spec fn int_member(n: i32) -> Json {
    if n >= 0 { Json::Number(Num::PosInt(n as u64)) } else { Json::Number(Num::NegInt(n as i64)) }
}

/// Whatever output a reply keeps, it reports the job and its state as they
/// are: `job_id`, and the `state` (`running`, `completed`, `stopped` or
/// `failed`) with the terminal event's own fields: the exit code and
/// duration of a completed run, the duration of a stopped one, the error of
/// a failed one.
pub proof fn lemma_reply_reports_state(job_id: Option<Seq<char>>, terminal: Option<TerminalView>, stdout: Seq<char>, stderr: Seq<char>, omitted: nat)
    ensures
        ({
            let v = spec_reply(job_id, terminal, stdout, stderr, omitted);
            let member = |k: Seq<char>| crate::json::spec_member(v, k);
            &&& member("job_id"@) == Some(match job_id { Some(j) => Json::Str(j), None => Json::Null })
            &&& match terminal {
                None => member("state"@) == Some(Json::Str("running"@)),
                Some(TerminalView::Completed { exit_code, duration_ms }) => {
                    &&& member("state"@) == Some(Json::Str("completed"@))
                    &&& member("exit_code"@) == Some(int_member(exit_code))
                    &&& member("duration_ms"@) == Some(Json::Number(Num::PosInt(duration_ms)))
                },
                Some(TerminalView::Stopped { duration_ms }) => {
                    &&& member("state"@) == Some(Json::Str("stopped"@))
                    &&& member("duration_ms"@) == Some(Json::Number(Num::PosInt(duration_ms)))
                },
                Some(TerminalView::Failed { kind, message }) => {
                    &&& member("state"@) == Some(Json::Str("failed"@))
                    &&& member("error"@) == Some(Json::Object(seq![("kind"@, Json::Str(kind)), ("message"@, Json::Str(message))]))
                },
            }
        }),
{
    lemma_reply_keeps_prefixes_base(job_id, terminal, stdout, stderr, omitted);
    let (o, e) = reply_streams(job_id, terminal, stdout, stderr, omitted);
    let om = omitted + (utf8_len(stdout) - utf8_len(o)) as nat + (utf8_len(stderr) - utf8_len(e)) as nat;
    let v = spec_reply(job_id, terminal, stdout, stderr, omitted);
    assert(v == spec_reply_object(job_id, terminal, o, e, om));
    reveal_strlit("job_id");
    reveal_strlit("state");
    reveal_strlit("exit_code");
    reveal_strlit("duration_ms");
    reveal_strlit("error");
    reveal_strlit("omitted_bytes");
    reveal_strlit("stderr");
    reveal_strlit("stdout");
    assert("job_id"@.len() == 6 && "state"@.len() == 5 && "exit_code"@.len() == 9 && "duration_ms"@.len() == 11
        && "error"@.len() == 5 && "omitted_bytes"@.len() == 13 && "stderr"@.len() == 6 && "stdout"@.len() == 6);
    assert("error"@[0] != "state"@[0]);
    assert("job_id"@[0] != "stderr"@[0] && "job_id"@[0] != "stdout"@[0]);
    let job = match job_id { Some(j) => Json::Str(j), None => Json::Null };
    let tail = seq![
        ("job_id"@, job),
        ("omitted_bytes"@, Json::Number(Num::PosInt(om as u64))),
    ];
    let streams = seq![("stderr"@, Json::Str(e)), ("stdout"@, Json::Str(o))];
    match terminal {
        None => {
            let ms = tail + seq![("state"@, Json::Str("running"@))] + streams;
            assert(v == Json::Object(ms));
            crate::json::lemma_lookup_at(ms, "job_id"@, 0);
            crate::json::lemma_lookup_at(ms, "state"@, 2);
        },
        Some(TerminalView::Completed { exit_code, duration_ms }) => {
            let ms = seq![("duration_ms"@, Json::Number(Num::PosInt(duration_ms))), ("exit_code"@, spec_i32_json(exit_code))]
                + tail + seq![("state"@, Json::Str("completed"@))] + streams;
            assert(v == Json::Object(ms));
            crate::json::lemma_lookup_at(ms, "duration_ms"@, 0);
            crate::json::lemma_lookup_at(ms, "exit_code"@, 1);
            crate::json::lemma_lookup_at(ms, "job_id"@, 2);
            crate::json::lemma_lookup_at(ms, "state"@, 4);
        },
        Some(TerminalView::Stopped { duration_ms }) => {
            let ms = seq![("duration_ms"@, Json::Number(Num::PosInt(duration_ms)))]
                + tail + seq![("state"@, Json::Str("stopped"@))] + streams;
            assert(v == Json::Object(ms));
            crate::json::lemma_lookup_at(ms, "duration_ms"@, 0);
            crate::json::lemma_lookup_at(ms, "job_id"@, 1);
            crate::json::lemma_lookup_at(ms, "state"@, 3);
        },
        Some(TerminalView::Failed { kind, message }) => {
            let ms = seq![("error"@, Json::Object(seq![("kind"@, Json::Str(kind)), ("message"@, Json::Str(message))]))]
                + tail + seq![("state"@, Json::Str("failed"@))] + streams;
            assert(v == Json::Object(ms));
            crate::json::lemma_lookup_at(ms, "error"@, 0);
            crate::json::lemma_lookup_at(ms, "job_id"@, 1);
            crate::json::lemma_lookup_at(ms, "state"@, 3);
        },
    }
}

} // verus!
