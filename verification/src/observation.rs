//! What the Responses proxy observes of each upstream request: numbered
//! request traces, their rows, and the events read out of the SSE stream.
use vstd::prelude::*;
use crate::json::{Json, JsonNumber, JsonValue, Num, json_parse, parse_json, spec_as_str, spec_field, spec_is_text};
use crate::json_object::{extend_members, member_views, object1, object2, object_of, spec_extend};
use crate::text::{decimal, owned, push_all, push_char, push_decimal};
use crate::trace::next_id;

verus! {

/// Numbers the requests that the proxy forwards and knows where their
/// traces go.
pub struct Observer {
    directory: String,
    sequence: u64,
}

impl Observer {
    pub closed spec fn spec_directory(&self) -> Seq<char> {
        self.directory@
    }

    pub closed spec fn spec_sequence(&self) -> u64 {
        self.sequence
    }

    /// An observer writing into `directory`; the first request is number 1.
    pub fn new(directory: String) -> (o: Observer)
        ensures
            o.spec_directory() == directory@,
            o.spec_sequence() == 1,
    {
        Observer { directory, sequence: 1 }
    }

    /// The directory that receives the request traces.
    pub fn directory(&self) -> (r: &str)
        ensures
            r@ == self.spec_directory(),
    {
        self.directory.as_str()
    }

    /// Starts the trace of the next request. `context` is the content of
    /// `context.json` when it could be read; a context that is not JSON is
    /// replaced by an empty object.
    pub fn request(&mut self, context: Option<&[u8]>) -> (t: RequestTrace)
        ensures
            t.spec_id() == old(self).spec_sequence(),
            final(self).spec_sequence() == (if old(self).spec_sequence() == u64::MAX { 0 } else { (old(self).spec_sequence() + 1) as u64 }),
            final(self).spec_directory() == old(self).spec_directory(),
            t.spec_sequence() == 1,
            t.spec_context() == match context {
                Some(b) => match json_parse(b@) {
                    Some(v) => v,
                    None => Json::Object(Seq::empty()),
                },
                None => Json::Object(Seq::empty()),
            },
    {
        let value = match context {
            Some(bytes) => match parse_json(bytes) {
                Some(v) => v,
                None => object_of(Vec::new()),
            },
            None => object_of(Vec::new()),
        };
        proof {
            assert(member_views(Seq::<(String, JsonValue)>::empty()) =~= Seq::empty());
        }
        let id = next_id(&mut self.sequence);
        RequestTrace { context: value, id, sequence: 1 }
    }
}

/// The trace of one forwarded request.
pub struct RequestTrace {
    context: JsonValue,
    id: u64,
    sequence: u64,
}

/// A JSON number from a `u64`.
pub open spec fn num(n: u64) -> Json {
    Json::Number(Num::PosInt(n))
}

/// The members of a request trace row before the context is added.
pub open spec fn base_row(event: Seq<char>, id: u64, sequence: u64, now: Option<u64>, pid: u32, detail: Json) -> Seq<(Seq<char>, Json)> {
    seq![
        ("schema_version"@, num(2)),
        ("phase"@, Json::Str("external"@)),
        ("event"@, Json::Str(event)),
        ("request_id"@, num(id)),
        ("sequence"@, num(sequence)),
        ("monotonic_ns"@, match now { Some(t) => num(t), None => Json::Null }),
        ("clock_domain"@, Json::Str("os-monotonic"@)),
        ("parent_id"@, Json::Null),
        ("pid"@, num(pid as u64)),
        ("exit_code"@, Json::Null),
        ("signal"@, Json::Null),
        ("stdout_bytes"@, Json::Null),
        ("stderr_bytes"@, Json::Null),
        ("status"@, Json::Str("unknown"@)),
        ("failure_class"@, Json::Null),
        ("confidence"@, Json::Str("observed"@)),
        ("detail"@, detail),
    ]
}

/// A request trace row: the fixed members, then the members of the context
/// object (which take precedence).
pub open spec fn spec_trace_row(context: Json, event: Seq<char>, id: u64, sequence: u64, now: Option<u64>, pid: u32, detail: Json) -> Json {
    let base = base_row(event, id, sequence, now, pid, detail);
    match context {
        Json::Object(members) => Json::Object(spec_extend(base, members)),
        _ => Json::Object(base),
    }
}

fn push_member(m: &mut Vec<(String, JsonValue)>, key: &str, value: JsonValue)
    ensures
        member_views(final(m)@) == member_views(old(m)@).push((key@, value@)),
{
    let ghost before = member_views(m@);
    let ghost v = value@;
    m.push((owned(key), value));
    assert(member_views(m@) =~= before.push((key@, v)));
}

fn number(n: u64) -> (r: JsonValue)
    ensures
        r@ == num(n),
{
    JsonValue::Number(JsonNumber::PosInt(n))
}

fn text(s: &str) -> (r: JsonValue)
    ensures
        r@ == Json::Str(s@),
{
    JsonValue::Str(owned(s))
}

impl RequestTrace {
    pub closed spec fn spec_id(&self) -> u64 {
        self.id
    }

    pub closed spec fn spec_sequence(&self) -> u64 {
        self.sequence
    }

    pub closed spec fn spec_context(&self) -> Json {
        self.context@
    }

    /// The request's number.
    pub fn id(&self) -> (r: u64)
        ensures
            r == self.spec_id(),
    {
        self.id
    }

    /// The file of this request's rows: `request-<id>.jsonl`, the number
    /// written with at least six digits.
    pub fn file_name(&self) -> (r: String)
        ensures
            r@ == spec_request_file(self.spec_id()),
    {
        let mut out = owned("request-");
        let digits = crate::text::u64_text(self.id);
        let n = digits.as_str().unicode_len();
        let mut pad = n;
        assert(out@ =~= "request-"@ + Seq::new(0, |i: int| '0'));
        while pad < 6
            invariant
                n == digits@.len(),
                n <= pad,
                pad <= 6 || pad == n,
                out@ == "request-"@ + Seq::new((pad - n) as nat, |i: int| '0'),
                digits@ == decimal(self.id as nat),
            decreases 6 - pad,
        {
            push_char(&mut out, '0');
            assert(out@ =~= "request-"@ + Seq::new((pad + 1 - digits@.len()) as nat, |i: int| '0'));
            pad += 1;
        }
        push_all(&mut out, digits.as_str());
        push_all(&mut out, ".jsonl");
        out
    }

    /// The next row of this request's trace; advances the row sequence.
    pub fn emit(&mut self, event: &str, detail: JsonValue, now: Option<u64>, pid: u32) -> (row: JsonValue)
        ensures
            row@ == spec_trace_row(old(self).spec_context(), event@, old(self).spec_id(), old(self).spec_sequence(), now, pid, detail@),
            final(self).spec_id() == old(self).spec_id(),
            final(self).spec_context() == old(self).spec_context(),
            final(self).spec_sequence() == (if old(self).spec_sequence() == u64::MAX { 0 } else { (old(self).spec_sequence() + 1) as u64 }),
    {
        let ghost d = detail@;
        let seq = next_id(&mut self.sequence);
        let mut m: Vec<(String, JsonValue)> = Vec::new();
        push_member(&mut m, "schema_version", number(2));
        push_member(&mut m, "phase", text("external"));
        push_member(&mut m, "event", text(event));
        push_member(&mut m, "request_id", number(self.id));
        push_member(&mut m, "sequence", number(seq));
        push_member(&mut m, "monotonic_ns", match now { Some(t) => number(t), None => JsonValue::Null });
        push_member(&mut m, "clock_domain", text("os-monotonic"));
        push_member(&mut m, "parent_id", JsonValue::Null);
        push_member(&mut m, "pid", number(pid as u64));
        push_member(&mut m, "exit_code", JsonValue::Null);
        push_member(&mut m, "signal", JsonValue::Null);
        push_member(&mut m, "stdout_bytes", JsonValue::Null);
        push_member(&mut m, "stderr_bytes", JsonValue::Null);
        push_member(&mut m, "status", text("unknown"));
        push_member(&mut m, "failure_class", JsonValue::Null);
        push_member(&mut m, "confidence", text("observed"));
        push_member(&mut m, "detail", detail);
        assert(member_views(m@) =~= base_row(event@, self.id, seq, now, pid, d));
        match &self.context {
            JsonValue::Object(members) => {
                proof {
                    crate::json_object::lemma_object_view(*members);
                }
                extend_members(&mut m, members);
            },
            _ => {},
        }
        object_of(m)
    }
}

/// The file of a request's rows.
pub open spec fn spec_request_file(id: u64) -> Seq<char> {
    let d = decimal(id as nat);
    "request-"@ + Seq::new(if d.len() < 6 { (6 - d.len()) as nat } else { 0 }, |i: int| '0') + d + ".jsonl"@
}


/// An event for the request trace: its name and its detail.
pub type Emitted = (Seq<char>, Json);

/// The views of some events.
pub open spec fn emitted_views(v: Seq<(String, JsonValue)>) -> Seq<Emitted> {
    v.map_values(|e: (String, JsonValue)| (e.0@, e.1@))
}

/// The position of the first newline byte (the length when there is none).
pub open spec fn newline_at(buf: Seq<u8>) -> nat
    decreases buf.len(),
{
    if buf.len() == 0 {
        0
    } else if buf[0] == 10 {
        0
    } else {
        1 + newline_at(buf.drop_first())
    }
}

proof fn lemma_newline_at(buf: Seq<u8>, i: int)
    requires
        0 <= i <= buf.len(),
        forall|j: int| 0 <= j < i ==> buf[j] != 10,
        i < buf.len() ==> buf[i] == 10,
    ensures
        newline_at(buf) == i,
    decreases i,
{
    if i > 0 {
        assert forall|j: int| 0 <= j < i - 1 implies buf.drop_first()[j] != 10 by {
            assert(buf.drop_first()[j] == buf[j + 1]);
        }
        if i < buf.len() {
            assert(buf.drop_first()[i - 1] == buf[i]);
        }
        lemma_newline_at(buf.drop_first(), i - 1);
    }
}

pub proof fn lemma_newline_bound(buf: Seq<u8>)
    ensures
        newline_at(buf) <= buf.len(),
    decreases buf.len(),
{
    if buf.len() > 0 && buf[0] != 10 {
        lemma_newline_bound(buf.drop_first());
    }
}

/// The bytes `data:`.
pub open spec fn data_prefix() -> Seq<u8> {
    seq![100u8, 97u8, 116u8, 97u8, 58u8]
}

/// The event for a completed tool call item, if the SSE value is one.
pub open spec fn tool_events(v: Json) -> Seq<Emitted> {
    let item = spec_field(v, "item"@);
    let kind = spec_as_str(spec_field(item, "type"@));
    if spec_is_text(spec_field(v, "type"@), "response.output_item.done"@)
        && (kind == Some("function_call"@) || kind == Some("custom_tool_call"@)) {
        seq![("tool_arguments_complete"@, Json::Object(seq![("call_id"@, spec_field(item, "call_id"@)), ("tool"@, spec_field(item, "name"@))]))]
    } else {
        Seq::empty()
    }
}

/// The event for a completed response, if the SSE value is one.
pub open spec fn completion_events(v: Json) -> Seq<Emitted> {
    let response = spec_field(v, "response"@);
    if spec_is_text(spec_field(v, "type"@), "response.completed"@) {
        seq![("response_completed"@, Json::Object(seq![("response_id"@, spec_field(response, "id"@)), ("usage"@, spec_field(response, "usage"@))]))]
    } else {
        Seq::empty()
    }
}

/// The events of one complete SSE line (its newline included): only `data:`
/// lines holding JSON count.
pub open spec fn line_events(line: Seq<u8>) -> Seq<Emitted> {
    if line.len() >= 5 && line.take(5) == data_prefix() {
        match json_parse(line.skip(5)) {
            Some(v) => tool_events(v) + completion_events(v),
            None => Seq::empty(),
        }
    } else {
        Seq::empty()
    }
}

/// The events of the complete lines of `buf`, and what remains after the
/// last newline.
pub open spec fn sse_lines(buf: Seq<u8>) -> (Seq<Emitted>, Seq<u8>)
    decreases buf.len(),
{
    let k = newline_at(buf);
    proof {
        lemma_newline_bound(buf);
    }
    if k >= buf.len() {
        (Seq::empty(), buf)
    } else {
        let rest = sse_lines(buf.skip(k + 1int));
        (line_events(buf.take(k + 1int)) + rest.0, rest.1)
    }
}

/// The largest unfinished line that is kept.
pub open spec fn observation_cap() -> nat {
    4194304
}

/// The event that reports a dropped overlong line.
pub open spec fn censored_event() -> Emitted {
    ("sse_observation_censored"@, Json::Object(seq![("reason"@, Json::Str("line exceeds observation cap"@))]))
}

/// Reading `bytes` after `pending`: the events of the lines completed, and
/// the unfinished line, dropped (with an event) beyond the cap.
pub open spec fn spec_observe(pending: Seq<u8>, bytes: Seq<u8>) -> (Seq<Emitted>, Seq<u8>) {
    let r = sse_lines(pending + bytes);
    if r.1.len() > observation_cap() {
        (r.0.push(censored_event()), Seq::empty())
    } else {
        r
    }
}

/// The events of one complete SSE line.
fn events_of_line(line: &[u8]) -> (r: Vec<(String, JsonValue)>)
    ensures
        emitted_views(r@) == line_events(line@),
{
    let mut out: Vec<(String, JsonValue)> = Vec::new();
    let prefix = [100u8, 97u8, 116u8, 97u8, 58u8];
    assert(prefix@ =~= data_prefix());
    if line.len() < 5 {
        assert(emitted_views(out@) =~= Seq::<Emitted>::empty());
        return out;
    }
    let mut i: usize = 0;
    let mut same = true;
    while i < 5 && same
        invariant
            i <= 5,
            5 <= line.len(),
            prefix@ == data_prefix(),
            same ==> forall|j: int| 0 <= j < i ==> line@[j] == prefix@[j],
            !same ==> line@.take(5) != data_prefix(),
        decreases 5 - i + (if same { 1int } else { 0int }),
    {
        if line[i] != prefix[i] {
            assert(line@.take(5)[i as int] != data_prefix()[i as int]);
            same = false;
        } else {
            i += 1;
        }
    }
    if !same {
        assert(emitted_views(out@) =~= Seq::<Emitted>::empty());
        return out;
    }
    assert(line@.take(5) =~= data_prefix());
    let data = crate::text::slice_bytes(line, 5, line.len());
    assert(data@ =~= line@.skip(5));
    let value = match parse_json(data.as_slice()) {
        Some(v) => v,
        None => {
            assert(emitted_views(out@) =~= Seq::<Emitted>::empty());
            return out;
        },
    };
    let item = value.field("item");
    let kind = item.field_str("type");
    let tool = match kind {
        Some(k) => crate::json::str_eq(k, "function_call") || crate::json::str_eq(k, "custom_tool_call"),
        None => false,
    };
    if value.field("type").is_text("response.output_item.done") && tool {
        let detail = object2("call_id", item.field("call_id"), "tool", item.field("name"));
        out.push((owned("tool_arguments_complete"), detail));
    }
    let ghost first = emitted_views(out@);
    assert(first =~= tool_events(value@));
    if value.field("type").is_text("response.completed") {
        let response = value.field("response");
        let detail = object2("response_id", response.field("id"), "usage", response.field("usage"));
        out.push((owned("response_completed"), detail));
    }
    assert(emitted_views(out@) =~= tool_events(value@) + completion_events(value@));
    out
}

/// One step of line splitting over bytes.
proof fn lemma_sse_step(buf: Seq<u8>, start: int, end: int)
    requires
        0 <= start <= end < buf.len(),
        forall|j: int| start <= j < end ==> buf[j] != 10,
        buf[end] == 10,
    ensures
        sse_lines(buf.skip(start)) == (line_events(buf.subrange(start, end + 1)) + sse_lines(buf.skip(end + 1)).0, sse_lines(buf.skip(end + 1)).1),
{
    let rest = buf.skip(start);
    assert forall|j: int| 0 <= j < end - start implies rest[j] != 10 by {
        assert(rest[j] == buf[start + j]);
    }
    assert(rest[end - start] == buf[end]);
    lemma_newline_at(rest, end - start);
    assert(rest.take(end - start + 1) =~= buf.subrange(start, end + 1));
    assert(rest.skip(end - start + 1) =~= buf.skip(end + 1));
}

/// No newline remains: the whole rest is unfinished.
proof fn lemma_sse_tail(buf: Seq<u8>, start: int)
    requires
        0 <= start <= buf.len(),
        forall|j: int| start <= j < buf.len() ==> buf[j] != 10,
    ensures
        sse_lines(buf.skip(start)) == (Seq::<Emitted>::empty(), buf.skip(start)),
{
    let rest = buf.skip(start);
    assert forall|j: int| 0 <= j < rest.len() implies rest[j] != 10 by {
        assert(rest[j] == buf[start + j]);
    }
    lemma_newline_at(rest, rest.len() as int);
}

/// What the proxy has read of a response body so far.
pub struct ObservedBody {
    pub first: bool,
    pub finished: bool,
    pub pending: Vec<u8>,
}

/// The view of an [`ObservedBody`]: whether the first byte and the end were
/// seen, and the unfinished SSE line.
pub struct BodyView {
    pub first: bool,
    pub finished: bool,
    pub pending: Seq<u8>,
}

impl ObservedBody {
    pub open spec fn view(&self) -> BodyView {
        BodyView { first: self.first, finished: self.finished, pending: self.pending@ }
    }

    /// A body of which nothing has been read.
    pub fn new() -> (b: ObservedBody)
        ensures
            b@ == (BodyView { first: false, finished: false, pending: Seq::empty() }),
    {
        ObservedBody { first: false, finished: false, pending: Vec::new() }
    }

    /// Reads SSE bytes: returns the events of the lines they complete.
    pub fn observe_sse(&mut self, bytes: &[u8]) -> (events: Vec<(String, JsonValue)>)
        ensures
            emitted_views(events@) == spec_observe(old(self)@.pending, bytes@).0,
            final(self)@.pending == spec_observe(old(self)@.pending, bytes@).1,
            final(self).first == old(self).first,
            final(self).finished == old(self).finished,
    {
        let mut buf: Vec<u8> = Vec::new();
        let mut i: usize = 0;
        while i < self.pending.len()
            invariant
                i <= self.pending.len(),
                buf@ == self.pending@.take(i as int),
            decreases self.pending.len() - i,
        {
            buf.push(self.pending[i]);
            assert(self.pending@.take(i + 1) =~= self.pending@.take(i as int).push(self.pending@[i as int]));
            i += 1;
        }
        let mut k: usize = 0;
        let ghost base = self.pending@;
        assert(buf@ =~= base + bytes@.take(0));
        while k < bytes.len()
            invariant
                k <= bytes.len(),
                buf@ == base + bytes@.take(k as int),
            decreases bytes.len() - k,
        {
            buf.push(bytes[k]);
            assert(bytes@.take(k + 1) =~= bytes@.take(k as int).push(bytes@[k as int]));
            k += 1;
        }
        assert(bytes@.take(k as int) =~= bytes@);
        let ghost all = buf@;
        assert(all == base + bytes@);
        let mut events: Vec<(String, JsonValue)> = Vec::new();
        let mut start: usize = 0;
        assert(all.skip(0) =~= all);
        loop
            invariant
                start <= buf.len(),
                all == buf@,
                sse_lines(all) == (emitted_views(events@) + sse_lines(all.skip(start as int)).0, sse_lines(all.skip(start as int)).1),
            ensures
                start <= buf.len(),
                all == buf@,
                sse_lines(all) == (emitted_views(events@), all.skip(start as int)),
            decreases buf.len() - start,
        {
            let mut end = start;
            while end < buf.len() && buf[end] != 10
                invariant
                    start <= end <= buf.len(),
                    forall|j: int| start <= j < end ==> buf@[j] != 10,
                decreases buf.len() - end,
            {
                end += 1;
            }
            if end == buf.len() {
                proof {
                    lemma_sse_tail(all, start as int);
                    assert(emitted_views(events@) + Seq::<Emitted>::empty() =~= emitted_views(events@));
                }
                break;
            }
            proof {
                lemma_sse_step(all, start as int, end as int);
            }
            let line = crate::text::slice_bytes(buf.as_slice(), start, end + 1);
            let found = events_of_line(line.as_slice());
            let ghost before = emitted_views(events@);
            let mut f: usize = 0;
            let mut found = found;
            let ghost fv = emitted_views(found@);
            let mut moved: Vec<(String, JsonValue)> = Vec::new();
            while f < found.len()
                invariant
                    f <= found.len(),
                    fv == emitted_views(found@),
                    emitted_views(events@) == before + fv.take(f as int),
                decreases found.len() - f,
            {
                let e = (owned(found[f].0.as_str()), found[f].1.copy());
                let ghost prior = emitted_views(events@);
                events.push(e);
                assert(emitted_views(events@) =~= prior.push(fv[f as int]));
                assert(fv.take(f + 1) =~= fv.take(f as int).push(fv[f as int]));
                f += 1;
            }
            assert(fv.take(f as int) =~= fv);
            assert(emitted_views(events@) + sse_lines(all.skip(end + 1)).0 =~= before + (fv + sse_lines(all.skip(end + 1)).0));
            start = end + 1;
        }
        let rest = crate::text::slice_bytes(buf.as_slice(), start, buf.len());
        assert(rest@ =~= all.skip(start as int));
        assert(emitted_views(events@) + Seq::<Emitted>::empty() =~= emitted_views(events@));
        if rest.len() > 4194304 {
            let reason = object1("reason", JsonValue::Str(owned("line exceeds observation cap")));
            let ghost prior = emitted_views(events@);
            events.push((owned("sse_observation_censored"), reason));
            assert(emitted_views(events@) =~= prior.push(censored_event()));
            self.pending = Vec::new();
        } else {
            self.pending = rest;
        }
        events
    }

    /// Reads a chunk of the body (`read` returning `chunk.len()` bytes):
    /// the first byte and the end are noted once, every read is reported
    /// with its size, and the SSE lines it completes are observed.
    pub fn on_read(&mut self, chunk: &[u8]) -> (events: Vec<(String, JsonValue)>)
        ensures
            emitted_views(events@) == spec_read_events(old(self)@, chunk@),
            final(self)@ == spec_after_read(old(self)@, chunk@),
    {
        let mut events: Vec<(String, JsonValue)> = Vec::new();
        let n = chunk.len();
        if n > 0 && !self.first {
            events.push((owned("first_byte"), object_of(Vec::new())));
            self.first = true;
        }
        if n == 0 {
            self.finished = true;
        }
        let name = if n == 0 { "stream_eof" } else { "stream_chunk" };
        events.push((owned(name), object1("bytes", JsonValue::Number(JsonNumber::PosInt(n as u64)))));
        let ghost head = emitted_views(events@);
        proof {
            assert(member_views(Seq::<(String, JsonValue)>::empty()) =~= Seq::empty());
            assert(head =~= spec_read_head(old(self)@, chunk@));
        }
        let more = self.observe_sse(chunk);
        let mut f: usize = 0;
        let ghost mv = emitted_views(more@);
        while f < more.len()
            invariant
                f <= more.len(),
                mv == emitted_views(more@),
                emitted_views(events@) == head + mv.take(f as int),
            decreases more.len() - f,
        {
            let e = (owned(more[f].0.as_str()), more[f].1.copy());
            let ghost prior = emitted_views(events@);
            events.push(e);
            assert(emitted_views(events@) =~= prior.push(mv[f as int]));
            assert(mv.take(f + 1) =~= mv.take(f as int).push(mv[f as int]));
            f += 1;
        }
        assert(mv.take(f as int) =~= mv);
        events
    }

    /// The event for a failed read.
    pub fn on_error(&self, error: &str) -> (e: (String, JsonValue))
        ensures
            e.0@ == "stream_error"@,
            e.1@ == Json::Object(seq![("error"@, Json::Str(error@))]),
    {
        (owned("stream_error"), object1("error", JsonValue::Str(owned(error))))
    }

    /// The event for a body dropped before its end.
    pub fn on_drop(&self) -> (e: Option<(String, JsonValue)>)
        ensures
            self.finished ==> e is None,
            !self.finished ==> e is Some && e.unwrap().0@ == "stream_censored"@ && e.unwrap().1@ == Json::Object(Seq::empty()),
    {
        if self.finished {
            None
        } else {
            proof {
                assert(member_views(Seq::<(String, JsonValue)>::empty()) =~= Seq::empty());
            }
            Some((owned("stream_censored"), object_of(Vec::new())))
        }
    }
}


/// The events a read reports before its SSE lines.
pub open spec fn spec_read_head(b: BodyView, chunk: Seq<u8>) -> Seq<Emitted> {
    let size = ((if chunk.len() == 0 { "stream_eof"@ } else { "stream_chunk"@ }), Json::Object(seq![("bytes"@, num(chunk.len() as u64))]));
    if chunk.len() > 0 && !b.first {
        seq![("first_byte"@, Json::Object(Seq::empty())), size]
    } else {
        seq![size]
    }
}

/// The events of one read.
pub open spec fn spec_read_events(b: BodyView, chunk: Seq<u8>) -> Seq<Emitted> {
    spec_read_head(b, chunk) + spec_observe(b.pending, chunk).0
}

/// The body after one read.
pub open spec fn spec_after_read(b: BodyView, chunk: Seq<u8>) -> BodyView {
    BodyView {
        first: b.first || chunk.len() > 0,
        finished: b.finished || chunk.len() == 0,
        pending: spec_observe(b.pending, chunk).1,
    }
}

} // verus!
