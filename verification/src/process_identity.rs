//! Resolving a fixture's process, as recorded in its receipt, to a live
//! process of the collector's PID namespace, from what `/proc` shows.
use vstd::prelude::*;
use crate::codex_evidence::{newline_index, spec_lines};
use crate::json::{Json, JsonValue, spec_as_i64, spec_as_str, spec_as_u64, spec_field, str_eq};
use crate::text::{
    all_digits, char_views, chars_eq, chars_of, chars_starts_with, decimal, digits_value, i64_text,
    owned, parse_int, push_all, push_decimal, signed_decimal, spec_parse_int, spec_starts_with,
    split_words, words, occurs_at, IntError, rfind_chars, spec_rfind,
};

verus! {

/// Where a fixture's process stands.
pub enum Resolution {
    Live { pid: i32, identity: String },
    Gone,
    Unknown,
}

/// What `str::parse::<i32>` makes of a text.
pub open spec fn spec_parse_i32(s: Seq<char>) -> Option<i32> {
    if s.len() > 0 && s[0] == '-' {
        match spec_parse_int(s.drop_first(), 0x8000_0000) {
            Ok(v) => if s.len() > 1 && s[1] != '+' { Some((-v) as i32) } else { None },
            Err(_) => None,
        }
    } else {
        match spec_parse_int(s, 0x7fff_ffff) {
            Ok(v) => Some(v as i32),
            Err(_) => None,
        }
    }
}

/// Parses a signed 32-bit decimal integer.
pub fn parse_i32(s: &[char]) -> (r: Option<i32>)
    ensures
        r == spec_parse_i32(s@),
{
    if s.len() > 0 && s[0] == '-' {
        let rest = crate::text::slice_chars(s, 1, s.len());
        assert(rest@ =~= s@.drop_first());
        match parse_int(rest.as_slice(), 0x8000_0000) {
            Ok(v) => if s.len() > 1 && s[1] != '+' {
                Some((0 - (v as i64)) as i32)
            } else {
                None
            },
            Err(_) => None,
        }
    } else {
        match parse_int(s, 0x7fff_ffff) {
            Ok(v) => Some(v as i32),
            Err(_) => None,
        }
    }
}

/// What `str::parse::<u64>` makes of a text.
pub open spec fn spec_parse_u64(s: Seq<char>) -> Option<u64> {
    match spec_parse_int(s, u64::MAX as nat) {
        Ok(v) => Some(v as u64),
        Err(_) => None,
    }
}

/// The process group and start time in a `/proc/<pid>/stat` text: the third
/// and twentieth fields after the last `) ` (the command name may hold spaces
/// and parentheses).
pub open spec fn spec_stat_fields(text: Seq<char>) -> Option<(i32, u64)> {
    match spec_rfind(text, ") "@) {
        None => None,
        Some(k) => {
            let fields = words(text.skip(k + 2));
            if fields.len() <= 19 {
                None
            } else {
                match (spec_parse_i32(fields[2]), spec_parse_u64(fields[19])) {
                    (Some(g), Some(t)) => Some((g, t)),
                    _ => None,
                }
            }
        },
    }
}

/// Reads the process group and start time from a `/proc/<pid>/stat` text.
pub fn stat_fields(text: &str) -> (r: Option<(i32, u64)>)
    ensures
        r == spec_stat_fields(text@),
{
    let chars = chars_of(text);
    let marker = [')', ' '];
    proof {
        reveal_strlit(") ");
    }
    assert(marker@ =~= ") "@);
    assert(marker@.len() == 2);
    match rfind_chars(chars.as_slice(), &marker) {
        None => None,
        Some(k) => {
            assert(occurs_at(chars@, marker@, k as int));
            assert(k + 2 <= chars@.len());
            assert(chars@.len() == chars.len());
            let from: usize = k + 2;
            let tail = crate::text::slice_chars(chars.as_slice(), from, chars.len());
            assert(tail@ =~= chars@.skip(from as int));
            let fields = split_words(tail.as_slice());
            if fields.len() <= 19 {
                return None;
            }
            assert(fields@[2]@ == words(tail@)[2]);
            assert(fields@[19]@ == words(tail@)[19]);
            let group = parse_i32(fields[2].as_slice());
            let start = match parse_int(fields[19].as_slice(), u64::MAX as u128) {
                Ok(v) => Some(v as u64),
                Err(_) => None,
            };
            match (group, start) {
                (Some(g), Some(t)) => Some((g, t)),
                _ => None,
            }
        },
    }
}

/// The identity of a process: its start time and process group.
pub open spec fn spec_identity_text(start: u64, group: i32) -> Seq<char> {
    decimal(start as nat) + ":"@ + signed_decimal(group as int)
}

/// Writes a process identity (`<start>:<group>`).
pub fn identity_text(start: u64, group: i32) -> (r: String)
    ensures
        r@ == spec_identity_text(start, group),
{
    let mut out = String::new();
    push_decimal(&mut out, start);
    push_all(&mut out, ":");
    let g = i64_text(group as i64);
    push_all(&mut out, g.as_str());
    assert(out@ =~= spec_identity_text(start, group));
    out
}

/// What the collector found under one `/proc` entry. Files that could not be
/// read are `None`; `owned` says whether the entry belongs to the collector's
/// user; `identity` is the entry's identity as `identity` reads it.
pub struct ProcEntry {
    pub name: String,
    pub stat: Option<String>,
    pub namespace: Option<String>,
    pub status: Option<String>,
    pub owned: bool,
    pub identity: Option<String>,
}

/// The fixture's process as its receipt records it: its PID inside its own
/// namespace, the namespace, and its start time.
pub open spec fn spec_target(receipt: Json) -> Option<(i32, Seq<char>, u64)> {
    match spec_as_i64(spec_field(receipt, "pid"@)) {
        Some(pid) => if i32::MIN <= pid <= i32::MAX {
            match (spec_as_str(spec_field(receipt, "pid_namespace"@)), spec_as_u64(spec_field(receipt, "process_start_ticks"@))) {
                (Some(ns), Some(start)) => Some((pid as i32, ns, start)),
                _ => None,
            }
        } else {
            None
        },
        None => None,
    }
}

/// The PID that a `/proc/<pid>/status` text gives in the innermost namespace:
/// the last word of its first `NSpid:` line.
pub open spec fn spec_inner_pid(status: Seq<char>) -> Option<i32> {
    match first_nspid(spec_lines(status)) {
        Some(line) => {
            let w = words(line);
            if w.len() == 0 { None } else { spec_parse_i32(w.last()) }
        },
        None => None,
    }
}

/// The first line that starts with `NSpid:`.
pub open spec fn first_nspid(lines: Seq<Seq<char>>) -> Option<Seq<char>>
    decreases lines.len(),
{
    if lines.len() == 0 {
        None
    } else if spec_starts_with(lines[0], "NSpid:"@) {
        Some(lines[0])
    } else {
        first_nspid(lines.drop_first())
    }
}

/// What one `/proc` entry says about the fixture.
pub enum Finding {
    /// The entry is the fixture, under this host PID and identity.
    Match(i32, Seq<char>),
    /// The entry is another process.
    Other,
    /// The entry is ours but could not be read, so it might be the fixture.
    Unreadable,
}

/// The view of an optional string.
pub open spec fn text_of(s: Option<String>) -> Option<Seq<char>> {
    match s {
        Some(v) => Some(v@),
        None => None,
    }
}

/// What one `/proc` entry says about the fixture `(pid, ns, start)`.
pub open spec fn spec_finding(e: ProcEntry, pid: i32, ns: Seq<char>, start: u64) -> Finding {
    match spec_parse_i32(e.name@) {
        None => Finding::Other,
        Some(host) => match text_of(e.stat) {
            None => if e.owned { Finding::Unreadable } else { Finding::Other },
            Some(stat) => match spec_stat_fields(stat) {
                None => Finding::Other,
                Some((group, started)) => if started != start {
                    Finding::Other
                } else {
                    match text_of(e.namespace) {
                        None => if e.owned { Finding::Unreadable } else { Finding::Other },
                        Some(n) => if n != ns {
                            Finding::Other
                        } else {
                            let inner = match text_of(e.status) { Some(st) => spec_inner_pid(st), None => None };
                            if inner != Some(pid) {
                                Finding::Other
                            } else {
                                match text_of(e.identity) {
                                    Some(id) => if id == spec_identity_text(start, group) { Finding::Match(host, id) } else { Finding::Other },
                                    None => Finding::Other,
                                }
                            }
                        },
                    }
                },
            },
        },
    }
}

/// The view of a [`Resolution`].
pub enum ResolutionView {
    Live(i32, Seq<char>),
    Gone,
    Unknown,
}

impl Resolution {
    pub open spec fn view(&self) -> ResolutionView {
        match self {
            Resolution::Live { pid, identity } => ResolutionView::Live(*pid, identity@),
            Resolution::Gone => ResolutionView::Gone,
            Resolution::Unknown => ResolutionView::Unknown,
        }
    }
}

/// The first matching entry wins; without one, the fixture is gone only if
/// every entry that might have been it could be read.
pub open spec fn spec_scan(entries: Seq<ProcEntry>, pid: i32, ns: Seq<char>, start: u64) -> ResolutionView
    decreases entries.len(),
{
    if entries.len() == 0 {
        ResolutionView::Gone
    } else {
        match spec_finding(entries[0], pid, ns, start) {
            Finding::Match(host, id) => ResolutionView::Live(host, id),
            Finding::Other => spec_scan(entries.drop_first(), pid, ns, start),
            Finding::Unreadable => match spec_scan(entries.drop_first(), pid, ns, start) {
                ResolutionView::Live(h, i) => ResolutionView::Live(h, i),
                _ => ResolutionView::Unknown,
            },
        }
    }
}

/// Where the fixture of a receipt stands, given the `/proc` entries.
pub open spec fn spec_resolve(receipt: Json, entries: Seq<ProcEntry>) -> ResolutionView {
    match spec_target(receipt) {
        None => ResolutionView::Unknown,
        Some((pid, ns, start)) => spec_scan(entries, pid, ns, start),
    }
}

fn opt_ref(s: &Option<String>) -> (r: Option<&str>)
    ensures
        match r { Some(v) => Some(v@), None => None::<Seq<char>> } == text_of(*s),
{
    match s {
        Some(v) => Some(v.as_str()),
        None => None,
    }
}

/// The innermost PID in a `/proc/<pid>/status` text.
fn inner_pid(status: &str) -> (r: Option<i32>)
    ensures
        r == spec_inner_pid(status@),
{
    let chars = chars_of(status);
    let prefix = chars_of("NSpid:");
    let mut start: usize = 0;
    let ghost s = chars@;
    assert(s.skip(0) =~= s);
    while start < chars.len()
        invariant
            start <= chars.len(),
            s == chars@,
            s == status@,
            prefix@ == "NSpid:"@,
            first_nspid(spec_lines(s)) == first_nspid(spec_lines(s.skip(start as int))),
        decreases chars.len() - start,
    {
        let end = crate::text::next_sep(chars.as_slice(), '\n', start);
        let stop = if end < chars.len() && end > start && chars[end - 1] == '\r' { end - 1 } else { end };
        let line = crate::text::slice_chars(chars.as_slice(), start, stop);
        let next = if end < chars.len() { end + 1 } else { end };
        proof {
            crate::codex_evidence::lemma_lines_step(s, start as int, end as int, line@, next as int);
            assert((seq![line@] + spec_lines(s.skip(next as int))).drop_first() =~= spec_lines(s.skip(next as int)));
        }
        if chars_starts_with(line.as_slice(), prefix.as_slice()) {
            let w = split_words(line.as_slice());
            if w.len() == 0 {
                return None;
            }
            assert(w@[w.len() - 1]@ == words(line@).last());
            return parse_i32(w[w.len() - 1].as_slice());
        }
        start = next;
    }
    assert(s.skip(start as int) =~= Seq::<char>::empty());
    None
}

/// What one `/proc` entry says about the fixture.
fn finding(e: &ProcEntry, pid: i32, ns: &str, start: u64) -> (r: (u8, i32))
    ensures
        match spec_finding(*e, pid, ns@, start) {
            Finding::Match(host, _) => r.0 == 0 && r.1 == host,
            Finding::Other => r.0 == 1,
            Finding::Unreadable => r.0 == 2,
        },
{
    let name = chars_of(e.name.as_str());
    let host = match parse_i32(name.as_slice()) {
        None => return (1, 0),
        Some(h) => h,
    };
    let stat = match opt_ref(&e.stat) {
        None => return if e.owned { (2, 0) } else { (1, 0) },
        Some(s) => s,
    };
    let (group, started) = match stat_fields(stat) {
        None => return (1, 0),
        Some(f) => f,
    };
    if started != start {
        return (1, 0);
    }
    let namespace = match opt_ref(&e.namespace) {
        None => return if e.owned { (2, 0) } else { (1, 0) },
        Some(n) => n,
    };
    if !str_eq(namespace, ns) {
        return (1, 0);
    }
    let inner = match opt_ref(&e.status) {
        Some(st) => inner_pid(st),
        None => None,
    };
    if inner != Some(pid) {
        return (1, 0);
    }
    match opt_ref(&e.identity) {
        Some(id) => {
            let expected = identity_text(start, group);
            if str_eq(id, expected.as_str()) { (0, host) } else { (1, 0) }
        },
        None => (1, 0),
    }
}

/// Resolves the fixture of a receipt to a live process of this namespace,
/// from the `/proc` entries as the collector read them: the first entry with
/// the fixture's start time, namespace, inner PID and identity; `Gone` when
/// every candidate could be read and none matched; `Unknown` otherwise.
pub fn resolve(receipt: &JsonValue, entries: &[ProcEntry]) -> (r: Resolution)
    ensures
        r@ == spec_resolve(receipt@, entries@),
{
    let pid = match receipt.field("pid").as_i64() {
        Some(p) => if i32::MIN as i64 <= p && p <= i32::MAX as i64 { p as i32 } else { return Resolution::Unknown },
        None => return Resolution::Unknown,
    };
    let ns_value = receipt.field("pid_namespace");
    let ns = match ns_value.as_str() {
        Some(n) => n,
        None => return Resolution::Unknown,
    };
    let start = match receipt.field("process_start_ticks").as_u64() {
        Some(s) => s,
        None => return Resolution::Unknown,
    };
    let ghost all = entries@;
    let mut complete = true;
    let mut i: usize = 0;
    assert(all.skip(0) =~= all);
    while i < entries.len()
        invariant
            i <= entries.len(),
            all == entries@,
            spec_resolve(receipt@, all) == (if complete {
                spec_scan(all.skip(i as int), pid, ns@, start)
            } else {
                match spec_scan(all.skip(i as int), pid, ns@, start) {
                    ResolutionView::Live(h, id) => ResolutionView::Live(h, id),
                    _ => ResolutionView::Unknown,
                }
            }),
        decreases entries.len() - i,
    {
        let e = &entries[i];
        assert(all.skip(i as int)[0] == *e);
        assert(all.skip(i as int).drop_first() =~= all.skip(i + 1));
        let (kind, host) = finding(e, pid, ns, start);
        if kind == 0 {
            let id = match opt_ref(&e.identity) {
                Some(t) => owned(t),
                None => owned(""),
            };
            return Resolution::Live { pid: host, identity: id };
        } else if kind == 2 {
            complete = false;
        }
        i += 1;
    }
    assert(all.skip(i as int) =~= Seq::<ProcEntry>::empty());
    if complete { Resolution::Gone } else { Resolution::Unknown }
}

} // verus!
