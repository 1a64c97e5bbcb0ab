//! Reads Codex's JSONL output and classifies an attempt from the raw
//! evidence: what Codex reported, how its process ended, and what the
//! command oracle observed.
use vstd::prelude::*;
use crate::json::{Json, JsonValue, json_parse, parse_json, spec_as_i64, spec_as_str, spec_field, spec_member, str_eq};
use crate::text::{
    lemma_run_len, run_len, all_digits, ascii_lower, chars_of, contains_str, digits_value, find_chars, is_blank, is_space,
    lowercase, occurs_at, owned, parse_unsigned, push_all, push_char, space, spec_contains, spec_find,
    spec_lowercase, spec_parse_unsigned, string_of,
};

verus! {

/// What `String::from_utf8_lossy` makes of some bytes.
pub uninterp spec fn utf8_lossy(bytes: Seq<u8>) -> Seq<char>;

/// Decodes bytes as UTF-8 with `String::from_utf8_lossy`, which replaces
/// invalid sequences by U+FFFD and returns valid input unchanged. The
/// contract names the result and states the valid-input case.
#[verifier::external_body]
pub fn lossy_text(bytes: &[u8]) -> (s: String)
    ensures
        s@ == utf8_lossy(bytes@),
        vstd::utf8::valid_utf8(bytes@) ==> s@ == vstd::utf8::decode_utf8(bytes@),
{
    String::from_utf8_lossy(bytes).into_owned()
}

/// What Codex's JSONL output reported about one attempt.
pub struct ParsedCodex {
    pub command: Option<String>,
    pub aggregated_output: String,
    pub command_exit_code: Option<i32>,
    pub command_status: Option<String>,
    pub command_events: usize,
    pub turn_completed: bool,
    pub usage: Option<JsonValue>,
    pub messages: Vec<String>,
    pub json_lines: usize,
    pub parse_errors: usize,
}

/// The view of [`ParsedCodex`].
pub struct ParsedView {
    pub command: Option<Seq<char>>,
    pub aggregated_output: Seq<char>,
    pub command_exit_code: Option<i32>,
    pub command_status: Option<Seq<char>>,
    pub command_events: nat,
    pub turn_completed: bool,
    pub usage: Option<Json>,
    pub messages: Seq<Seq<char>>,
    pub json_lines: nat,
    pub parse_errors: nat,
}

/// The view of an optional string.
pub open spec fn opt_text(s: Option<String>) -> Option<Seq<char>> {
    match s {
        Some(s) => Some(s@),
        None => None,
    }
}

impl ParsedCodex {
    pub open spec fn view(&self) -> ParsedView {
        ParsedView {
            command: opt_text(self.command),
            aggregated_output: self.aggregated_output@,
            command_exit_code: self.command_exit_code,
            command_status: opt_text(self.command_status),
            command_events: self.command_events as nat,
            turn_completed: self.turn_completed,
            usage: match self.usage { Some(u) => Some(u@), None => None },
            messages: Seq::new(self.messages@.len(), |i: int| self.messages@[i]@),
            json_lines: self.json_lines as nat,
            parse_errors: self.parse_errors as nat,
        }
    }
}

/// The report of an empty output.
pub open spec fn empty_parsed() -> ParsedView {
    ParsedView {
        command: None,
        aggregated_output: Seq::empty(),
        command_exit_code: None,
        command_status: None,
        command_events: 0,
        turn_completed: false,
        usage: None,
        messages: Seq::empty(),
        json_lines: 0,
        parse_errors: 0,
    }
}

/// The position of the first `\n` in `s` (its length when there is none).
pub open spec fn newline_index(s: Seq<char>) -> nat
    decreases s.len(),
{
    if s.len() == 0 {
        0
    } else if s[0] == '\n' {
        0
    } else {
        1 + newline_index(s.drop_first())
    }
}

/// `newline_index` is within the text, and no newline precedes it.
pub proof fn lemma_newline_index(s: Seq<char>)
    ensures
        newline_index(s) <= s.len(),
        newline_index(s) < s.len() ==> s[newline_index(s) as int] == '\n',
        forall|j: int| 0 <= j < newline_index(s) ==> s[j] != '\n',
    decreases s.len(),
{
    if s.len() > 0 && s[0] != '\n' {
        lemma_newline_index(s.drop_first());
        assert forall|j: int| 0 <= j < newline_index(s) implies s[j] != '\n' by {
            if j > 0 {
                assert(s[j] == s.drop_first()[j - 1]);
            }
        }
    }
}

/// The lines of a text (`str::lines`): pieces ending at each `\n`, without
/// the `\n` and a `\r` before it; a final piece without `\n` is kept as is.
pub open spec fn spec_lines(s: Seq<char>) -> Seq<Seq<char>>
    decreases s.len(),
{
    if s.len() == 0 {
        Seq::empty()
    } else {
        let k = newline_index(s);
        proof {
            lemma_newline_index(s);
        }
        if k >= s.len() {
            seq![s]
        } else {
            let piece = s.take(k as int);
            let line = if piece.len() > 0 && piece.last() == '\r' { piece.drop_last() } else { piece };
            seq![line] + spec_lines(s.skip(k + 1int))
        }
    }
}

/// A message string, when present.
pub open spec fn spec_message(v: Json) -> Option<Seq<char>> {
    spec_as_str(v)
}

/// Appends a message when there is one.
pub open spec fn push_message(p: ParsedView, m: Option<Seq<char>>) -> ParsedView {
    match m {
        Some(m) => ParsedView { messages: p.messages.push(m), ..p },
        None => p,
    }
}

/// `item.get(a).or_else(|| item.get(b))`.
pub open spec fn spec_either(item: Json, a: Seq<char>, b: Seq<char>) -> Option<Json> {
    match spec_member(item, a) {
        Some(v) => Some(v),
        None => spec_member(item, b),
    }
}

/// An `i32` read from an `i64` that fits (`i32::try_from`).
pub open spec fn spec_exit_code(o: Option<Json>) -> Option<i32> {
    match o {
        Some(v) => match spec_as_i64(v) {
            Some(i) => if i32::MIN <= i <= i32::MAX { Some(i as i32) } else { None },
            None => None,
        },
        None => None,
    }
}

/// The report after reading one JSON event.
pub open spec fn spec_apply_event(p: ParsedView, v: Json) -> ParsedView {
    let kind = spec_as_str(spec_field(v, "type"@));
    if kind == Some("turn.completed"@) {
        ParsedView {
            turn_completed: true,
            usage: match spec_member(v, "usage"@) { Some(Json::Null) => None, other => other },
            ..p
        }
    } else if kind == Some("turn.failed"@) {
        push_message(ParsedView { turn_completed: false, ..p }, spec_message(spec_field(spec_field(v, "error"@), "message"@)))
    } else if kind == Some("error"@) {
        push_message(p, spec_message(spec_field(v, "message"@)))
    } else if kind == Some("item.completed"@) {
        let item = spec_field(v, "item"@);
        let item_kind = spec_as_str(spec_field(item, "type"@));
        if item_kind == Some("error"@) {
            push_message(p, spec_message(spec_field(item, "message"@)))
        } else if item_kind == Some("command_execution"@) || item_kind == Some("commandExecution"@) {
            ParsedView {
                command_events: p.command_events + 1,
                command: spec_as_str(spec_field(item, "command"@)),
                aggregated_output: match spec_either(item, "aggregated_output"@, "aggregatedOutput"@) {
                    Some(o) => match spec_as_str(o) { Some(t) => t, None => Seq::empty() },
                    None => Seq::empty(),
                },
                command_exit_code: spec_exit_code(spec_either(item, "exit_code"@, "exitCode"@)),
                command_status: spec_as_str(spec_field(item, "status"@)),
                ..p
            }
        } else {
            p
        }
    } else {
        p
    }
}

/// The report after reading one line: blank lines are skipped, lines that
/// are not JSON are counted as parse errors.
pub open spec fn spec_parse_line(p: ParsedView, line: Seq<char>) -> ParsedView {
    if is_blank(line) {
        p
    } else {
        match json_parse(vstd::utf8::encode_utf8(line)) {
            None => ParsedView { parse_errors: p.parse_errors + 1, ..p },
            Some(v) => spec_apply_event(ParsedView { json_lines: p.json_lines + 1, ..p }, v),
        }
    }
}

/// The report after reading the given lines in order.
pub open spec fn spec_parse_lines(p: ParsedView, lines: Seq<Seq<char>>) -> ParsedView
    decreases lines.len(),
{
    if lines.len() == 0 {
        p
    } else {
        spec_parse_lines(spec_parse_line(p, lines[0]), lines.drop_first())
    }
}

/// What [`parse_codex_output`] reports for Codex's standard output.
pub open spec fn spec_parse_codex(stdout: Seq<u8>) -> ParsedView {
    spec_parse_lines(empty_parsed(), spec_lines(utf8_lossy(stdout)))
}


fn push_message_exec(p: &mut ParsedCodex, m: Option<&str>)
    ensures
        final(p)@ == push_message(old(p)@, match m { Some(t) => Some(t@), None => None }),
        final(p).command_events == old(p).command_events,
        final(p).json_lines == old(p).json_lines,
        final(p).parse_errors == old(p).parse_errors,
{
    match m {
        Some(t) => {
            let ghost before = p@;
            p.messages.push(owned(t));
            assert(p@.messages =~= before.messages.push(t@));
            assert(p@ =~= push_message(before, Some(t@)));
        },
        None => {},
    }
}

/// `value[key]` as a reference (`None` where the member is absent).
fn member<'a>(v: Option<&'a JsonValue>, key: &str) -> (r: Option<&'a JsonValue>)
    ensures
        match v {
            Some(v) => match r {
                Some(x) => spec_member(v@, key@) == Some(x@),
                None => spec_member(v@, key@) is None,
            },
            None => r is None,
        },
{
    match v {
        Some(v) => v.get(key),
        None => None,
    }
}

/// `value[key].as_str()` on an optional value.
fn member_str<'a>(v: Option<&'a JsonValue>, key: &str) -> (r: Option<&'a str>)
    ensures
        match r {
            Some(s) => spec_as_str(spec_field(opt_json(v), key@)) == Some(s@),
            None => spec_as_str(spec_field(opt_json(v), key@)) is None,
        },
{
    match member(v, key) {
        Some(x) => x.as_str(),
        None => None,
    }
}

/// A value, or `null` when absent.
pub open spec fn opt_json(v: Option<&JsonValue>) -> Json {
    match v {
        Some(v) => v@,
        None => Json::Null,
    }
}

fn either<'a>(item: Option<&'a JsonValue>, a: &str, b: &str) -> (r: Option<&'a JsonValue>)
    ensures
        match r {
            Some(x) => spec_either(opt_json(item), a@, b@) == Some(x@),
            None => spec_either(opt_json(item), a@, b@) is None,
        },
{
    match member(item, a) {
        Some(x) => Some(x),
        None => member(item, b),
    }
}

fn apply_event(p: &mut ParsedCodex, v: &JsonValue)
    requires
        old(p).command_events < usize::MAX,
    ensures
        final(p)@ == spec_apply_event(old(p)@, v@),
        final(p).command_events <= old(p).command_events + 1,
        final(p).json_lines == old(p).json_lines,
        final(p).parse_errors == old(p).parse_errors,
{
    let root = Some(v);
    let kind = member_str(root, "type");
    assert(opt_json(root) == v@);
    let is = |name: &str| -> (r: bool)
        ensures r == (spec_as_str(spec_field(v@, "type"@)) == Some(name@))
    {
        match kind { Some(k) => str_eq(k, name), None => false }
    };
    if is("turn.completed") {
        p.turn_completed = true;
        p.usage = match v.get("usage") {
            Some(JsonValue::Null) => None,
            Some(u) => Some(u.copy()),
            None => None,
        };
    } else if is("turn.failed") {
        p.turn_completed = false;
        let error = member(root, "error");
        let m = member_str(error, "message");
        proof {
            assert(opt_json(error) == spec_field(v@, "error"@));
        }
        push_message_exec(p, m);
    } else if is("error") {
        let m = member_str(root, "message");
        push_message_exec(p, m);
    } else if is("item.completed") {
        let item = member(root, "item");
        assert(opt_json(item) == spec_field(v@, "item"@));
        let item_kind = member_str(item, "type");
        let is_item = |name: &str| -> (r: bool)
            ensures r == (spec_as_str(spec_field(opt_json(item), "type"@)) == Some(name@))
        {
            match item_kind { Some(k) => str_eq(k, name), None => false }
        };
        if is_item("error") {
            let m = member_str(item, "message");
            push_message_exec(p, m);
        } else if is_item("command_execution") || is_item("commandExecution") {
            p.command_events = p.command_events + 1;
            p.command = match member_str(item, "command") { Some(c) => Some(owned(c)), None => None };
            p.aggregated_output = match either(item, "aggregated_output", "aggregatedOutput") {
                Some(o) => match o.as_str() { Some(t) => owned(t), None => String::new() },
                None => String::new(),
            };
            p.command_exit_code = match either(item, "exit_code", "exitCode") {
                Some(o) => match o.as_i64() {
                    Some(i) => if i32::MIN as i64 <= i && i <= i32::MAX as i64 { Some(i as i32) } else { None },
                    None => None,
                },
                None => None,
            };
            p.command_status = match member_str(item, "status") { Some(c) => Some(owned(c)), None => None };
        }
    }
}

/// Reads one line into the report (see [`spec_parse_line`]).
fn parse_line(p: &mut ParsedCodex, line: &[char])
    requires
        old(p).json_lines + old(p).parse_errors < usize::MAX,
        old(p).command_events <= old(p).json_lines,
    ensures
        final(p)@ == spec_parse_line(old(p)@, line@),
        final(p).json_lines + final(p).parse_errors <= old(p).json_lines + old(p).parse_errors + 1,
        final(p).command_events <= final(p).json_lines,
{
    let text = string_of(line);
    if !crate::text::blank(text.as_str()) {
        match parse_json(text.as_str().as_bytes()) {
            None => {
                p.parse_errors = p.parse_errors + 1;
            },
            Some(v) => {
                p.json_lines = p.json_lines + 1;
                apply_event(p, &v);
            },
        }
    }
}

/// One step of line splitting: the line that starts at `start` ends at
/// `end` (a newline, or the end of the text).
pub proof fn lemma_lines_step(s: Seq<char>, start: int, end: int, line: Seq<char>, next: int)
    requires
        0 <= start < s.len(),
        start <= end <= s.len(),
        forall|j: int| start <= j < end ==> s[j] != '\n',
        end < s.len() ==> s[end] == '\n',
        next == if end < s.len() { end + 1 } else { end },
        line == if end < s.len() && end > start && s[end - 1] == '\r' { s.subrange(start, end - 1) } else { s.subrange(start, end) },
    ensures
        spec_lines(s.skip(start)) == seq![line] + spec_lines(s.skip(next)),
{
    let rest = s.skip(start);
    let k = end - start;
    lemma_newline_index(rest);
    let n = newline_index(rest) as int;
    if n < k {
        assert(rest[n] == s[start + n]);
    }
    if n > k && k < rest.len() {
        assert(rest[k] == '\n');
    }
    assert(n == k);
    if end < s.len() {
        let piece = rest.take(k);
        assert(piece =~= s.subrange(start, end));
        if piece.len() > 0 && piece.last() == '\r' {
            assert(piece.drop_last() =~= s.subrange(start, end - 1));
        }
        assert(rest.skip(k + 1) =~= s.skip(next));
    } else {
        assert(rest =~= s.subrange(start, end));
        assert(s.skip(next) =~= Seq::<char>::empty());
        assert(spec_lines(s.skip(next)) =~= Seq::<Seq<char>>::empty());
        assert(seq![line] + Seq::<Seq<char>>::empty() =~= seq![line]);
    }
}

/// Reads Codex's `--json` output: counts JSON lines and unparsable lines,
/// records whether the turn completed (with its usage), the error messages
/// Codex reported, and the last command execution item.
pub fn parse_codex_output(stdout: &[u8]) -> (parsed: ParsedCodex)
    ensures
        parsed@ == spec_parse_codex(stdout@),
{
    let mut parsed = ParsedCodex {
        command: None,
        aggregated_output: String::new(),
        command_exit_code: None,
        command_status: None,
        command_events: 0,
        turn_completed: false,
        usage: None,
        messages: Vec::new(),
        json_lines: 0,
        parse_errors: 0,
    };
    let text = lossy_text(stdout);
    let chars = chars_of(text.as_str());
    let ghost s = chars@;
    assert(parsed@.messages =~= Seq::<Seq<char>>::empty());
    assert(parsed@ =~= empty_parsed());
    assert(s.skip(0) =~= s);
    let mut start: usize = 0;
    while start < chars.len()
        invariant
            start <= chars.len(),
            s == chars@,
            spec_parse_codex(stdout@) == spec_parse_lines(parsed@, spec_lines(s.skip(start as int))),
            parsed.json_lines + parsed.parse_errors <= start,
            parsed.command_events <= parsed.json_lines,
        decreases chars.len() - start,
    {
        let mut end = start;
        while end < chars.len() && chars[end] != '\n'
            invariant
                start <= end <= chars.len(),
                forall|j: int| start <= j < end ==> chars@[j] != '\n',
            decreases chars.len() - end,
        {
            end += 1;
        }
        let stop = if end < chars.len() && end > start && chars[end - 1] == '\r' { end - 1 } else { end };
        let mut line: Vec<char> = Vec::new();
        let mut i = start;
        while i < stop
            invariant
                start <= i <= stop,
                stop <= chars.len(),
                line@ == chars@.subrange(start as int, i as int),
            decreases stop - i,
        {
            line.push(chars[i]);
            assert(chars@.subrange(start as int, i + 1) =~= chars@.subrange(start as int, i as int).push(chars@[i as int]));
            i += 1;
        }
        let next = if end < chars.len() { end + 1 } else { end };
        proof {
            lemma_lines_step(s, start as int, end as int, line@, next as int);
            assert((seq![line@] + spec_lines(s.skip(next as int))).drop_first() =~= spec_lines(s.skip(next as int)));
        }
        parse_line(&mut parsed, line.as_slice());
        start = next;
    }
    parsed
}


/// The first whitespace-separated word of `s` (`split_whitespace().next()`).
pub open spec fn first_word(s: Seq<char>) -> Option<Seq<char>> {
    let t = s.skip(run_len(s, true) as int);
    if t.len() == 0 {
        None
    } else {
        Some(t.take(run_len(t, false) as int))
    }
}

/// The first word of a text.
pub fn first_word_exec(s: &[char]) -> (r: Option<Vec<char>>)
    ensures
        match r {
            Some(w) => first_word(s@) == Some(w@),
            None => first_word(s@) is None,
        },
{
    let mut i: usize = 0;
    while i < s.len() && space(s[i])
        invariant
            i <= s.len(),
            forall|j: int| 0 <= j < i ==> is_space(#[trigger] s@[j]),
        decreases s.len() - i,
    {
        i += 1;
    }
    proof {
        lemma_run_len(s@, true, i as int);
    }
    if i == s.len() {
        return None;
    }
    let ghost t = s@.skip(i as int);
    let mut word: Vec<char> = Vec::new();
    let mut j = i;
    while j < s.len() && !space(s[j])
        invariant
            i <= j <= s.len(),
            t == s@.skip(i as int),
            word@ == s@.subrange(i as int, j as int),
            forall|k: int| i <= k < j ==> !is_space(#[trigger] s@[k]),
        decreases s.len() - j,
    {
        word.push(s[j]);
        assert(s@.subrange(i as int, j + 1) =~= s@.subrange(i as int, j as int).push(s@[j as int]));
        j += 1;
    }
    proof {
        assert forall|k: int| 0 <= k < j - i implies is_space(#[trigger] t[k]) == false by {
            assert(t[k] == s@[i + k]);
        }
        if j < s.len() {
            assert(t[j - i] == s@[j as int]);
        }
        lemma_run_len(t, false, j - i);
        assert(t.take(j - i) =~= word@);
    }
    Some(word)
}

/// The HTTP error status that follows `prefix` in `message`: the first
/// word after the first occurrence of `prefix`, read as a `u16` between 400
/// and 599.
pub open spec fn status_after(message: Seq<char>, prefix: Seq<char>) -> Option<u16> {
    match spec_find(message, prefix) {
        None => None,
        Some(k) => match first_word(message.skip(k + prefix.len())) {
            None => None,
            Some(w) => match spec_parse_unsigned(w, 65535) {
                Some(n) => if 400 <= n <= 599 { Some(n as u16) } else { None },
                None => None,
            },
        },
    }
}

/// The HTTP error status that a message reports, trying the prefixes
/// `unexpected status `, `last status: ` and `HTTP ` in that order.
#[verifier::opaque]
pub open spec fn status_in(message: Seq<char>) -> Option<u16> {
    match status_after(message, "unexpected status "@) {
        Some(s) => Some(s),
        None => match status_after(message, "last status: "@) {
            Some(s) => Some(s),
            None => status_after(message, "HTTP "@),
        },
    }
}

/// The first HTTP error status reported among the texts.
pub open spec fn status_among(texts: Seq<Seq<char>>) -> Option<u16>
    decreases texts.len(),
{
    if texts.len() == 0 {
        None
    } else {
        match status_in(texts[0]) {
            Some(s) => Some(s),
            None => status_among(texts.drop_first()),
        }
    }
}

/// The HTTP error status in Codex's messages, then in its standard error.
pub open spec fn spec_http_status(p: ParsedView, stderr: Seq<char>) -> Option<u16> {
    status_among(p.messages.push(stderr))
}

/// The characters of `s` from position `from` on.
fn suffix_from(s: &[char], from: usize) -> (r: Vec<char>)
    requires
        from <= s.len(),
    ensures
        r@ == s@.skip(from as int),
{
    let mut tail: Vec<char> = Vec::new();
    let mut i = from;
    while i < s.len()
        invariant
            from <= i <= s.len(),
            tail@ == s@.subrange(from as int, i as int),
        decreases s.len() - i,
    {
        tail.push(s[i]);
        assert(s@.subrange(from as int, i + 1) =~= s@.subrange(from as int, i as int).push(s@[i as int]));
        i += 1;
    }
    assert(tail@ =~= s@.skip(from as int));
    tail
}

fn status_of_word(w: &[char]) -> (r: Option<u16>)
    ensures
        r == (match spec_parse_unsigned(w@, 65535) {
            Some(n) => if 400 <= n <= 599 { Some(n as u16) } else { None },
            None => None,
        }),
{
    match parse_unsigned(w, 65535) {
        Some(n) => if 400 <= n && n <= 599 { Some(n as u16) } else { None },
        None => None,
    }
}

#[verifier::rlimit(40)]
fn status_after_exec(message: &[char], prefix: &str) -> (r: Option<u16>)
    ensures
        r == status_after(message@, prefix@),
{
    let pat = chars_of(prefix);
    match find_chars(message, pat.as_slice()) {
        None => None,
        Some(k) => {
            assert(occurs_at(message@, pat@, k as int));
            assert(k + pat@.len() <= message@.len());
            assert(message@.len() == message.len());
            let tail = suffix_from(message, k + pat.len());
            match first_word_exec(tail.as_slice()) {
                None => None,
                Some(w) => status_of_word(w.as_slice()),
            }
        },
    }
}

fn status_in_exec(message: &str) -> (r: Option<u16>)
    ensures
        r == status_in(message@),
{
    let m = chars_of(message);
    reveal(status_in);
    match status_after_exec(m.as_slice(), "unexpected status ") {
        Some(s) => Some(s),
        None => match status_after_exec(m.as_slice(), "last status: ") {
            Some(s) => Some(s),
            None => status_after_exec(m.as_slice(), "HTTP "),
        },
    }
}

/// The HTTP error status (400 to 599) that Codex's messages or its standard
/// error report after `unexpected status `, `last status: ` or `HTTP `.
pub fn http_error_status(parsed: &ParsedCodex, stderr: &str) -> (r: Option<u16>)
    ensures
        r == spec_http_status(parsed@, stderr@),
{
    let ghost all = parsed@.messages.push(stderr@);
    let mut i: usize = 0;
    assert(all.skip(0) =~= all);
    while i < parsed.messages.len()
        invariant
            i <= parsed.messages.len(),
            all == parsed@.messages.push(stderr@),
            status_among(all) == status_among(all.skip(i as int)),
        decreases parsed.messages.len() - i,
    {
        let found = status_in_exec(parsed.messages[i].as_str());
        assert(all.skip(i as int)[0] == parsed.messages@[i as int]@);
        assert(all.skip(i as int).drop_first() =~= all.skip(i + 1));
        if let Some(s) = found {
            return Some(s);
        }
        i += 1;
    }
    let found = status_in_exec(stderr);
    assert(all.skip(i as int) =~= seq![stderr@]);
    assert(seq![stderr@].drop_first() =~= Seq::<Seq<char>>::empty());
    assert(status_among(Seq::<Seq<char>>::empty()) is None);
    assert(seq![stderr@][0] == stderr@);
    found
}


/// The texts joined with `sep` between them (`[String]::join`).
pub open spec fn join_with(parts: Seq<Seq<char>>, sep: Seq<char>) -> Seq<char>
    decreases parts.len(),
{
    if parts.len() == 0 {
        Seq::empty()
    } else if parts.len() == 1 {
        parts[0]
    } else {
        join_with(parts.drop_last(), sep) + sep + parts.last()
    }
}

/// Whether the ASCII lower-case form of `text` contains one of `needles`.
pub open spec fn mentions_any(text: Seq<char>, needles: Seq<Seq<char>>) -> bool {
    exists|k: int| 0 <= k < needles.len() && spec_contains(spec_lowercase(text), #[trigger] needles[k])
}

/// The views of some string slices.
pub open spec fn views_of(needles: Seq<&str>) -> Seq<Seq<char>> {
    needles.map_values(|n: &str| n@)
}

/// Whether the ASCII lower-case form of `text` contains one of `needles`.
pub fn text_has_any(text: &str, needles: &[&str]) -> (r: bool)
    ensures
        r == mentions_any(text@, views_of(needles@)),
{
    let chars = chars_of(text);
    let lower = lowercase(chars.as_slice());
    let mut k: usize = 0;
    while k < needles.len()
        invariant
            k <= needles.len(),
            lower@ == spec_lowercase(text@),
            forall|j: int| 0 <= j < k ==> !spec_contains(spec_lowercase(text@), #[trigger] views_of(needles@)[j]),
        decreases needles.len() - k,
    {
        let pat = chars_of(needles[k]);
        if find_chars(lower.as_slice(), pat.as_slice()).is_some() {
            assert(views_of(needles@)[k as int] == pat@);
            return true;
        }
        assert(views_of(needles@)[k as int] == pat@);
        k += 1;
    }
    false
}

/// The words that mark a failure class in Codex's messages.
pub open spec fn auth_words() -> Seq<Seq<char>> {
    seq!["api_key_required"@, "invalid api key"@, "unauthorized"@]
}

pub open spec fn timeout_words() -> Seq<Seq<char>> {
    seq!["request timed out"@, "request timeout"@]
}

pub open spec fn transport_words() -> Seq<Seq<char>> {
    seq!["disconnect"@, "connection reset"@, "connection refused"@, "upstream"@, "gateway"@]
}

pub open spec fn response_words() -> Seq<Seq<char>> {
    seq!["quota"@, "model not found"@]
}

pub open spec fn tool_words() -> Seq<Seq<char>> {
    seq!["code mode is unavailable"@, "host executable was not found"@]
}

/// Codex's messages and its standard error as one text.
pub open spec fn combined_text(p: ParsedView, stderr: Seq<char>) -> Seq<char> {
    join_with(p.messages, " "@) + " "@ + stderr
}

/// The status and failure class of an attempt that Codex did not complete:
/// an explicit HTTP status decides first, then words in the messages.
pub open spec fn spec_classify(p: ParsedView, stderr: Seq<char>) -> (Seq<char>, Seq<char>) {
    let text = combined_text(p, stderr);
    match spec_http_status(p, stderr) {
        Some(s) => if s == 401 {
            ("provider_error"@, "provider_authentication"@)
        } else if s == 429 || 500 <= s <= 599 {
            ("relay_error"@, "relay_or_transport"@)
        } else {
            ("provider_error"@, "provider_response"@)
        },
        None => if mentions_any(text, auth_words()) {
            ("provider_error"@, "provider_authentication"@)
        } else if mentions_any(text, timeout_words()) {
            ("relay_error"@, "relay_request_timeout"@)
        } else if mentions_any(text, transport_words()) {
            ("relay_error"@, "relay_or_transport"@)
        } else if mentions_any(text, response_words()) {
            ("provider_error"@, "provider_response"@)
        } else if mentions_any(text, tool_words()) {
            ("harness_error"@, "codex_tool_configuration"@)
        } else if p.parse_errors > 0 {
            ("harness_error"@, "invalid_codex_jsonl"@)
        } else if p.command_events == 0 {
            ("unknown"@, "missing_command_event"@)
        } else {
            ("unknown"@, "codex_incomplete"@)
        },
    }
}

/// Codex's messages joined by spaces, then a space and its standard error.
pub fn combined(parsed: &ParsedCodex, stderr: &str) -> (r: String)
    ensures
        r@ == combined_text(parsed@, stderr@),
{
    let mut out = String::new();
    let mut i: usize = 0;
    let ghost m = parsed@.messages;
    assert(m.take(0) =~= Seq::<Seq<char>>::empty());
    while i < parsed.messages.len()
        invariant
            i <= parsed.messages.len(),
            m == parsed@.messages,
            out@ == join_with(m.take(i as int), " "@),
        decreases parsed.messages.len() - i,
    {
        let ghost before = out@;
        if i > 0 {
            push_all(&mut out, " ");
        }
        push_all(&mut out, parsed.messages[i].as_str());
        proof {
            let t = m.take(i + 1);
            assert(t.drop_last() =~= m.take(i as int));
            assert(t.last() == parsed.messages@[i as int]@);
            if i == 0 {
                assert(out@ =~= t[0]);
            } else {
                assert(out@ =~= join_with(t.drop_last(), " "@) + " "@ + t.last());
            }
        }
        i += 1;
    }
    assert(m.take(i as int) =~= m);
    push_all(&mut out, " ");
    push_all(&mut out, stderr);
    out
}

/// The status and failure class of an attempt that Codex did not complete.
pub fn classify_external_failure(parsed: &ParsedCodex, stderr: &str) -> (r: (String, String))
    ensures
        r.0@ == spec_classify(parsed@, stderr@).0,
        r.1@ == spec_classify(parsed@, stderr@).1,
{
    let text = combined(parsed, stderr);
    let t = text.as_str();
    match http_error_status(parsed, stderr) {
        Some(401) => return (owned("provider_error"), owned("provider_authentication")),
        Some(s) => {
            if s == 429 || (500 <= s && s <= 599) {
                return (owned("relay_error"), owned("relay_or_transport"));
            }
            return (owned("provider_error"), owned("provider_response"));
        },
        None => {},
    }
    let auth = ["api_key_required", "invalid api key", "unauthorized"];
    let timeout = ["request timed out", "request timeout"];
    let transport = ["disconnect", "connection reset", "connection refused", "upstream", "gateway"];
    let response = ["quota", "model not found"];
    let tool = ["code mode is unavailable", "host executable was not found"];
    assert(views_of(auth@) =~= auth_words());
    assert(views_of(timeout@) =~= timeout_words());
    assert(views_of(transport@) =~= transport_words());
    assert(views_of(response@) =~= response_words());
    assert(views_of(tool@) =~= tool_words());
    if text_has_any(t, &auth) {
        (owned("provider_error"), owned("provider_authentication"))
    } else if text_has_any(t, &timeout) {
        (owned("relay_error"), owned("relay_request_timeout"))
    } else if text_has_any(t, &transport) {
        (owned("relay_error"), owned("relay_or_transport"))
    } else if text_has_any(t, &response) {
        (owned("provider_error"), owned("provider_response"))
    } else if text_has_any(t, &tool) {
        (owned("harness_error"), owned("codex_tool_configuration"))
    } else if parsed.parse_errors > 0 {
        (owned("harness_error"), owned("invalid_codex_jsonl"))
    } else if parsed.command_events == 0 {
        (owned("unknown"), owned("missing_command_event"))
    } else {
        (owned("unknown"), owned("codex_incomplete"))
    }
}


/// How the Codex process ended.
#[derive(Clone, Copy)]
pub struct ProcessEvidence {
    pub exit_code: Option<i32>,
    pub timed_out: bool,
    pub spawn_failed: bool,
}

/// What the command under test was expected to do, and what it left behind.
pub struct CommandOracle<'a> {
    pub expected_exit: Option<i32>,
    pub expected_marker: Option<&'a str>,
    pub forbidden_path_exists: Option<bool>,
}

/// The view of a [`CommandOracle`].
pub struct OracleView {
    pub expected_exit: Option<i32>,
    pub expected_marker: Option<Seq<char>>,
    pub forbidden_path_exists: Option<bool>,
}

impl<'a> CommandOracle<'a> {
    pub open spec fn view(&self) -> OracleView {
        OracleView {
            expected_exit: self.expected_exit,
            expected_marker: match self.expected_marker {
                Some(m) => Some(m@),
                None => None,
            },
            forbidden_path_exists: self.forbidden_path_exists,
        }
    }
}

/// The verdict on one attempt: the attempt's status, and, apart from it,
/// what the command oracle says of the command itself.
pub struct Assessment {
    pub status: String,
    pub failure_class: Option<String>,
    pub command_outcome: String,
    pub command_failure_class: Option<String>,
}

/// The view of an [`Assessment`].
pub struct AssessmentView {
    pub status: Seq<char>,
    pub failure_class: Option<Seq<char>>,
    pub command_outcome: Seq<char>,
    pub command_failure_class: Option<Seq<char>>,
}

impl Assessment {
    pub open spec fn view(&self) -> AssessmentView {
        AssessmentView {
            status: self.status@,
            failure_class: opt_text(self.failure_class),
            command_outcome: self.command_outcome@,
            command_failure_class: opt_text(self.command_failure_class),
        }
    }
}

/// What the command oracle says of the single command that Codex ran.
pub open spec fn spec_command_outcome(p: ParsedView, o: OracleView) -> (Seq<char>, Option<Seq<char>>) {
    if p.command_events > 1 {
        ("harness_error"@, Some("unexpected_command_count"@))
    } else if p.command_exit_code is None {
        ("unknown"@, Some("missing_command_event"@))
    } else if o.expected_exit is None || o.expected_marker is None || o.forbidden_path_exists is None {
        ("unknown"@, Some("missing_command_oracle"@))
    } else if p.command_exit_code != o.expected_exit {
        ("backend_failure"@, Some("command_exit_mismatch"@))
    } else if o.forbidden_path_exists == Some(true) {
        ("backend_failure"@, Some("unexpected_side_effect"@))
    } else if !spec_contains(p.aggregated_output, o.expected_marker->0) {
        ("backend_failure"@, Some("command_output_mismatch"@))
    } else {
        ("success"@, None)
    }
}

/// Whether Codex itself failed to finish the attempt: a non-zero exit, no
/// completed turn, or no command result where one was due.
pub open spec fn codex_failed(p: ParsedView, process: ProcessEvidence) -> bool {
    process.exit_code != Some(0i32) || !p.turn_completed || (p.command_events <= 1
        && p.command_exit_code is None)
}

/// The verdict on one attempt.
pub open spec fn spec_assess(p: ParsedView, stderr: Seq<char>, process: ProcessEvidence, o: OracleView) -> AssessmentView {
    let outcome = spec_command_outcome(p, o);
    let verdict: (Seq<char>, Option<Seq<char>>) = if process.spawn_failed {
        ("harness_error"@, Some("codex_spawn"@))
    } else if process.timed_out {
        ("timeout"@, Some("codex_timeout"@))
    } else if codex_failed(p, process) {
        (spec_classify(p, stderr).0, Some(spec_classify(p, stderr).1))
    } else if p.parse_errors > 0 {
        ("harness_error"@, Some("invalid_codex_jsonl"@))
    } else {
        outcome
    };
    AssessmentView {
        status: verdict.0,
        failure_class: verdict.1,
        command_outcome: outcome.0,
        command_failure_class: outcome.1,
    }
}

fn command_outcome(parsed: &ParsedCodex, oracle: &CommandOracle) -> (r: (&'static str, Option<&'static str>))
    ensures
        r.0@ == spec_command_outcome(parsed@, oracle@).0,
        match r.1 {
            Some(c) => spec_command_outcome(parsed@, oracle@).1 == Some(c@),
            None => spec_command_outcome(parsed@, oracle@).1 is None,
        },
{
    if parsed.command_events > 1 {
        ("harness_error", Some("unexpected_command_count"))
    } else if parsed.command_exit_code.is_none() {
        ("unknown", Some("missing_command_event"))
    } else if oracle.expected_exit.is_none() || oracle.expected_marker.is_none()
        || oracle.forbidden_path_exists.is_none() {
        ("unknown", Some("missing_command_oracle"))
    } else if parsed.command_exit_code != oracle.expected_exit {
        ("backend_failure", Some("command_exit_mismatch"))
    } else if oracle.forbidden_path_exists == Some(true) {
        ("backend_failure", Some("unexpected_side_effect"))
    } else {
        let marker = match oracle.expected_marker {
            Some(m) => m,
            None => "",
        };
        if !contains_str(parsed.aggregated_output.as_str(), marker) {
            ("backend_failure", Some("command_output_mismatch"))
        } else {
            ("success", None)
        }
    }
}

fn owned_opt(s: Option<&str>) -> (r: Option<String>)
    ensures
        opt_text(r) == (match s {
            Some(t) => Some(t@),
            None => None::<Seq<char>>,
        }),
{
    match s {
        Some(t) => Some(owned(t)),
        None => None,
    }
}

/// Judges one attempt from Codex's report, its standard error, how its
/// process ended and the command oracle.
pub fn assess(parsed: &ParsedCodex, stderr: &str, process: ProcessEvidence, oracle: CommandOracle<'_>) -> (a: Assessment)
    ensures
        a@ == spec_assess(parsed@, stderr@, process, oracle@),
{
    let (outcome, outcome_class) = command_outcome(parsed, &oracle);
    let (status, failure_class) = if process.spawn_failed {
        (owned("harness_error"), Some(owned("codex_spawn")))
    } else if process.timed_out {
        (owned("timeout"), Some(owned("codex_timeout")))
    } else if process.exit_code != Some(0i32) || !parsed.turn_completed
        || (parsed.command_events <= 1 && parsed.command_exit_code.is_none()) {
        let (status, class) = classify_external_failure(parsed, stderr);
        (status, Some(class))
    } else if parsed.parse_errors > 0 {
        (owned("harness_error"), Some(owned("invalid_codex_jsonl")))
    } else {
        (owned(outcome), owned_opt(outcome_class))
    };
    Assessment {
        status,
        failure_class,
        command_outcome: owned(outcome),
        command_failure_class: owned_opt(outcome_class),
    }
}

/// The lines of a text (see [`spec_lines`]).
pub fn lines_of(text: &str) -> (r: Vec<Vec<char>>)
    ensures
        crate::text::char_views(r@) == spec_lines(text@),
{
    let chars = chars_of(text);
    let ghost s = chars@;
    let mut out: Vec<Vec<char>> = Vec::new();
    assert(s.skip(0) =~= s);
    let mut start: usize = 0;
    while start < chars.len()
        invariant
            start <= chars.len(),
            s == chars@,
            s == text@,
            spec_lines(s) == crate::text::char_views(out@) + spec_lines(s.skip(start as int)),
        decreases chars.len() - start,
    {
        let mut end = start;
        while end < chars.len() && chars[end] != '\n'
            invariant
                start <= end <= chars.len(),
                forall|j: int| start <= j < end ==> chars@[j] != '\n',
            decreases chars.len() - end,
        {
            end += 1;
        }
        let stop = if end < chars.len() && end > start && chars[end - 1] == '\r' { end - 1 } else { end };
        let line = crate::text::slice_chars(chars.as_slice(), start, stop);
        let next = if end < chars.len() { end + 1 } else { end };
        proof {
            lemma_lines_step(s, start as int, end as int, line@, next as int);
        }
        let ghost before = crate::text::char_views(out@);
        let ghost lv = line@;
        out.push(line);
        assert(crate::text::char_views(out@) =~= before.push(lv));
        assert(before + spec_lines(s.skip(start as int)) =~= before.push(lv) + spec_lines(s.skip(next as int)));
        start = next;
    }
    assert(s.skip(start as int) =~= Seq::<char>::empty());
    assert(spec_lines(Seq::<char>::empty()) =~= Seq::<Seq<char>>::empty());
    assert(crate::text::char_views(out@) + Seq::<Seq<char>>::empty() =~= crate::text::char_views(out@));
    out
}

/// An attempt is a success only where everything went right: Codex was
/// spawned, did not time out, exited with code zero after a completed turn,
/// every line of its output was valid JSON, and the command oracle found
/// the command's outcome right. In particular an unparsable line of Codex's
/// output, once Codex itself has finished, makes the attempt a harness
/// error of invalid Codex output, whatever the command did.
pub proof fn lemma_success_needs_clean_evidence(p: ParsedView, stderr: Seq<char>, process: ProcessEvidence, o: OracleView)
    ensures
        ({
            let a = spec_assess(p, stderr, process, o);
            &&& a.status == "success"@ ==> {
                &&& p.parse_errors == 0
                &&& a.command_outcome == "success"@
                &&& a.failure_class is None
                &&& p.turn_completed
                &&& process.exit_code == Some(0i32)
                &&& !process.timed_out
                &&& !process.spawn_failed
            }
            &&& (p.parse_errors > 0 && !process.spawn_failed && !process.timed_out && process.exit_code == Some(0i32)
                    && p.turn_completed && p.command_exit_code is Some)
                ==> a.status == "harness_error"@ && a.failure_class == Some("invalid_codex_jsonl"@)
        }),
{
    reveal_strlit("success");
    reveal_strlit("harness_error");
    reveal_strlit("timeout");
    reveal_strlit("unknown");
    reveal_strlit("relay_error");
    reveal_strlit("provider_error");
    reveal_strlit("backend_failure");
    assert("success"@[0] != "unknown"@[0] && "success"@[0] != "timeout"@[0]);
    assert("success"@.len() == 7 && "harness_error"@.len() == 13 && "relay_error"@.len() == 11
        && "provider_error"@.len() == 14 && "backend_failure"@.len() == 15);
}

/// The command oracle calls a command a success only where Codex reported
/// exactly one command, which exited with the expected code, left no
/// forbidden path behind, and printed the expected marker.
pub proof fn lemma_command_success_meets_the_oracle(p: ParsedView, stderr: Seq<char>, process: ProcessEvidence, o: OracleView)
    ensures
        spec_assess(p, stderr, process, o).command_outcome == "success"@ ==> {
            &&& p.command_events <= 1
            &&& p.command_exit_code is Some
            &&& p.command_exit_code == o.expected_exit
            &&& o.forbidden_path_exists == Some(false)
            &&& o.expected_marker matches Some(m) && crate::text::spec_contains(p.aggregated_output, m)
            &&& spec_assess(p, stderr, process, o).command_failure_class is None
        },
{
    reveal_strlit("success");
    reveal_strlit("harness_error");
    reveal_strlit("unknown");
    reveal_strlit("backend_failure");
    assert("success"@[0] != "unknown"@[0]);
    assert("success"@.len() == 7 && "harness_error"@.len() == 13 && "backend_failure"@.len() == 15);
}

} // verus!
