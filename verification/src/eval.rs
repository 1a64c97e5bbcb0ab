//! Reading evaluation events back: field access with the evaluator's
//! defaults, and the escaping used by the HTML and CSV reports.
use vstd::prelude::*;
use crate::codex_evidence::join_with;
use crate::json::{Json, JsonValue, json_text, spec_as_str, spec_member, str_eq, to_json_text};
use crate::render::{json_pretty, pretty_json_text};
use crate::text::{chars_of, escape_with, lemma_escape_step, owned, push_all, push_char};

verus! {

/// How HTML text writes one character.
pub open spec fn html_char(c: char) -> Seq<char> {
    if c == '&' {
        "&amp;"@
    } else if c == '<' {
        "&lt;"@
    } else if c == '>' {
        "&gt;"@
    } else if c == '"' {
        "&quot;"@
    } else {
        seq![c]
    }
}

/// A text escaped for HTML: `&`, `<`, `>` and `"` become entities.
pub open spec fn spec_esc(s: Seq<char>) -> Seq<char> {
    escape_with(s, |c: char| html_char(c))
}

/// Escapes untrusted text for HTML.
pub fn esc(value: &str) -> (r: String)
    ensures
        r@ == spec_esc(value@),
{
    let chars = chars_of(value);
    let mut out = String::new();
    let mut i: usize = 0;
    while i < chars.len()
        invariant
            i <= chars.len(),
            chars@ == value@,
            out@ == escape_with(chars@.take(i as int), |c: char| html_char(c)),
        decreases chars.len() - i,
    {
        let c = chars[i];
        proof {
            lemma_escape_step(chars@, |c: char| html_char(c), i as int);
        }
        let ghost before = out@;
        if c == '&' {
            push_all(&mut out, "&amp;");
        } else if c == '<' {
            push_all(&mut out, "&lt;");
        } else if c == '>' {
            push_all(&mut out, "&gt;");
        } else if c == '"' {
            push_all(&mut out, "&quot;");
        } else {
            push_char(&mut out, c);
            assert(out@ =~= before + seq![c]);
        }
        i += 1;
    }
    assert(chars@.take(chars@.len() as int) =~= chars@);
    out
}

/// How a quoted CSV field writes one character: quotes are doubled.
pub open spec fn csv_char(c: char) -> Seq<char> {
    if c == '"' {
        seq!['"', '"']
    } else {
        seq![c]
    }
}

/// A CSV field: the text in quotes, with inner quotes doubled.
pub open spec fn spec_csv_field(s: Seq<char>) -> Seq<char> {
    seq!['"'] + escape_with(s, |c: char| csv_char(c)) + seq!['"']
}

/// Quotes a value as a CSV field.
pub fn csv_field(value: String) -> (r: String)
    ensures
        r@ == spec_csv_field(value@),
{
    let chars = chars_of(value.as_str());
    let mut out = String::new();
    push_char(&mut out, '"');
    let mut i: usize = 0;
    while i < chars.len()
        invariant
            i <= chars.len(),
            chars@ == value@,
            out@ == seq!['"'] + escape_with(chars@.take(i as int), |c: char| csv_char(c)),
        decreases chars.len() - i,
    {
        let c = chars[i];
        proof {
            lemma_escape_step(chars@, |c: char| csv_char(c), i as int);
        }
        let ghost before = out@;
        if c == '"' {
            push_char(&mut out, '"');
            push_char(&mut out, '"');
        } else {
            push_char(&mut out, c);
        }
        assert(out@ =~= before + csv_char(c));
        i += 1;
    }
    push_char(&mut out, '"');
    assert(chars@.take(chars@.len() as int) =~= chars@);
    out
}

/// `value[name]` as text, `unknown` where it is absent or not a string.
pub open spec fn spec_field_text(value: Json, name: Seq<char>) -> Seq<char> {
    match spec_member(value, name) {
        Some(v) => match spec_as_str(v) {
            Some(s) => s,
            None => "unknown"@,
        },
        None => "unknown"@,
    }
}

/// A string member, or `unknown`.
pub fn field<'a>(value: &'a JsonValue, name: &str) -> (r: &'a str)
    ensures
        r@ == spec_field_text(value@, name@),
{
    match value.get(name) {
        Some(v) => match v.as_str() {
            Some(s) => s,
            None => "unknown",
        },
        None => "unknown",
    }
}

/// A member as text: strings as they are, absent or `null` as `unknown`,
/// other values as their JSON text.
pub open spec fn spec_text_field(value: Json, name: Seq<char>) -> Seq<char> {
    match spec_member(value, name) {
        Some(Json::Str(s)) => s,
        Some(Json::Null) => "unknown"@,
        None => "unknown"@,
        Some(v) => json_text(v),
    }
}

/// A member as text.
pub fn text_field(value: &JsonValue, name: &str) -> (r: String)
    ensures
        r@ == spec_text_field(value@, name@),
{
    match value.get(name) {
        Some(JsonValue::Str(s)) => owned(s.as_str()),
        Some(JsonValue::Null) => owned("unknown"),
        None => owned("unknown"),
        Some(v) => to_json_text(v),
    }
}

// ---------------------------------------------------------------------------
// Rendering a report
// ---------------------------------------------------------------------------

/// The views of some strings.
pub open spec fn strings_of(v: Seq<String>) -> Seq<Seq<char>> {
    v.map_values(|s: String| s@)
}

/// `pair[arm].status` as text, `unknown` where there is none.
pub open spec fn spec_arm_status(pair: Json, arm: Seq<char>) -> Seq<char> {
    match spec_member(pair, arm) {
        Some(a) => match spec_member(a, "status"@) {
            Some(Json::Str(s)) => s,
            _ => "unknown"@,
        },
        None => "unknown"@,
    }
}

/// Whether a pair is marked as a complete, comparable pair.
pub open spec fn spec_comparable(pair: Json) -> bool {
    spec_member(pair, "valid_comparable"@) == Some(Json::Bool(true))
}

/// `true` or `false`, as `bool` prints.
pub open spec fn bool_text(b: bool) -> Seq<char> {
    if b { "true"@ } else { "false"@ }
}

/// A text with each `|` written as a space.
pub open spec fn spec_bar_free(s: Seq<char>) -> Seq<char> {
    s.map_values(|c: char| if c == '|' { ' ' } else { c })
}

/// The kinds of table line a report prints.
pub enum LineKind {
    Csv,
    MarkdownPair,
    MarkdownEvent,
    HtmlPair,
    HtmlEvent,
}

/// The cells of one event in the CSV table.
pub open spec fn csv_cells(row: Json) -> Seq<Seq<char>> {
    seq![
        spec_csv_field(spec_field_text(row, "pair_id"@)),
        spec_csv_field(spec_field_text(row, "attempt_id"@)),
        spec_csv_field(spec_field_text(row, "task_id"@)),
        spec_csv_field(spec_field_text(row, "backend"@)),
        spec_csv_field(spec_field_text(row, "phase"@)),
        spec_csv_field(spec_field_text(row, "event"@)),
        spec_csv_field(spec_field_text(row, "status"@)),
        spec_csv_field(spec_text_field(row, "failure_class"@)),
        spec_csv_field(spec_text_field(row, "monotonic_ns"@)),
        spec_csv_field(spec_text_field(row, "elapsed_ms"@)),
        spec_csv_field(spec_text_field(row, "command"@)),
        spec_csv_field(spec_text_field(row, "artifact_dir"@)),
        spec_csv_field(spec_text_field(row, "command_outcome"@)),
        spec_csv_field(spec_text_field(row, "command_failure_class"@)),
        spec_csv_field(spec_text_field(row, "turn_completed"@)),
        spec_csv_field(spec_text_field(row, "recorded_status"@)),
    ]
}

/// The cells of one pair in the pair tables, before any escaping.
pub open spec fn pair_cells(pair: Json) -> Seq<Seq<char>> {
    seq![
        spec_field_text(pair, "pair_id"@),
        spec_field_text(pair, "task_id"@),
        spec_arm_status(pair, "shell"@),
        spec_arm_status(pair, "transparent"@),
        bool_text(spec_comparable(pair)),
        spec_text_field(pair, "command_oracle_pair"@),
        spec_field_text(pair, "observed_difference"@),
        spec_field_text(pair, "first_difference"@),
    ]
}

/// The cells of one event in the Markdown event table.
pub open spec fn markdown_event_cells(row: Json) -> Seq<Seq<char>> {
    seq![
        spec_field_text(row, "pair_id"@),
        spec_field_text(row, "task_id"@),
        spec_field_text(row, "backend"@),
        spec_field_text(row, "phase"@),
        spec_field_text(row, "event"@),
        spec_field_text(row, "status"@),
        spec_text_field(row, "failure_class"@),
        spec_text_field(row, "elapsed_ms"@),
        spec_bar_free(spec_text_field(row, "command"@)),
        spec_text_field(row, "artifact_dir"@),
    ]
}

/// The cells of one event in the HTML event table.
pub open spec fn html_event_cells(row: Json) -> Seq<Seq<char>> {
    seq![
        spec_esc(spec_field_text(row, "pair_id"@)),
        spec_esc(spec_field_text(row, "task_id"@)),
        spec_esc(spec_field_text(row, "backend"@)),
        spec_esc(spec_field_text(row, "phase"@)),
        spec_esc(spec_field_text(row, "event"@)),
        spec_esc(spec_field_text(row, "status"@)),
        spec_esc(spec_text_field(row, "failure_class"@)),
        spec_esc(spec_text_field(row, "elapsed_ms"@)),
        "<code>"@ + spec_esc(spec_text_field(row, "command"@)) + "</code>"@,
        "<code>"@ + spec_esc(spec_text_field(row, "artifact_dir"@)) + "</code>"@,
    ]
}

/// One table line: its cells between an opening and a closing text,
/// separated by `sep`.
pub open spec fn table_line(open: Seq<char>, cells: Seq<Seq<char>>, sep: Seq<char>, close: Seq<char>) -> Seq<char> {
    open + join_with(cells, sep) + close
}

/// The line a report prints for one row or pair.
pub open spec fn spec_line(kind: LineKind, v: Json) -> Seq<char> {
    match kind {
        LineKind::Csv => table_line(Seq::empty(), csv_cells(v), ","@, "\n"@),
        LineKind::MarkdownPair => table_line("| `"@, pair_cells(v), "` | `"@, "` |\n"@),
        LineKind::MarkdownEvent => table_line("| `"@, markdown_event_cells(v), "` | `"@, "` |\n"@),
        LineKind::HtmlPair => table_line("<tr><td>"@, pair_cells(v).map_values(|c: Seq<char>| spec_esc(c)), "</td><td>"@, "</td></tr>\n"@),
        LineKind::HtmlEvent => table_line("<tr><td>"@, html_event_cells(v), "</td><td>"@, "</td></tr>\n"@),
    }
}

/// The lines of a table, one per value, in order.
pub open spec fn spec_lines_of(values: Seq<Json>, kind: LineKind) -> Seq<char>
    decreases values.len(),
{
    if values.len() == 0 {
        Seq::empty()
    } else {
        spec_lines_of(values.drop_last(), kind) + spec_line(kind, values.last())
    }
}

/// The document the `json` format prints.
pub open spec fn spec_report_document(rows: Seq<Json>, summary: Json, pairs: Seq<Json>) -> Json {
    Json::Object(seq![
        ("events"@, Json::Array(rows)),
        ("pairs"@, Json::Array(pairs)),
        ("schema_version"@, Json::Number(crate::json::Num::PosInt(1))),
        ("summary"@, summary),
    ])
}

/// What the report command prints for the re-assessed events `rows`, with
/// their `summary` and `pairs`, in the format `format` (`json`, `csv`, `md`
/// or `html`); `None` for any other format.
pub open spec fn spec_render_report(rows: Seq<Json>, summary: Json, pairs: Seq<Json>, format: Seq<char>) -> Option<Seq<char>> {
    if format == "json"@ {
        Some(json_pretty(spec_report_document(rows, summary, pairs)) + "\n"@)
    } else if format == "csv"@ {
        Some("pair_id,attempt_id,task_id,backend,phase,event,status,failure_class,monotonic_ns,elapsed_ms,command,artifact_dir,command_outcome,command_failure_class,turn_completed,recorded_status\n"@ + spec_lines_of(rows, LineKind::Csv))
    } else if format == "md"@ {
        Some("# MBTX execution report\n\n## Evidence summary\n\n```json\n"@ + json_pretty(summary) + "\n```\n\n## Pair comparison\n\n| pair | task | shell | transparent | complete Codex pair | command oracle pair | observed timing | first difference |\n|---|---|---|---|---|---|---|---|\n"@
            + spec_lines_of(pairs, LineKind::MarkdownPair)
            + "\n## Event evidence\n\n| pair | task | backend | phase | event | status | failure | elapsed ms | command | evidence |\n|---|---|---|---|---|---|---|---:|---|---|\n"@
            + spec_lines_of(rows, LineKind::MarkdownEvent))
    } else if format == "html"@ {
        Some("<!doctype html><meta charset=utf-8><title>MBTX execution report</title><style>body{font:14px system-ui;margin:2rem}table{border-collapse:collapse;width:100%;margin:1rem 0}td,th{border:1px solid #ccc;padding:.35rem;text-align:left;vertical-align:top}code{white-space:pre-wrap;word-break:break-word}pre{background:#f5f5f5;padding:1rem;overflow:auto}</style><h1>MBTX execution report</h1><h2>Evidence summary</h2><pre>"@ + spec_esc(json_pretty(summary)) + "</pre><h2>Pair comparison</h2><table><tr><th>pair</th><th>task</th><th>shell</th><th>transparent</th><th>complete Codex pair</th><th>command oracle pair</th><th>observed timing</th><th>first difference</th></tr>\n"@
            + spec_lines_of(pairs, LineKind::HtmlPair)
            + "</table><h2>Event evidence</h2><table><tr><th>pair</th><th>task</th><th>backend</th><th>phase</th><th>event</th><th>status</th><th>failure</th><th>elapsed ms</th><th>command</th><th>evidence</th></tr>\n"@
            + spec_lines_of(rows, LineKind::HtmlEvent)
            + "</table>\n"@)
    } else {
        None
    }
}

/// `pair[arm].status` as text.
pub fn arm_status(pair: &JsonValue, arm: &str) -> (r: String)
    ensures
        r@ == spec_arm_status(pair@, arm@),
{
    match pair.get(arm) {
        Some(a) => match a.get("status") {
            Some(JsonValue::Str(s)) => owned(s.as_str()),
            _ => owned("unknown"),
        },
        None => owned("unknown"),
    }
}

/// Whether a pair is marked as a complete, comparable pair.
pub fn comparable(pair: &JsonValue) -> (r: bool)
    ensures
        r == spec_comparable(pair@),
{
    match pair.get("valid_comparable") {
        Some(JsonValue::Bool(b)) => *b,
        _ => false,
    }
}

fn bool_string(b: bool) -> (r: String)
    ensures
        r@ == bool_text(b),
{
    if b { owned("true") } else { owned("false") }
}

/// Writes each `|` of a text as a space.
pub fn bar_free(s: &str) -> (r: String)
    ensures
        r@ == spec_bar_free(s@),
{
    let chars = chars_of(s);
    let mut out = String::new();
    let mut i: usize = 0;
    while i < chars.len()
        invariant
            i <= chars.len(),
            chars@ == s@,
            out@ == spec_bar_free(chars@.take(i as int)),
        decreases chars.len() - i,
    {
        let c = chars[i];
        push_char(&mut out, if c == '|' { ' ' } else { c });
        assert(spec_bar_free(chars@.take(i + 1)) =~= spec_bar_free(chars@.take(i as int)).push(if c == '|' { ' ' } else { c }));
        i += 1;
    }
    assert(chars@.take(i as int) =~= chars@);
    out
}

proof fn lemma_join_next(parts: Seq<Seq<char>>, sep: Seq<char>, i: int)
    requires
        0 < i < parts.len(),
    ensures
        join_with(parts.take(i + 1), sep) == join_with(parts.take(i), sep) + sep + parts[i],
{
    assert(parts.take(i + 1).drop_last() =~= parts.take(i));
}

/// Appends cells joined by `sep`.
fn push_joined(out: &mut String, cells: &Vec<String>, sep: &str)
    ensures
        final(out)@ == old(out)@ + join_with(strings_of(cells@), sep@),
{
    let ghost cv = strings_of(cells@);
    let ghost start = out@;
    let mut i: usize = 0;
    assert(cv.take(0) =~= Seq::<Seq<char>>::empty());
    assert(start + Seq::<char>::empty() =~= start);
    while i < cells.len()
        invariant
            i <= cells.len(),
            cv == strings_of(cells@),
            out@ == start + join_with(cv.take(i as int), sep@),
        decreases cells.len() - i,
    {
        assert(cv[i as int] == cells@[i as int]@);
        let ghost before = out@;
        if i > 0 {
            push_all(out, sep);
            push_all(out, cells[i].as_str());
            proof {
                lemma_join_next(cv, sep@, i as int);
            }
            assert(out@ =~= start + (join_with(cv.take(i as int), sep@) + sep@ + cv[i as int]));
        } else {
            push_all(out, cells[i].as_str());
            assert(cv.take(1) =~= seq![cv[0]]);
            assert(join_with(cv.take(1), sep@) == cv[0]);
            assert(out@ =~= start + cv[0]);
        }
        i += 1;
    }
    assert(cv.take(cells.len() as int) =~= cv);
}

fn csv_text(row: &JsonValue, name: &str) -> (r: String)
    ensures
        r@ == spec_csv_field(spec_field_text(row@, name@)),
{
    csv_field(owned(field(row, name)))
}

fn csv_value(row: &JsonValue, name: &str) -> (r: String)
    ensures
        r@ == spec_csv_field(spec_text_field(row@, name@)),
{
    csv_field(text_field(row, name))
}

fn esc_text(row: &JsonValue, name: &str) -> (r: String)
    ensures
        r@ == spec_esc(spec_field_text(row@, name@)),
{
    esc(field(row, name))
}

fn esc_value(row: &JsonValue, name: &str) -> (r: String)
    ensures
        r@ == spec_esc(spec_text_field(row@, name@)),
{
    esc(text_field(row, name).as_str())
}

fn code_value(row: &JsonValue, name: &str) -> (r: String)
    ensures
        r@ == "<code>"@ + spec_esc(spec_text_field(row@, name@)) + "</code>"@,
{
    let mut out = owned("<code>");
    push_all(&mut out, esc_value(row, name).as_str());
    push_all(&mut out, "</code>");
    out
}

fn pair_cell_texts(pair: &JsonValue) -> (r: Vec<String>)
    ensures
        strings_of(r@) == pair_cells(pair@),
{
    let mut v: Vec<String> = Vec::new();
    v.push(owned(field(pair, "pair_id")));
    v.push(owned(field(pair, "task_id")));
    v.push(arm_status(pair, "shell"));
    v.push(arm_status(pair, "transparent"));
    v.push(bool_string(comparable(pair)));
    v.push(text_field(pair, "command_oracle_pair"));
    v.push(owned(field(pair, "observed_difference")));
    v.push(owned(field(pair, "first_difference")));
    assert(strings_of(v@) =~= pair_cells(pair@));
    v
}

fn line_cells(kind: &LineKind, v: &JsonValue) -> (r: Vec<String>)
    ensures
        strings_of(r@) == match *kind {
            LineKind::Csv => csv_cells(v@),
            LineKind::MarkdownPair => pair_cells(v@),
            LineKind::MarkdownEvent => markdown_event_cells(v@),
            LineKind::HtmlPair => pair_cells(v@).map_values(|c: Seq<char>| spec_esc(c)),
            LineKind::HtmlEvent => html_event_cells(v@),
        },
{
    let mut c: Vec<String> = Vec::new();
    match kind {
        LineKind::Csv => {
            c.push(csv_text(v, "pair_id"));
            c.push(csv_text(v, "attempt_id"));
            c.push(csv_text(v, "task_id"));
            c.push(csv_text(v, "backend"));
            c.push(csv_text(v, "phase"));
            c.push(csv_text(v, "event"));
            c.push(csv_text(v, "status"));
            c.push(csv_value(v, "failure_class"));
            c.push(csv_value(v, "monotonic_ns"));
            c.push(csv_value(v, "elapsed_ms"));
            c.push(csv_value(v, "command"));
            c.push(csv_value(v, "artifact_dir"));
            c.push(csv_value(v, "command_outcome"));
            c.push(csv_value(v, "command_failure_class"));
            c.push(csv_value(v, "turn_completed"));
            c.push(csv_value(v, "recorded_status"));
            assert(strings_of(c@) =~= csv_cells(v@));
            c
        },
        LineKind::MarkdownPair => pair_cell_texts(v),
        LineKind::MarkdownEvent => {
            c.push(owned(field(v, "pair_id")));
            c.push(owned(field(v, "task_id")));
            c.push(owned(field(v, "backend")));
            c.push(owned(field(v, "phase")));
            c.push(owned(field(v, "event")));
            c.push(owned(field(v, "status")));
            c.push(text_field(v, "failure_class"));
            c.push(text_field(v, "elapsed_ms"));
            c.push(bar_free(text_field(v, "command").as_str()));
            c.push(text_field(v, "artifact_dir"));
            assert(strings_of(c@) =~= markdown_event_cells(v@));
            c
        },
        LineKind::HtmlPair => {
            let plain = pair_cell_texts(v);
            let mut i: usize = 0;
            while i < plain.len()
                invariant
                    i <= plain.len(),
                    strings_of(plain@) == pair_cells(v@),
                    strings_of(c@) == strings_of(plain@).take(i as int).map_values(|c: Seq<char>| spec_esc(c)),
                decreases plain.len() - i,
            {
                let ghost before = strings_of(c@);
                c.push(esc(plain[i].as_str()));
                assert(strings_of(c@) =~= before.push(spec_esc(plain@[i as int]@)));
                assert(strings_of(plain@).take(i + 1).map_values(|c: Seq<char>| spec_esc(c))
                    =~= strings_of(plain@).take(i as int).map_values(|c: Seq<char>| spec_esc(c)).push(spec_esc(plain@[i as int]@)));
                i += 1;
            }
            assert(strings_of(plain@).take(i as int) =~= strings_of(plain@));
            c
        },
        LineKind::HtmlEvent => {
            c.push(esc_text(v, "pair_id"));
            c.push(esc_text(v, "task_id"));
            c.push(esc_text(v, "backend"));
            c.push(esc_text(v, "phase"));
            c.push(esc_text(v, "event"));
            c.push(esc_text(v, "status"));
            c.push(esc_value(v, "failure_class"));
            c.push(esc_value(v, "elapsed_ms"));
            c.push(code_value(v, "command"));
            c.push(code_value(v, "artifact_dir"));
            assert(strings_of(c@) =~= html_event_cells(v@));
            c
        },
    }
}

/// Appends the line a report prints for one row or pair.
fn push_line(out: &mut String, kind: &LineKind, v: &JsonValue)
    ensures
        final(out)@ == old(out)@ + spec_line(*kind, v@),
{
    let cells = line_cells(kind, v);
    let ghost start = out@;
    let (open, sep, close) = match kind {
        LineKind::Csv => ("", ",", "\n"),
        LineKind::MarkdownPair => ("| `", "` | `", "` |\n"),
        LineKind::MarkdownEvent => ("| `", "` | `", "` |\n"),
        LineKind::HtmlPair => ("<tr><td>", "</td><td>", "</td></tr>\n"),
        LineKind::HtmlEvent => ("<tr><td>", "</td><td>", "</td></tr>\n"),
    };
    push_all(out, open);
    push_joined(out, &cells, sep);
    push_all(out, close);
    proof {
        reveal_strlit("");
    }
    assert(out@ =~= start + table_line(open@, strings_of(cells@), sep@, close@));
}

/// Appends the lines of a table, one per value.
fn push_lines(out: &mut String, values: &Vec<JsonValue>, kind: &LineKind)
    ensures
        final(out)@ == old(out)@ + spec_lines_of(crate::evidence::value_views(values@), *kind),
{
    let ghost vv = crate::evidence::value_views(values@);
    let ghost start = out@;
    let mut i: usize = 0;
    assert(vv.take(0) =~= Seq::<Json>::empty());
    assert(start + Seq::<char>::empty() =~= start);
    while i < values.len()
        invariant
            i <= values.len(),
            vv == crate::evidence::value_views(values@),
            out@ == start + spec_lines_of(vv.take(i as int), *kind),
        decreases values.len() - i,
    {
        assert(vv.take(i + 1).drop_last() =~= vv.take(i as int));
        assert(vv.take(i + 1).last() == values@[i as int]@);
        push_line(out, kind, &values[i]);
        assert(out@ =~= start + spec_lines_of(vv.take(i + 1), *kind));
        i += 1;
    }
    assert(vv.take(i as int) =~= vv);
}

/// Renders the report of the re-assessed events `rows`, with their
/// `summary` and `pairs`, in the format `format`: the text the report
/// command prints, or `None` where the format is not one of `json`, `csv`,
/// `md` and `html`.
pub fn render_report(rows: &Vec<JsonValue>, summary: &JsonValue, pairs: &Vec<JsonValue>, format: &str) -> (r: Option<String>)
    ensures
        r matches Some(t) ==> spec_render_report(crate::evidence::value_views(rows@), summary@, crate::evidence::value_views(pairs@), format@) == Some(t@),
        r is None ==> spec_render_report(crate::evidence::value_views(rows@), summary@, crate::evidence::value_views(pairs@), format@) is None,
{
    let ghost rv = crate::evidence::value_views(rows@);
    let ghost pv = crate::evidence::value_views(pairs@);
    if str_eq(format, "json") {
        let mut events: Vec<JsonValue> = Vec::new();
        let mut i: usize = 0;
        while i < rows.len()
            invariant
                i <= rows.len(),
                rv == crate::evidence::value_views(rows@),
                crate::evidence::value_views(events@) == rv.take(i as int),
            decreases rows.len() - i,
        {
            assert(rv[i as int] == rows@[i as int]@);
            let ghost before = crate::evidence::value_views(events@);
            events.push(rows[i].copy());
            assert(crate::evidence::value_views(events@) =~= before.push(rv[i as int]));
            assert(rv.take(i + 1) =~= rv.take(i as int).push(rv[i as int]));
            i += 1;
        }
        let mut listed: Vec<JsonValue> = Vec::new();
        let mut k: usize = 0;
        while k < pairs.len()
            invariant
                k <= pairs.len(),
                pv == crate::evidence::value_views(pairs@),
                crate::evidence::value_views(listed@) == pv.take(k as int),
            decreases pairs.len() - k,
        {
            assert(pv[k as int] == pairs@[k as int]@);
            let ghost before = crate::evidence::value_views(listed@);
            listed.push(pairs[k].copy());
            assert(crate::evidence::value_views(listed@) =~= before.push(pv[k as int]));
            assert(pv.take(k + 1) =~= pv.take(k as int).push(pv[k as int]));
            k += 1;
        }
        assert(rv.take(i as int) =~= rv);
        assert(pv.take(k as int) =~= pv);
        let mut m: Vec<(String, JsonValue)> = Vec::new();
        crate::json_object::push_member(&mut m, "events", crate::evidence::array_of(events));
        crate::json_object::push_member(&mut m, "pairs", crate::evidence::array_of(listed));
        crate::json_object::push_member(&mut m, "schema_version", JsonValue::Number(crate::json::JsonNumber::PosInt(1)));
        crate::json_object::push_member(&mut m, "summary", summary.copy());
        assert(crate::json_object::member_views(m@) =~= seq![
            ("events"@, Json::Array(rv)),
            ("pairs"@, Json::Array(pv)),
            ("schema_version"@, Json::Number(crate::json::Num::PosInt(1))),
            ("summary"@, summary@),
        ]);
        let document = crate::json_object::object_of(m);
        let mut out = pretty_json_text(&document);
        push_all(&mut out, "\n");
        Some(out)
    } else if str_eq(format, "csv") {
        let mut out = owned("pair_id,attempt_id,task_id,backend,phase,event,status,failure_class,monotonic_ns,elapsed_ms,command,artifact_dir,command_outcome,command_failure_class,turn_completed,recorded_status\n");
        push_lines(&mut out, rows, &LineKind::Csv);
        Some(out)
    } else if str_eq(format, "md") {
        let mut out = owned("# MBTX execution report\n\n## Evidence summary\n\n```json\n");
        push_all(&mut out, pretty_json_text(summary).as_str());
        push_all(&mut out, "\n```\n\n## Pair comparison\n\n| pair | task | shell | transparent | complete Codex pair | command oracle pair | observed timing | first difference |\n|---|---|---|---|---|---|---|---|\n");
        push_lines(&mut out, pairs, &LineKind::MarkdownPair);
        push_all(&mut out, "\n## Event evidence\n\n| pair | task | backend | phase | event | status | failure | elapsed ms | command | evidence |\n|---|---|---|---|---|---|---|---:|---|---|\n");
        push_lines(&mut out, rows, &LineKind::MarkdownEvent);
        assert(out@ =~= spec_render_report(rv, summary@, pv, format@)->0);
        Some(out)
    } else if str_eq(format, "html") {
        let mut out = owned("<!doctype html><meta charset=utf-8><title>MBTX execution report</title><style>body{font:14px system-ui;margin:2rem}table{border-collapse:collapse;width:100%;margin:1rem 0}td,th{border:1px solid #ccc;padding:.35rem;text-align:left;vertical-align:top}code{white-space:pre-wrap;word-break:break-word}pre{background:#f5f5f5;padding:1rem;overflow:auto}</style><h1>MBTX execution report</h1><h2>Evidence summary</h2><pre>");
        push_all(&mut out, esc(pretty_json_text(summary).as_str()).as_str());
        push_all(&mut out, "</pre><h2>Pair comparison</h2><table><tr><th>pair</th><th>task</th><th>shell</th><th>transparent</th><th>complete Codex pair</th><th>command oracle pair</th><th>observed timing</th><th>first difference</th></tr>\n");
        push_lines(&mut out, pairs, &LineKind::HtmlPair);
        push_all(&mut out, "</table><h2>Event evidence</h2><table><tr><th>pair</th><th>task</th><th>backend</th><th>phase</th><th>event</th><th>status</th><th>failure</th><th>elapsed ms</th><th>command</th><th>evidence</th></tr>\n");
        push_lines(&mut out, rows, &LineKind::HtmlEvent);
        push_all(&mut out, "</table>\n");
        assert(out@ =~= spec_render_report(rv, summary@, pv, format@)->0);
        Some(out)
    } else {
        None
    }
}

// ---------------------------------------------------------------------------
// Replaying a frozen run
// ---------------------------------------------------------------------------

/// `manifest.binaries.<name>.path` as text.
pub open spec fn binary_path(manifest: Json, name: Seq<char>) -> Option<Seq<char>> {
    spec_as_str(crate::json::spec_field(crate::json::spec_field(crate::json::spec_field(manifest, "binaries"@), name), "path"@))
}

/// The options with `key` and the recorded path of binary `name` added
/// where `key` is not given yet; `None` where it is needed and the manifest
/// records no path.
pub open spec fn with_binary(o: Option<Seq<Seq<char>>>, key: Seq<char>, name: Seq<char>, manifest: Json) -> Option<Seq<Seq<char>>> {
    match o {
        None => None,
        Some(a) => if a.contains(key) {
            Some(a)
        } else {
            match binary_path(manifest, name) {
                Some(p) => Some(a + seq![key, p]),
                None => None,
            }
        },
    }
}

/// The options with `key` and the manifest's `field` added where `key` is
/// not given yet and the field is recorded (text as it is, anything else as
/// its JSON text).
pub open spec fn with_recorded(o: Seq<Seq<char>>, key: Seq<char>, field: Seq<char>, manifest: Json) -> Seq<Seq<char>> {
    let v = crate::json::spec_field(manifest, field);
    if o.contains(key) || v == Json::Null {
        o
    } else {
        o + seq![key, match spec_as_str(v) { Some(t) => t, None => json_text(v) }]
    }
}

/// The collector options that replay the frozen run in directory `source`
/// with manifest `manifest`: the given `args`, completed from the manifest
/// with the binaries, the tool mode, the model, the timeout and direct
/// control where they are not given, an output directory named after
/// `source` and `stamp` where none is given, and the frozen run and the
/// replay suite. `None` where a binary is neither given nor recorded.
pub open spec fn spec_replay_options(args: Seq<Seq<char>>, source: Seq<char>, manifest: Json, stamp: u64) -> Option<Seq<Seq<char>>> {
    let bins = with_binary(with_binary(with_binary(with_binary(Some(args),
        "--codex"@, "codex"@, manifest), "--mbtx"@, "launcher"@, manifest),
        "--fixture"@, "fixture"@, manifest), "--evaluation-model"@, "evaluation_model"@, manifest);
    match bins {
        None => None,
        Some(o1) => {
            let o2 = if o1.contains("--output"@) { o1 } else { o1 + seq!["--output"@, source + "-replay-"@ + crate::text::decimal(stamp as nat)] };
            let mode = match spec_as_str(crate::json::spec_field(manifest, "tool_mode"@)) { Some(t) => t, None => "code"@ };
            let o3 = if o2.contains("--tool-mode"@) { o2 } else { o2 + seq!["--tool-mode"@, mode] };
            let o4 = with_recorded(with_recorded(o3, "--model"@, "model"@, manifest), "--timeout-ms"@, "timeout_ms"@, manifest);
            let o5 = if crate::json::spec_field(manifest, "direct_control"@) == Json::Bool(true) && !o4.contains("--direct-shell"@) {
                o4.push("--direct-shell"@)
            } else {
                o4
            };
            Some(o5 + seq!["--frozen-run"@, source, "--suite"@, "codex-replay"@])
        },
    }
}

fn has_arg(v: &Vec<String>, key: &str) -> (r: bool)
    ensures
        r == crate::protocol::strings_view(v@).contains(key@),
{
    let ghost sv = crate::protocol::strings_view(v@);
    let mut i: usize = 0;
    while i < v.len()
        invariant
            i <= v.len(),
            sv == crate::protocol::strings_view(v@),
            forall|j: int| 0 <= j < i ==> sv[j] != key@,
        decreases v.len() - i,
    {
        assert(sv[i as int] == v@[i as int]@);
        if str_eq(v[i].as_str(), key) {
            assert(sv[i as int] == key@);
            return true;
        }
        i += 1;
    }
    false
}

fn push_arg(v: &mut Vec<String>, a: &str)
    ensures
        crate::protocol::strings_view(final(v)@) == crate::protocol::strings_view(old(v)@).push(a@),
{
    let ghost before = crate::protocol::strings_view(v@);
    v.push(owned(a));
    assert(crate::protocol::strings_view(v@) =~= before.push(a@));
}

fn add_binary(v: &mut Vec<String>, key: &str, name: &str, manifest: &JsonValue) -> (ok: bool)
    ensures
        ok == with_binary(Some(crate::protocol::strings_view(old(v)@)), key@, name@, manifest@) is Some,
        ok ==> with_binary(Some(crate::protocol::strings_view(old(v)@)), key@, name@, manifest@)
            == Some(crate::protocol::strings_view(final(v)@)),
{
    if has_arg(v, key) {
        return true;
    }
    let entry = manifest.field("binaries").field(name).field("path");
    match entry.as_str() {
        Some(path) => {
            let ghost before = crate::protocol::strings_view(v@);
            push_arg(v, key);
            push_arg(v, path);
            assert(crate::protocol::strings_view(v@) =~= before + seq![key@, path@]);
            true
        },
        None => false,
    }
}

fn add_recorded(v: &mut Vec<String>, key: &str, field: &str, manifest: &JsonValue)
    ensures
        crate::protocol::strings_view(final(v)@) == with_recorded(crate::protocol::strings_view(old(v)@), key@, field@, manifest@),
{
    if has_arg(v, key) {
        return;
    }
    let value = manifest.field(field);
    if value.is_null() {
        return;
    }
    let text = match value.as_str() {
        Some(t) => owned(t),
        None => to_json_text(&value),
    };
    let ghost before = crate::protocol::strings_view(v@);
    push_arg(v, key);
    push_arg(v, text.as_str());
    assert(crate::protocol::strings_view(v@) =~= before + seq![key@, text@]);
}

/// Completes the options that replay a frozen run (see
/// [`spec_replay_options`]).
pub fn replay_options(args: &Vec<String>, source: &str, manifest: &JsonValue, stamp: u64) -> (r: Option<Vec<String>>)
    ensures
        match spec_replay_options(crate::protocol::strings_view(args@), source@, manifest@, stamp) {
            None => r is None,
            Some(o) => r matches Some(v) && crate::protocol::strings_view(v@) == o,
        },
{
    let mut v: Vec<String> = Vec::new();
    let mut i: usize = 0;
    while i < args.len()
        invariant
            i <= args.len(),
            crate::protocol::strings_view(v@) == crate::protocol::strings_view(args@).take(i as int),
        decreases args.len() - i,
    {
        push_arg(&mut v, args[i].as_str());
        assert(crate::protocol::strings_view(args@).take(i + 1)
            =~= crate::protocol::strings_view(args@).take(i as int).push(args@[i as int]@));
        i += 1;
    }
    assert(crate::protocol::strings_view(args@).take(i as int) =~= crate::protocol::strings_view(args@));
    if !add_binary(&mut v, "--codex", "codex", manifest) {
        return None;
    }
    if !add_binary(&mut v, "--mbtx", "launcher", manifest) {
        return None;
    }
    if !add_binary(&mut v, "--fixture", "fixture", manifest) {
        return None;
    }
    if !add_binary(&mut v, "--evaluation-model", "evaluation_model", manifest) {
        return None;
    }
    if !has_arg(&v, "--output") {
        let mut out = owned(source);
        push_all(&mut out, "-replay-");
        crate::text::push_decimal(&mut out, stamp);
        let ghost before = crate::protocol::strings_view(v@);
        push_arg(&mut v, "--output");
        push_arg(&mut v, out.as_str());
        assert(crate::protocol::strings_view(v@) =~= before + seq!["--output"@, out@]);
    }
    if !has_arg(&v, "--tool-mode") {
        let mode = match manifest.field("tool_mode").as_str() {
            Some(t) => owned(t),
            None => owned("code"),
        };
        let ghost before = crate::protocol::strings_view(v@);
        push_arg(&mut v, "--tool-mode");
        push_arg(&mut v, mode.as_str());
        assert(crate::protocol::strings_view(v@) =~= before + seq!["--tool-mode"@, mode@]);
    }
    add_recorded(&mut v, "--model", "model", manifest);
    add_recorded(&mut v, "--timeout-ms", "timeout_ms", manifest);
    let direct = match manifest.get("direct_control") {
        Some(JsonValue::Bool(true)) => true,
        _ => false,
    };
    if direct && !has_arg(&v, "--direct-shell") {
        push_arg(&mut v, "--direct-shell");
    }
    let ghost before = crate::protocol::strings_view(v@);
    push_arg(&mut v, "--frozen-run");
    push_arg(&mut v, source);
    push_arg(&mut v, "--suite");
    push_arg(&mut v, "codex-replay");
    assert(crate::protocol::strings_view(v@) =~= before + seq!["--frozen-run"@, source@, "--suite"@, "codex-replay"@]);
    Some(v)
}

} // verus!
