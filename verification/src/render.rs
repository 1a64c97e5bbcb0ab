//! Writing a report out: its CSV tables, its Markdown table of statistics,
//! and the JSON that the HTML page embeds.
use vstd::prelude::*;
use crate::codex_evidence::join_with;
use crate::eval::{csv_field, spec_csv_field};
use crate::json::{Json, JsonValue, json_text, spec_as_str, spec_field, spec_is_text, to_json_text};
use crate::text::{owned, push_all, push_char};

verus! {

/// The indented text that `serde_json::to_string_pretty` prints for a value.
pub uninterp spec fn json_pretty(value: Json) -> Seq<char>;

/// Prints a value as indented JSON (`serde_json::to_string_pretty`). The
/// contract names the text by the value; it does not state the layout.
/// Printing a `serde_json::Value` cannot fail, so the result is always text.
#[verifier::external_body]
pub fn pretty_json_text(value: &JsonValue) -> (text: String)
    ensures
        text@ == json_pretty(value@),
{
    match serde_json::to_string_pretty(&crate::json::to_serde(value)) {
        Ok(text) => text,
        Err(_) => String::new(),
    }
}

/// A value as a CSV field: text as it is, anything else as its JSON text,
/// quoted with inner quotes doubled.
pub open spec fn spec_csv_cell(value: Json) -> Seq<char> {
    spec_csv_field(match spec_as_str(value) { Some(s) => s, None => json_text(value) })
}

/// Writes a value as a CSV field.
pub fn csv_cell(value: &JsonValue) -> (r: String)
    ensures
        r@ == spec_csv_cell(value@),
{
    match value.as_str() {
        Some(s) => csv_field(owned(s)),
        None => csv_field(to_json_text(value)),
    }
}

/// A CSV line: the fields joined by commas, then a newline.
pub open spec fn csv_line(cells: Seq<Seq<char>>) -> Seq<char> {
    join_with(cells, ","@) + "\n"@
}

/// The fields of a CSV line: each value quoted.
pub open spec fn cells_of(values: Seq<Json>) -> Seq<Seq<char>> {
    Seq::new(values.len(), |i: int| spec_csv_cell(values[i]))
}

proof fn lemma_join_step(parts: Seq<Seq<char>>, i: int)
    requires
        0 < i < parts.len(),
    ensures
        join_with(parts.take(i + 1), ","@) == join_with(parts.take(i), ","@) + ","@ + parts[i],
{
    let t = parts.take(i + 1);
    assert(t.drop_last() =~= parts.take(i));
}

fn write_line(out: &mut String, values: &Vec<JsonValue>)
    ensures
        final(out)@ == old(out)@ + csv_line(cells_of(crate::evidence::value_views(values@))),
{
    let ghost cells = cells_of(crate::evidence::value_views(values@));
    let ghost start = out@;
    let mut i: usize = 0;
    assert(cells.take(0) =~= Seq::<Seq<char>>::empty());
    while i < values.len()
        invariant
            i <= values.len(),
            cells == cells_of(crate::evidence::value_views(values@)),
            out@ == start + join_with(cells.take(i as int), ","@),
        decreases values.len() - i,
    {
        let cell = csv_cell(&values[i]);
        assert(cell@ == cells[i as int]);
        if i > 0 {
            push_char(out, ',');
            proof {
                lemma_join_step(cells, i as int);
            }
        } else {
            assert(cells.take(1) =~= seq![cells[0]]);
        }
        let ghost before = out@;
        push_all(out, cell.as_str());
        assert(out@ == start + join_with(cells.take(i + 1), ","@)) by {
            if i > 0 {
                assert(before == start + join_with(cells.take(i as int), ","@) + seq![',']);
                assert(","@ =~= seq![',']) by {
                    reveal_strlit(",");
                }
                assert(out@ =~= start + (join_with(cells.take(i as int), ","@) + ","@ + cells[i as int]));
            } else {
                assert(join_with(cells.take(1), ","@) == cells[0]);
                assert(out@ =~= start + cells[0]);
            }
        }
        i += 1;
    }
    assert(cells.take(values.len() as int) =~= cells);
    push_char(out, '\n');
    proof {
        reveal_strlit("\n");
    }
    assert(out@ =~= start + csv_line(cells));
}

/// The columns of the start-up CSV table.
pub open spec fn startup_columns() -> Seq<Seq<char>> {
    seq!["pair_id"@, "backend"@, "task_id"@, "observation"@, "sample_phase"@, "status"@, "startup_ns"@, "spawn_return_ns"@, "fixture_ready_ns"@]
}

/// A row's values under some columns.
pub open spec fn values_under(row: Json, columns: Seq<Seq<char>>) -> Seq<Json> {
    Seq::new(columns.len(), |i: int| spec_field(row, columns[i]))
}

/// The start-up CSV lines of the first `n` events: one per start-up row.
pub open spec fn startup_lines(events: Seq<Json>, n: int) -> Seq<char>
    decreases n,
{
    if n <= 0 || n > events.len() {
        Seq::empty()
    } else if spec_is_text(spec_field(events[n - 1], "phase"@), "startup"@) {
        startup_lines(events, n - 1) + csv_line(cells_of(values_under(events[n - 1], startup_columns())))
    } else {
        startup_lines(events, n - 1)
    }
}

/// The header of the start-up CSV table.
pub open spec fn startup_header() -> Seq<char> {
    "pair_id,backend,task_id,observation,sample_phase,status,startup_ns,spawn_return_ns,fixture_ready_ns\n"@
}

fn fields_of(row: &JsonValue, columns: &[&str]) -> (r: Vec<JsonValue>)
    ensures
        crate::evidence::value_views(r@) == values_under(row@, columns@.map_values(|c: &str| c@)),
{
    let ghost cols = columns@.map_values(|c: &str| c@);
    let mut out: Vec<JsonValue> = Vec::new();
    let mut i: usize = 0;
    while i < columns.len()
        invariant
            i <= columns.len(),
            cols == columns@.map_values(|c: &str| c@),
            crate::evidence::value_views(out@) == values_under(row@, cols).take(i as int),
        decreases columns.len() - i,
    {
        let ghost before = crate::evidence::value_views(out@);
        assert(cols[i as int] == columns@[i as int]@);
        let v = row.field(columns[i]);
        assert(v@ == values_under(row@, cols)[i as int]);
        let ghost vv = v@;
        out.push(v);
        assert(crate::evidence::value_views(out@) =~= before.push(vv));
        assert(crate::evidence::value_views(out@) =~= values_under(row@, cols).take(i + 1));
        i += 1;
    }
    assert(values_under(row@, cols).take(columns.len() as int) =~= values_under(row@, cols));
    out
}

/// The start-up CSV table: a header, then one line per start-up event.
pub fn startup_csv(events: &[JsonValue]) -> (r: String)
    ensures
        r@ == startup_header() + startup_lines(crate::evidence::value_views(events@), events@.len() as int),
{
    let ghost v = crate::evidence::value_views(events@);
    let columns = ["pair_id", "backend", "task_id", "observation", "sample_phase", "status", "startup_ns", "spawn_return_ns", "fixture_ready_ns"];
    assert(columns@.map_values(|c: &str| c@) =~= startup_columns());
    let mut out = owned("pair_id,backend,task_id,observation,sample_phase,status,startup_ns,spawn_return_ns,fixture_ready_ns\n");
    let mut i: usize = 0;
    while i < events.len()
        invariant
            i <= events.len(),
            v == crate::evidence::value_views(events@),
            columns@.map_values(|c: &str| c@) == startup_columns(),
            out@ == startup_header() + startup_lines(v, i as int),
        decreases events.len() - i,
    {
        let row = &events[i];
        assert(v[i as int] == row@);
        if row.field("phase").is_text("startup") {
            let values = fields_of(row, &columns);
            let ghost before = out@;
            write_line(&mut out, &values);
            assert(out@ =~= startup_header() + startup_lines(v, i + 1));
        }
        i += 1;
    }
    out
}

/// The columns of an arm in the CSV table of a run: from its result, then
/// from its metrics.
pub open spec fn arm_values(arm: Json) -> Seq<Json> {
    let r = spec_field(arm, "result"@);
    let m = spec_field(arm, "metrics"@);
    seq![spec_field(r, "pair_id"@), spec_field(r, "task_id"@), spec_field(r, "backend"@), spec_field(r, "status"@),
        spec_field(r, "strict_comparable"@), spec_field(m, "codex_total_ns"@), spec_field(m, "external_response_ns"@),
        spec_field(m, "rate_wait_ns"@), spec_field(m, "startup_to_ready_ns"@), spec_field(m, "unexplained_ns"@)]
}

/// The CSV lines of the first `n` arms.
pub open spec fn arm_lines(arms: Seq<Json>, n: int) -> Seq<char>
    decreases n,
{
    if n <= 0 || n > arms.len() {
        Seq::empty()
    } else {
        arm_lines(arms, n - 1) + csv_line(cells_of(arm_values(arms[n - 1])))
    }
}

/// The header of a run's CSV table.
pub open spec fn arms_header() -> Seq<char> {
    "pair_id,task_id,backend,status,strict_comparable,codex_total_ns,external_response_ns,rate_wait_ns,startup_to_ready_ns,unexplained_ns\n"@
}

/// A run's CSV table: a header, then one line per arm.
pub fn arms_csv(arms: &[JsonValue]) -> (r: String)
    ensures
        r@ == arms_header() + arm_lines(crate::evidence::value_views(arms@), arms@.len() as int),
{
    let ghost v = crate::evidence::value_views(arms@);
    let result_columns = ["pair_id", "task_id", "backend", "status", "strict_comparable"];
    let metric_columns = ["codex_total_ns", "external_response_ns", "rate_wait_ns", "startup_to_ready_ns", "unexplained_ns"];
    let mut out = owned("pair_id,task_id,backend,status,strict_comparable,codex_total_ns,external_response_ns,rate_wait_ns,startup_to_ready_ns,unexplained_ns\n");
    let mut i: usize = 0;
    while i < arms.len()
        invariant
            i <= arms.len(),
            v == crate::evidence::value_views(arms@),
            result_columns@.map_values(|c: &str| c@) == seq!["pair_id"@, "task_id"@, "backend"@, "status"@, "strict_comparable"@],
            metric_columns@.map_values(|c: &str| c@) == seq!["codex_total_ns"@, "external_response_ns"@, "rate_wait_ns"@, "startup_to_ready_ns"@, "unexplained_ns"@],
            out@ == arms_header() + arm_lines(v, i as int),
        decreases arms.len() - i,
    {
        let arm = &arms[i];
        assert(v[i as int] == arm@);
        let mut values = fields_of(&arm.field("result"), &result_columns);
        let mut more = fields_of(&arm.field("metrics"), &metric_columns);
        let ghost a = crate::evidence::value_views(values@);
        let ghost b = crate::evidence::value_views(more@);
        values.append(&mut more);
        assert(crate::evidence::value_views(values@) =~= a + b);
        assert(crate::evidence::value_views(values@) =~= arm_values(arm@));
        write_line(&mut out, &values);
        assert(out@ =~= arms_header() + arm_lines(v, i + 1));
        i += 1;
    }
    out
}

/// A report's CSV table: the start-up table where the report has events,
/// else the table of its arms.
pub open spec fn spec_report_csv(report: Json) -> Seq<char> {
    match spec_field(report, "events"@) {
        Json::Array(events) => startup_header() + startup_lines(events, events.len() as int),
        _ => match spec_field(report, "arms"@) {
            Json::Array(arms) => arms_header() + arm_lines(arms, arms.len() as int),
            _ => arms_header(),
        },
    }
}

/// Writes a report's CSV table.
pub fn report_csv(report: &JsonValue) -> (r: String)
    requires
        spec_field(report@, "events"@) is Array || spec_field(report@, "arms"@) is Array,
    ensures
        r@ == spec_report_csv(report@),
{
    let events = report.field("events");
    match &events {
        JsonValue::Array(rows) => {
            let ghost ev = match events@ { Json::Array(x) => x, _ => Seq::empty() };
            assert(ev =~= crate::evidence::value_views(rows@));
            startup_csv(rows.as_slice())
        },
        _ => {
            let arms = report.field("arms");
            match &arms {
                JsonValue::Array(items) => {
                    let ghost av = match arms@ { Json::Array(x) => x, _ => Seq::empty() };
                    assert(av =~= crate::evidence::value_views(items@));
                    arms_csv(items.as_slice())
                },
                _ => owned("pair_id,task_id,backend,status,strict_comparable,codex_total_ns,external_response_ns,rate_wait_ns,startup_to_ready_ns,unexplained_ns\n"),
            }
        },
    }
}

/// How the JSON embedded in the HTML page writes one character: `<` and `&`
/// as Unicode escapes, so that the payload cannot close its script element.
pub open spec fn script_char(c: char) -> Seq<char> {
    if c == '<' {
        "\\u003c"@
    } else if c == '&' {
        "\\u0026"@
    } else {
        seq![c]
    }
}

/// The JSON the HTML page embeds for a report.
pub open spec fn spec_script_payload(report: Json) -> Seq<char> {
    crate::text::escape_with(json_text(report), |c: char| script_char(c))
}

/// Writes the JSON the HTML page embeds for a report.
pub fn script_payload(report: &JsonValue) -> (r: String)
    ensures
        r@ == spec_script_payload(report@),
{
    let text = to_json_text(report);
    let chars = crate::text::chars_of(text.as_str());
    let mut out = String::new();
    let mut i: usize = 0;
    while i < chars.len()
        invariant
            i <= chars.len(),
            chars@ == json_text(report@),
            out@ == crate::text::escape_with(chars@.take(i as int), |c: char| script_char(c)),
        decreases chars.len() - i,
    {
        let c = chars[i];
        proof {
            crate::text::lemma_escape_step(chars@, |c: char| script_char(c), i as int);
        }
        let ghost before = out@;
        if c == '<' {
            push_all(&mut out, "\\u003c");
        } else if c == '&' {
            push_all(&mut out, "\\u0026");
        } else {
            push_char(&mut out, c);
            assert(out@ =~= before + seq![c]);
        }
        i += 1;
    }
    assert(chars@.take(chars@.len() as int) =~= chars@);
    out
}

/// How a Markdown table cell writes one character: `|` escaped.
pub open spec fn cell_char(c: char) -> Seq<char> {
    if c == '|' { "\\|"@ } else { seq![c] }
}

/// A text member or `unknown`.
pub open spec fn text_or_unknown(v: Json, name: Seq<char>) -> Seq<char> {
    match spec_as_str(spec_field(v, name)) { Some(s) => s, None => "unknown"@ }
}

/// One line of the Markdown table of statistics.
pub open spec fn md_line(row: Json) -> Seq<char> {
    let stats = spec_field(row, "statistics"@);
    "| "@ + crate::text::escape_with(text_or_unknown(row, "stratum"@), |c: char| cell_char(c)) + " | "@
        + text_or_unknown(row, "metric"@) + " | "@ + json_text(spec_field(stats, "pairs"@)) + " | "@
        + json_text(spec_field(stats, "ratio"@)) + " | "@ + json_text(spec_field(stats, "ratio_ci95"@)) + " |\n"@
}

/// The lines of the first `n` statistics.
pub open spec fn md_lines(rows: Seq<Json>, n: int) -> Seq<char>
    decreases n,
{
    if n <= 0 || n > rows.len() { Seq::empty() } else { md_lines(rows, n - 1) + md_line(rows[n - 1]) }
}

/// The Markdown report: the summary as indented JSON, then a table of the
/// statistics.
pub open spec fn spec_markdown(report: Json) -> Seq<char> {
    "# MBTX execution comparison\n\n```json\n"@ + json_pretty(spec_field(report, "summary"@))
        + "\n```\n\n| Stratum | Metric | Pairs | MBTX/Shell | 95% interval |\n|---|---|---:|---:|---|\n"@
        + match spec_field(report, "statistics"@) { Json::Array(rows) => md_lines(rows, rows.len() as int), _ => Seq::empty() }
}

fn push_cell(out: &mut String, text: &str)
    ensures
        final(out)@ == old(out)@ + crate::text::escape_with(text@, |c: char| cell_char(c)),
{
    let chars = crate::text::chars_of(text);
    let ghost start = out@;
    let mut i: usize = 0;
    while i < chars.len()
        invariant
            i <= chars.len(),
            chars@ == text@,
            out@ == start + crate::text::escape_with(chars@.take(i as int), |c: char| cell_char(c)),
        decreases chars.len() - i,
    {
        let c = chars[i];
        proof {
            crate::text::lemma_escape_step(chars@, |c: char| cell_char(c), i as int);
        }
        let ghost before = out@;
        if c == '|' {
            push_all(out, "\\|");
        } else {
            push_char(out, c);
            assert(out@ =~= before + seq![c]);
        }
        assert(out@ =~= start + crate::text::escape_with(chars@.take(i + 1), |c: char| cell_char(c)));
        i += 1;
    }
    assert(chars@.take(chars@.len() as int) =~= chars@);
}

fn push_or_unknown(out: &mut String, v: &JsonValue, name: &str)
    ensures
        final(out)@ == old(out)@ + text_or_unknown(v@, name@),
{
    match v.field_str(name) {
        Some(s) => push_all(out, s),
        None => push_all(out, "unknown"),
    }
}

fn write_md_line(out: &mut String, row: &JsonValue)
    ensures
        final(out)@ == old(out)@ + md_line(row@),
{
    let stats = row.field("statistics");
    let ghost before = out@;
    push_all(out, "| ");
    match row.field_str("stratum") {
        Some(s) => push_cell(out, s),
        None => push_cell(out, "unknown"),
    }
    push_all(out, " | ");
    push_or_unknown(out, row, "metric");
    push_all(out, " | ");
    push_all(out, to_json_text(&stats.field("pairs")).as_str());
    push_all(out, " | ");
    push_all(out, to_json_text(&stats.field("ratio")).as_str());
    push_all(out, " | ");
    push_all(out, to_json_text(&stats.field("ratio_ci95")).as_str());
    push_all(out, " |\n");
    assert(out@ =~= before + md_line(row@));
}

/// Writes the Markdown report.
pub fn markdown(report: &JsonValue) -> (r: String)
    requires
        spec_field(report@, "statistics"@) is Array,
    ensures
        r@ == spec_markdown(report@),
{
    let mut out = owned("# MBTX execution comparison\n\n```json\n");
    push_all(&mut out, pretty_json_text(&report.field("summary")).as_str());
    push_all(&mut out, "\n```\n\n| Stratum | Metric | Pairs | MBTX/Shell | 95% interval |\n|---|---|---:|---:|---|\n");
    let ghost head = out@;
    let statistics = report.field("statistics");
    match &statistics {
        JsonValue::Array(rows) => {
            let ghost rv = match statistics@ { Json::Array(x) => x, _ => Seq::empty() };
            assert(rv =~= crate::evidence::value_views(rows@));
            let mut i: usize = 0;
            while i < rows.len()
                invariant
                    i <= rows.len(),
                    rv == crate::evidence::value_views(rows@),
                    out@ == head + md_lines(rv, i as int),
                decreases rows.len() - i,
            {
                let row = &rows[i];
                assert(rv[i as int] == row@);
                write_md_line(&mut out, row);
                i += 1;
            }
        },
        _ => {},
    }
    out
}

} // verus!
