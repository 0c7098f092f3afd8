//! The session list as a report: Markdown for reading, CSV for spreadsheets.
use crate::activity::OverviewCounts;
use crate::json::joined;
use crate::models::{opt_view, SessionListResponse, SessionSummary};
use crate::numbers::{decimal, i64_text};
use vstd::prelude::*;

verus! {

/// An optional text, or a default where there is none.
pub open spec fn or_text(o: Option<String>, default: Seq<char>) -> Seq<char> {
    match opt_view(o) {
        Some(t) => t,
        None => default,
    }
}

/// The Markdown line of a session: its title, working directory, turns and duration.
pub open spec fn markdown_line(s: SessionSummary) -> Seq<char> {
    "- "@ + or_text(s.thread_title, "Untitled"@) + " | "@ + or_text(s.cwd, "Unknown cwd"@) + " | "@ + decimal(
        s.turn_count as int,
    ) + " turns | "@ + decimal(s.duration_sec as int) + " sec\n"@
}

/// The Markdown lines of the sessions, in order.
pub open spec fn markdown_lines(items: Seq<SessionSummary>) -> Seq<char>
    decreases items.len(),
{
    if items.len() == 0 {
        Seq::empty()
    } else {
        markdown_lines(items.drop_last()) + markdown_line(items.last())
    }
}

/// The Markdown report of a page of sessions: a title, the total, then one line per session.
pub open spec fn sessions_markdown(r: SessionListResponse) -> Seq<char> {
    "# rescue_codex Sessions\n\n"@ + "Total: "@ + decimal(r.total as int) + "\n\n"@ + markdown_lines(r.items@)
}

fn append_markdown_line(out: &mut String, item: &SessionSummary)
    ensures
        final(out)@ == old(out)@ + markdown_line(*item),
{
    let ghost start = out@;
    let title = match &item.thread_title {
        Some(t) => t.clone(),
        None => "Untitled".to_owned(),
    };
    let cwd = match &item.cwd {
        Some(c) => c.clone(),
        None => "Unknown cwd".to_owned(),
    };
    let turns = i64_text(item.turn_count);
    let secs = i64_text(item.duration_sec);
    let mut line = "- ".to_owned();
    line.append(title.as_str());
    line.append(" | ");
    line.append(cwd.as_str());
    line.append(" | ");
    line.append(turns.as_str());
    line.append(" turns | ");
    line.append(secs.as_str());
    line.append(" sec\n");
    assert(line@ == markdown_line(*item));
    out.append(line.as_str());
}

/// The Markdown report of a page of sessions.
pub fn sessions_to_markdown(response: &SessionListResponse) -> (r: String)
    ensures
        r@ == sessions_markdown(*response),
{
    let mut output = String::new();
    output.append("# rescue_codex Sessions\n\n");
    output.append("Total: ");
    let t = i64_text(response.total);
    output.append(t.as_str());
    output.append("\n\n");
    let ghost head = output@;
    let items = &response.items;
    let mut i: usize = 0;
    while i < items.len()
        invariant
            i <= items@.len(),
            *items == response.items,
            head == "# rescue_codex Sessions\n\n"@ + "Total: "@ + decimal(response.total as int) + "\n\n"@,
            output@ == head + markdown_lines(items@.take(i as int)),
        decreases items.len() - i,
    {
        let item = &items[i];
        append_markdown_line(&mut output, item);
        proof {
            assert(items@.take(i as int + 1).drop_last() == items@.take(i as int));
            assert(items@.take(i as int + 1).last() == *item);
        }
        i += 1;
    }
    assert(items@.take(items@.len() as int) == items@);
    output
}

/// Whether a CSV field must be quoted: it holds a comma, a quote or a line break.
pub open spec fn csv_needs_quotes(f: Seq<char>) -> bool {
    exists|i: int| 0 <= i < f.len() && (f[i] == ',' || f[i] == '"' || f[i] == '\n' || f[i] == '\r')
}

/// A field with each quote doubled.
pub open spec fn doubled_quotes(f: Seq<char>) -> Seq<char>
    decreases f.len(),
{
    if f.len() == 0 {
        Seq::empty()
    } else {
        doubled_quotes(f.drop_last()) + if f.last() == '"' {
            seq!['"', '"']
        } else {
            seq![f.last()]
        }
    }
}

/// A CSV field as the writer puts it: within quotes, its quotes doubled, where it must be
/// quoted; as it is otherwise.
pub open spec fn csv_field(f: Seq<char>) -> Seq<char> {
    if csv_needs_quotes(f) {
        seq!['"'] + doubled_quotes(f) + seq!['"']
    } else {
        f
    }
}

/// A CSV record: its fields separated by commas, then a line feed.
pub open spec fn csv_line(fields: Seq<Seq<char>>) -> Seq<char> {
    joined(fields.map_values(|f: Seq<char>| csv_field(f)), ","@) + "\n"@
}

/// CSV text: each record on its line.
pub open spec fn csv_text(records: Seq<Seq<Seq<char>>>) -> Seq<char>
    decreases records.len(),
{
    if records.len() == 0 {
        Seq::empty()
    } else {
        csv_text(records.drop_last()) + csv_line(records.last())
    }
}

/// The fields of records, as texts.
pub open spec fn record_views(records: Seq<Vec<String>>) -> Seq<Seq<Seq<char>>> {
    records.map_values(|r: Vec<String>| r@.map_values(|f: String| f@))
}

/// `csv::Writer` over a `Vec<u8>` with its default settings, fed one record with
/// `write_record`, then `into_inner` and `String::from_utf8`.
///
/// With at least two fields, the writer puts each field as `csv_field` says (quote style
/// `Necessary`: quotes around a field holding the delimiter, the quote or a line break, quotes
/// doubled), separates fields with commas and ends the record with `\n`; writing into a vector
/// does not fail, and the output of valid text stays valid UTF-8.
#[verifier::external_body]
fn csv_record_line(fields: &Vec<String>) -> (r: Option<String>)
    requires
        fields@.len() >= 2,
    ensures
        r is Some,
        r->Some_0@ == csv_line(fields@.map_values(|f: String| f@)),
{
    let mut writer = csv::Writer::from_writer(Vec::new());
    writer.write_record(fields).ok()?;
    let bytes = writer.into_inner().ok()?;
    String::from_utf8(bytes).ok()
}

/// Records written as CSV text, one line each.
fn csv_encode(records: &Vec<Vec<String>>) -> (r: Option<String>)
    requires
        forall|i: int| 0 <= i < records@.len() ==> (#[trigger] records@[i])@.len() >= 2,
    ensures
        r is Some,
        r->Some_0@ == csv_text(record_views(records@)),
{
    let mut out = String::new();
    let mut i: usize = 0;
    while i < records.len()
        invariant
            i <= records@.len(),
            forall|k: int| 0 <= k < records@.len() ==> (#[trigger] records@[k])@.len() >= 2,
            out@ == csv_text(record_views(records@.take(i as int))),
        decreases records.len() - i,
    {
        let line = match csv_record_line(&records[i]) {
            Some(line) => line,
            None => return None,
        };
        let ghost before = out@;
        out.append(line.as_str());
        proof {
            let rv = record_views(records@.take(i as int + 1));
            assert(rv.drop_last() =~= record_views(records@.take(i as int)));
            assert(rv.last() == records@[i as int]@.map_values(|f: String| f@));
            assert(csv_text(rv) == csv_text(rv.drop_last()) + csv_line(rv.last()));
            assert(out@ == before + line@);
        }
        i += 1;
    }
    assert(records@.take(records@.len() as int) == records@);
    Some(out)
}

/// The column names of the CSV report.
pub open spec fn csv_header() -> Seq<Seq<char>> {
    seq![
        "id"@,
        "thread_title"@,
        "cwd"@,
        "source"@,
        "updated_at"@,
        "started_at"@,
        "duration_sec"@,
        "user_message_count"@,
        "assistant_message_count"@,
        "tool_call_count"@,
        "turn_count"@,
        "warning_count"@,
        "first_user_message"@,
    ]
}

/// The CSV record of a session: its fields in the order of the header, a missing text empty.
pub open spec fn csv_record(s: SessionSummary) -> Seq<Seq<char>> {
    seq![
        s.id@,
        or_text(s.thread_title, Seq::empty()),
        or_text(s.cwd, Seq::empty()),
        or_text(s.source, Seq::empty()),
        or_text(s.updated_at, Seq::empty()),
        or_text(s.started_at, Seq::empty()),
        decimal(s.duration_sec as int),
        decimal(s.user_message_count as int),
        decimal(s.assistant_message_count as int),
        decimal(s.tool_call_count as int),
        decimal(s.turn_count as int),
        decimal(s.warning_count as int),
        or_text(s.first_user_message, Seq::empty()),
    ]
}

/// The records of the CSV report: the header, then one per session.
pub open spec fn csv_records(items: Seq<SessionSummary>) -> Seq<Seq<Seq<char>>> {
    seq![csv_header()] + items.map_values(|s: SessionSummary| csv_record(s))
}

fn text_or_empty(o: &Option<String>) -> (r: String)
    ensures
        r@ == or_text(*o, Seq::empty()),
{
    match o {
        Some(t) => t.clone(),
        None => String::new(),
    }
}

fn session_record(s: &SessionSummary) -> (r: Vec<String>)
    ensures
        r@.map_values(|f: String| f@) == csv_record(*s),
        r@.len() == 13,
{
    let mut r: Vec<String> = Vec::new();
    r.push(s.id.clone());
    r.push(text_or_empty(&s.thread_title));
    r.push(text_or_empty(&s.cwd));
    r.push(text_or_empty(&s.source));
    r.push(text_or_empty(&s.updated_at));
    r.push(text_or_empty(&s.started_at));
    r.push(i64_text(s.duration_sec));
    r.push(i64_text(s.user_message_count));
    r.push(i64_text(s.assistant_message_count));
    r.push(i64_text(s.tool_call_count));
    r.push(i64_text(s.turn_count));
    r.push(i64_text(s.warning_count));
    r.push(text_or_empty(&s.first_user_message));
    assert(r@.map_values(|f: String| f@) =~= csv_record(*s));
    r
}

/// The CSV report of a page of sessions: a header, then one record per session.
pub fn sessions_to_csv(response: &SessionListResponse) -> (r: Option<String>)
    ensures
        r is Some,
        r->Some_0@ == csv_text(csv_records(response.items@)),
{
    let mut records: Vec<Vec<String>> = Vec::new();
    let header = vec![
        "id".to_owned(),
        "thread_title".to_owned(),
        "cwd".to_owned(),
        "source".to_owned(),
        "updated_at".to_owned(),
        "started_at".to_owned(),
        "duration_sec".to_owned(),
        "user_message_count".to_owned(),
        "assistant_message_count".to_owned(),
        "tool_call_count".to_owned(),
        "turn_count".to_owned(),
        "warning_count".to_owned(),
        "first_user_message".to_owned(),
    ];
    assert(header@.map_values(|f: String| f@) =~= csv_header());
    records.push(header);
    let items = &response.items;
    let mut i: usize = 0;
    while i < items.len()
        invariant
            i <= items@.len(),
            *items == response.items,
            record_views(records@) == csv_records(items@.take(i as int)),
            forall|k: int| 0 <= k < records@.len() ==> (#[trigger] records@[k])@.len() == 13,
        decreases items.len() - i,
    {
        let rec = session_record(&items[i]);
        let ghost before = records@;
        records.push(rec);
        proof {
            assert(items@.take(i as int + 1) == items@.take(i as int).push(items@[i as int]));
            assert(record_views(records@) =~= record_views(before).push(csv_record(items@[i as int])));
            assert(csv_records(items@.take(i as int + 1)) =~= csv_records(items@.take(i as int)).push(
                csv_record(items@[i as int]),
            ));
        }
        i += 1;
    }
    assert(items@.take(items@.len() as int) == items@);
    csv_encode(&records)
}

/// The overview figures that are averages, each written with two decimals.
#[derive(Debug)]
pub struct OverviewAverages {
    pub avg_duration_sec: String,
    pub avg_turn_count: String,
    pub avg_first_response_sec: String,
    pub avg_turn_completion_sec: String,
}

/// The Markdown line of a recent session: its title, working directory, turns and tool calls.
pub open spec fn recent_line(s: SessionSummary) -> Seq<char> {
    "- "@ + or_text(s.thread_title, "Untitled"@) + " | "@ + or_text(s.cwd, "Unknown cwd"@) + " | "@ + decimal(
        s.turn_count as int,
    ) + " turns | "@ + decimal(s.tool_call_count as int) + " tools\n"@
}

/// The Markdown lines of the recent sessions, in order.
pub open spec fn recent_lines(items: Seq<SessionSummary>) -> Seq<char>
    decreases items.len(),
{
    if items.len() == 0 {
        Seq::empty()
    } else {
        recent_lines(items.drop_last()) + recent_line(items.last())
    }
}

/// The overview part of the dashboard report in Markdown.
pub open spec fn overview_markdown(c: OverviewCounts, a: OverviewAverages) -> Seq<char> {
    "# rescue_codex Dashboard\n\n"@ + "## Overview\n\n"@ + "- Total sessions: "@ + decimal(c.total_sessions as int)
        + "\n"@ + "- Total questions: "@ + decimal(c.total_questions as int) + "\n"@ + "- Active days: "@ + decimal(
        c.active_days as int,
    ) + "\n"@ + "- Sessions last 7 days: "@ + decimal(c.sessions_last_7_days as int) + "\n"@
        + "- Sessions last 30 days: "@ + decimal(c.sessions_last_30_days as int) + "\n"@ + "- Avg duration (sec): "@
        + a.avg_duration_sec@ + "\n"@ + "- Avg turns: "@ + a.avg_turn_count@ + "\n"@ + "- Tool calls: "@ + decimal(
        c.total_tool_calls as int,
    ) + "\n\n"@ + "- Avg first response (sec): "@ + a.avg_first_response_sec@ + "\n"@
        + "- Avg turn completion (sec): "@ + a.avg_turn_completion_sec@ + "\n\n"@
}

/// The dashboard report in Markdown: the overview, then a line per recent session.
pub open spec fn dashboard_markdown(c: OverviewCounts, a: OverviewAverages, recent: Seq<SessionSummary>) -> Seq<char> {
    overview_markdown(c, a) + "## Recent Sessions\n\n"@ + recent_lines(recent)
}

/// The dashboard report in Markdown.
pub fn dashboard_to_markdown(counts: &OverviewCounts, averages: &OverviewAverages, recent: &[SessionSummary]) -> (r: String)
    ensures
        r@ == dashboard_markdown(*counts, *averages, recent@),
{
    let mut out = String::new();
    out.append("# rescue_codex Dashboard\n\n");
    out.append("## Overview\n\n");
    out.append("- Total sessions: ");
    out.append(i64_text(counts.total_sessions).as_str());
    out.append("\n");
    out.append("- Total questions: ");
    out.append(i64_text(counts.total_questions).as_str());
    out.append("\n");
    out.append("- Active days: ");
    out.append(i64_text(counts.active_days).as_str());
    out.append("\n");
    out.append("- Sessions last 7 days: ");
    out.append(i64_text(counts.sessions_last_7_days).as_str());
    out.append("\n");
    out.append("- Sessions last 30 days: ");
    out.append(i64_text(counts.sessions_last_30_days).as_str());
    out.append("\n");
    out.append("- Avg duration (sec): ");
    out.append(averages.avg_duration_sec.as_str());
    out.append("\n");
    out.append("- Avg turns: ");
    out.append(averages.avg_turn_count.as_str());
    out.append("\n");
    out.append("- Tool calls: ");
    out.append(i64_text(counts.total_tool_calls).as_str());
    out.append("\n\n");
    out.append("- Avg first response (sec): ");
    out.append(averages.avg_first_response_sec.as_str());
    out.append("\n");
    out.append("- Avg turn completion (sec): ");
    out.append(averages.avg_turn_completion_sec.as_str());
    out.append("\n\n");
    assert(out@ == overview_markdown(*counts, *averages));
    out.append("## Recent Sessions\n\n");
    let ghost head = out@;
    let mut i: usize = 0;
    while i < recent.len()
        invariant
            i <= recent@.len(),
            head == overview_markdown(*counts, *averages) + "## Recent Sessions\n\n"@,
            out@ == head + recent_lines(recent@.take(i as int)),
        decreases recent.len() - i,
    {
        let item = &recent[i];
        let title = match &item.thread_title {
            Some(t) => t.clone(),
            None => "Untitled".to_owned(),
        };
        let cwd = match &item.cwd {
            Some(c) => c.clone(),
            None => "Unknown cwd".to_owned(),
        };
        let mut line = "- ".to_owned();
        line.append(title.as_str());
        line.append(" | ");
        line.append(cwd.as_str());
        line.append(" | ");
        line.append(i64_text(item.turn_count).as_str());
        line.append(" turns | ");
        line.append(i64_text(item.tool_call_count).as_str());
        line.append(" tools\n");
        assert(line@ == recent_line(*item));
        out.append(line.as_str());
        proof {
            assert(recent@.take(i as int + 1).drop_last() == recent@.take(i as int));
        }
        i += 1;
    }
    assert(recent@.take(recent@.len() as int) == recent@);
    out
}

/// The dashboard report in CSV: a `metric,value` header and a row per overview figure, the
/// rows separated by line feeds.
pub open spec fn dashboard_csv(c: OverviewCounts, a: OverviewAverages) -> Seq<char> {
    "metric,value\n"@ + "total_sessions,"@ + decimal(c.total_sessions as int) + "\n"@ + "total_questions,"@ + decimal(
        c.total_questions as int,
    ) + "\n"@ + "active_days,"@ + decimal(c.active_days as int) + "\n"@ + "sessions_last_7_days,"@ + decimal(
        c.sessions_last_7_days as int,
    ) + "\n"@ + "sessions_last_30_days,"@ + decimal(c.sessions_last_30_days as int) + "\n"@ + "avg_duration_sec,"@
        + a.avg_duration_sec@ + "\n"@ + "avg_turn_count,"@ + a.avg_turn_count@ + "\n"@ + "total_tool_calls,"@ + decimal(
        c.total_tool_calls as int,
    ) + "\n"@ + "avg_first_response_sec,"@ + a.avg_first_response_sec@ + "\n"@ + "avg_turn_completion_sec,"@
        + a.avg_turn_completion_sec@
}

/// The dashboard report in CSV.
pub fn dashboard_to_csv(counts: &OverviewCounts, averages: &OverviewAverages) -> (r: String)
    ensures
        r@ == dashboard_csv(*counts, *averages),
{
    let mut out = "metric,value\n".to_owned();
    out.append("total_sessions,");
    out.append(i64_text(counts.total_sessions).as_str());
    out.append("\ntotal_questions,");
    out.append(i64_text(counts.total_questions).as_str());
    out.append("\nactive_days,");
    out.append(i64_text(counts.active_days).as_str());
    out.append("\nsessions_last_7_days,");
    out.append(i64_text(counts.sessions_last_7_days).as_str());
    out.append("\nsessions_last_30_days,");
    out.append(i64_text(counts.sessions_last_30_days).as_str());
    out.append("\navg_duration_sec,");
    out.append(averages.avg_duration_sec.as_str());
    out.append("\navg_turn_count,");
    out.append(averages.avg_turn_count.as_str());
    out.append("\ntotal_tool_calls,");
    out.append(i64_text(counts.total_tool_calls).as_str());
    out.append("\navg_first_response_sec,");
    out.append(averages.avg_first_response_sec.as_str());
    out.append("\navg_turn_completion_sec,");
    out.append(averages.avg_turn_completion_sec.as_str());
    proof {
        reveal_strlit("\ntotal_questions,");
        reveal_strlit("\nactive_days,");
        reveal_strlit("\nsessions_last_7_days,");
        reveal_strlit("\nsessions_last_30_days,");
        reveal_strlit("\navg_duration_sec,");
        reveal_strlit("\navg_turn_count,");
        reveal_strlit("\ntotal_tool_calls,");
        reveal_strlit("\navg_first_response_sec,");
        reveal_strlit("\navg_turn_completion_sec,");
        reveal_strlit("\n");
        reveal_strlit("total_questions,");
        reveal_strlit("active_days,");
        reveal_strlit("sessions_last_7_days,");
        reveal_strlit("sessions_last_30_days,");
        reveal_strlit("avg_duration_sec,");
        reveal_strlit("avg_turn_count,");
        reveal_strlit("total_tool_calls,");
        reveal_strlit("avg_first_response_sec,");
        reveal_strlit("avg_turn_completion_sec,");
    }
    out
}

} // verus!
