//! The parser for JSON Lines files of any other shape: one record per line.
use vstd::prelude::*;
use crate::chars::{is_blank, is_blank_str, str_eq};
use crate::json::{get, get_string, json_get, str_field, Json};
use crate::models::{opt_view, EventView, MessageView, ParseResult, ParseWarning, ParsedMessage, ParsedRawEvent, ParserTarget, WarningView};
use crate::parsers::codex_session_jsonl::{event_views, excerpt_of, invalid_line_warning, warning_views, JsonLine};
use crate::parsers::{clone_opt, deduped, finalize_session, generic_message_from_value, generic_message_of, message_views, or_else, session_of, warning_codes, ParseContext, SeedView, SessionSeed, SourceParser};

verus! {

/// What the lines of a generic JSON Lines file add up to.
pub struct LinesScan {
    pub events: Seq<EventView>,
    pub messages: Seq<MessageView>,
    pub warnings: Seq<WarningView>,
    pub last_ts: Option<Seq<char>>,
}

/// The timestamp of a record: its `timestamp`, `updated_at` or `created_at` string.
pub open spec fn record_ts(value: Json) -> Option<Seq<char>> {
    or_else(or_else(str_field(value, "timestamp"@), str_field(value, "updated_at"@)), str_field(value, "created_at"@))
}

/// One line of a generic JSON Lines file, numbered from one.
pub open spec fn lines_step(st: LinesScan, line_no: int, line: JsonLine) -> LinesScan {
    if is_blank(line.text@) {
        st
    } else {
        match line.parsed {
            Err(e) => LinesScan { warnings: st.warnings.push(invalid_line_warning(line_no, line.text@, e@)), ..st },
            Ok(value) => {
                let ts = record_ts(value);
                let event = EventView {
                    seq: (st.events.len() + 1) as i64,
                    ts,
                    outer_type: match str_field(value, "type"@) {
                        Some(t) => t,
                        None => "jsonl_item"@,
                    },
                    inner_type: match json_get(value, "payload"@) {
                        Some(p) => str_field(p, "type"@),
                        None => None,
                    },
                    payload_json: value.text@,
                    warning_code: None,
                };
                LinesScan {
                    events: st.events.push(event),
                    messages: match generic_message_of(value, ts) {
                        Some(m) => st.messages.push(m),
                        None => st.messages,
                    },
                    warnings: st.warnings,
                    last_ts: if ts is Some {
                        ts
                    } else {
                        st.last_ts
                    },
                }
            },
        }
    }
}

/// All lines of a generic JSON Lines file.
pub open spec fn lines_scan(lines: Seq<JsonLine>) -> LinesScan
    decreases lines.len(),
{
    if lines.len() == 0 {
        LinesScan { events: Seq::empty(), messages: Seq::empty(), warnings: Seq::empty(), last_ts: None }
    } else {
        lines_step(lines_scan(lines.drop_last()), lines.len() as int, lines.last())
    }
}

/// The seed of a file imported by a generic parser: titled after the file, from a manual
/// import, by `originator`.
pub open spec fn generic_seed(title: Option<Seq<char>>, originator: Seq<char>, updated_at: Option<Seq<char>>) -> SeedView {
    SeedView {
        id: None,
        thread_title: title,
        cwd: None,
        originator: Some(originator),
        source: Some("manual"@),
        model_provider: None,
        cli_version: None,
        started_at: None,
        updated_at,
    }
}

/// What `parse_lines` makes of a generic JSON Lines file.
pub open spec fn jsonl_parse_result(lines: Seq<JsonLine>, title: Option<Seq<char>>, ctx: ParseContext, r: ParseResult) -> bool {
    let st = lines_scan(lines);
    let dm = deduped(st.messages);
    &&& r.parser_key@ == "generic_jsonl"@
    &&& r.parser_version@ == "1"@
    &&& event_views(r.events@) == st.events
    &&& message_views(r.messages@) == dm
    &&& warning_views(r.warnings@) == st.warnings
    &&& r.fingerprint@ == ctx.fingerprint@
    &&& r.session matches Some(s) && session_of(
        generic_seed(title, "Generic JSONL Import"@, st.last_ts),
        ctx.fingerprint@,
        ctx.mtime_ms,
        st.events.len() as int,
        dm,
        st.warnings.map_values(|w: WarningView| w.code),
        s@,
    )
}

/// The parser for JSON Lines files of any other shape.
#[derive(Debug)]
pub struct GenericJsonlParser;

/// How well the generic JSON Lines parser fits a file.
pub open spec fn jsonl_support(target: ParserTarget) -> u8 {
    if target.extension@ == "jsonl"@ {
        60
    } else {
        0
    }
}

impl SourceParser for GenericJsonlParser {
    fn key(&self) -> (r: &'static str)
        ensures
            r@ == "generic_jsonl"@,
    {
        "generic_jsonl"
    }

    fn version(&self) -> (r: &'static str)
        ensures
            r@ == "1"@,
    {
        "1"
    }

    fn supports(&self, target: &ParserTarget) -> (score: u8)
        ensures
            score == jsonl_support(*target),
    {
        if str_eq(target.extension.as_str(), "jsonl") {
            60
        } else {
            0
        }
    }
}

/// The timestamp of a record.
pub fn record_timestamp(value: &Json) -> (r: Option<String>)
    ensures
        opt_view(r) == record_ts(*value),
{
    match get_string(value, "timestamp") {
        Some(t) => Some(t),
        None => match get_string(value, "updated_at") {
            Some(t) => Some(t),
            None => get_string(value, "created_at"),
        },
    }
}

impl GenericJsonlParser {
    /// Parses the lines of a JSON Lines file: one raw event and at most one message per record,
    /// a warning per line that is not JSON; the session is titled `title`, the file's stem.
    pub fn parse_lines(&self, title: Option<String>, ctx: &ParseContext, lines: &[JsonLine]) -> (r: ParseResult)
        requires
            lines@.len() < i64::MAX,
        ensures
            jsonl_parse_result(lines@, opt_view(title), *ctx, r),
    {
        let mut events: Vec<ParsedRawEvent> = Vec::new();
        let mut messages: Vec<ParsedMessage> = Vec::new();
        let mut warnings: Vec<ParseWarning> = Vec::new();
        let mut last_ts: Option<String> = None;
        let mut index: usize = 0;
        assert(lines@.take(0) =~= Seq::<JsonLine>::empty());
        assert(event_views(events@) =~= Seq::<EventView>::empty());
        assert(message_views(messages@) =~= Seq::<MessageView>::empty());
        assert(warning_views(warnings@) =~= Seq::<WarningView>::empty());
        while index < lines.len()
            invariant
                index <= lines@.len() < i64::MAX,
                event_views(events@) == lines_scan(lines@.take(index as int)).events,
                message_views(messages@) == lines_scan(lines@.take(index as int)).messages,
                warning_views(warnings@) == lines_scan(lines@.take(index as int)).warnings,
                opt_view(last_ts) == lines_scan(lines@.take(index as int)).last_ts,
                events@.len() <= index,
                messages@.len() <= index,
                warnings@.len() <= index,
            decreases lines.len() - index,
        {
            let line = &lines[index];
            proof {
                let t = lines@.take(index as int + 1);
                assert(t.drop_last() == lines@.take(index as int));
                assert(t.last() == *line);
            }
            if !is_blank_str(line.text.as_str()) {
                match &line.parsed {
                    Err(error) => {
                        let mut message = "无法解析 JSONL 行: ".to_owned();
                        message.append(error.as_str());
                        warnings.push(
                            ParseWarning {
                                severity: "warning".to_owned(),
                                code: "invalid_json_line".to_owned(),
                                message,
                                line_no: Some(index as i64 + 1),
                                raw_excerpt: Some(excerpt_of(line.text.as_str())),
                            },
                        );
                    },
                    Ok(value) => {
                        let timestamp = record_timestamp(value);
                        if timestamp.is_some() {
                            last_ts = clone_opt(&timestamp);
                        }
                        let outer_type = match get_string(value, "type") {
                            Some(t) => t,
                            None => "jsonl_item".to_owned(),
                        };
                        let inner_type = match get(value, "payload") {
                            Some(p) => get_string(p, "type"),
                            None => None,
                        };
                        events.push(
                            ParsedRawEvent {
                                seq: events.len() as i64 + 1,
                                ts: clone_opt(&timestamp),
                                outer_type,
                                inner_type,
                                payload_json: value.text.clone(),
                                warning_code: None,
                            },
                        );
                        match generic_message_from_value(value, timestamp) {
                            Some(m) => messages.push(m),
                            None => {},
                        }
                    },
                }
            }
            index += 1;
        }
        assert(lines@.take(lines@.len() as int) == lines@);
        let seed = SessionSeed {
            id: None,
            thread_title: title,
            cwd: None,
            originator: Some("Generic JSONL Import".to_owned()),
            source: Some("manual".to_owned()),
            model_provider: None,
            cli_version: None,
            started_at: None,
            updated_at: last_ts,
        };
        proof {
            assert(warning_codes(warnings@) == warning_views(warnings@).map_values(|w: WarningView| w.code));
        }
        let session = finalize_session(seed, ctx, events.len(), &mut messages, warnings.as_slice());
        ParseResult {
            parser_key: self.key().to_owned(),
            parser_version: self.version().to_owned(),
            session: Some(session),
            events,
            messages,
            warnings,
            fingerprint: ctx.fingerprint.clone(),
        }
    }
}

} // verus!
