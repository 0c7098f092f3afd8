//! The parser for JSON files: a list of records, or one object.
use vstd::prelude::*;
use crate::chars::str_eq;
use crate::json::{field_text, get, get_string, get_text, json_get, json_items, str_field, Json, JsonKind};
use crate::models::{
    opt_view, EventView, MessageView, ParseResult, ParseWarning, ParsedMessage, ParsedRawEvent,
    ParserTarget, WarningView,
};
use crate::parsers::codex_session_jsonl::{event_views, warning_views};
use crate::parsers::generic_jsonl::generic_seed;
use crate::parsers::{
    clone_opt, deduped, finalize_session, generic_message_from_value, generic_message_of,
    message_views, or_else, session_of, warning_codes, ParseContext, SessionSeed, SourceParser,
};

verus! {

/// The parser for JSON files.
#[derive(Debug)]
pub struct GenericJsonParser;

/// How well the JSON parser fits a file: well for `.json`, a little for anything.
pub open spec fn json_support(target: ParserTarget) -> u8 {
    if target.extension@ == "json"@ {
        70
    } else {
        5
    }
}

impl SourceParser for GenericJsonParser {
    fn key(&self) -> (r: &'static str)
        ensures
            r@ == "generic_json"@,
    {
        "generic_json"
    }

    fn version(&self) -> (r: &'static str)
        ensures
            r@ == "1"@,
    {
        "1"
    }

    fn supports(&self, target: &ParserTarget) -> (score: u8)
        ensures
            score == json_support(*target),
    {
        if str_eq(target.extension.as_str(), "json") {
            70
        } else {
            5
        }
    }
}

/// The timestamp of an item of a top-level array: its `timestamp` or `updated_at` string.
pub open spec fn item_ts(item: Json) -> Option<Seq<char>> {
    or_else(str_field(item, "timestamp"@), str_field(item, "updated_at"@))
}

/// The events of the items of a top-level array.
pub open spec fn array_events(items: Seq<Json>) -> Seq<EventView>
    decreases items.len(),
{
    if items.len() == 0 {
        Seq::empty()
    } else {
        let item = items.last();
        array_events(items.drop_last()).push(
            EventView {
                seq: items.len() as i64,
                ts: item_ts(item),
                outer_type: match str_field(item, "type"@) {
                    Some(t) => t,
                    None => "json_array_item"@,
                },
                inner_type: None,
                payload_json: item.text@,
                warning_code: None,
            },
        )
    }
}

/// The messages of a list of records, each at the timestamp `ts_of` gives it.
pub open spec fn record_messages(items: Seq<Json>, fallback: Option<Seq<char>>, array: bool) -> Seq<MessageView>
    decreases items.len(),
{
    if items.len() == 0 {
        Seq::empty()
    } else {
        let item = items.last();
        let ts = if array {
            item_ts(item)
        } else {
            or_else(str_field(item, "timestamp"@), fallback)
        };
        let prev = record_messages(items.drop_last(), fallback, array);
        match generic_message_of(item, ts) {
            Some(m) => prev.push(m),
            None => prev,
        }
    }
}

/// The event of a top-level object.
pub open spec fn object_event(value: Json) -> EventView {
    EventView {
        seq: 1,
        ts: or_else(str_field(value, "updated_at"@), str_field(value, "timestamp"@)),
        outer_type: match str_field(value, "type"@) {
            Some(t) => t,
            None => "json_object"@,
        },
        inner_type: None,
        payload_json: value.text@,
        warning_code: None,
    }
}

/// The messages of a top-level object: those of its `messages` array, else the object as one
/// message, else its `content` text.
pub open spec fn object_messages(value: Json) -> Seq<MessageView> {
    let ts = object_event(value).ts;
    match json_get(value, "messages"@) {
        Some(m) if m.kind is Array => record_messages(m.kind->Array_0@, str_field(value, "updated_at"@), false),
        _ => match generic_message_of(value, ts) {
            Some(msg) => seq![msg],
            None => match field_text(value, "content"@) {
                Some(text) => seq![
                    MessageView {
                        turn_id: None,
                        role: str_field(value, "role"@),
                        kind: "message"@,
                        text: Some(text),
                        ts,
                        tool_name: None,
                        phase: None,
                        meta_json: value.text@,
                    },
                ],
                None => Seq::empty(),
            },
        },
    }
}

/// The warning for a document that is neither an object nor an array.
pub open spec fn unsupported_shape_warning() -> WarningView {
    WarningView {
        severity: "warning"@,
        code: "unsupported_json_shape"@,
        message: "JSON 顶层不是对象或数组，已按原始事件保存。"@,
        line_no: None,
        raw_excerpt: None,
    }
}

/// The last timestamp among events.
pub open spec fn last_event_ts(es: Seq<EventView>) -> Option<Seq<char>>
    decreases es.len(),
{
    if es.len() == 0 {
        None
    } else {
        match es.last().ts {
            Some(t) => Some(t),
            None => last_event_ts(es.drop_last()),
        }
    }
}

/// The events, messages and warnings of a document, before duplicates are dropped.
pub open spec fn document_parts(value: Json) -> (Seq<EventView>, Seq<MessageView>, Seq<WarningView>) {
    match value.kind {
        JsonKind::Array(items) => (array_events(items@), record_messages(items@, None, true), Seq::<WarningView>::empty()),
        JsonKind::Object(_) => (seq![object_event(value)], object_messages(value), Seq::<WarningView>::empty()),
        _ => (Seq::<EventView>::empty(), Seq::<MessageView>::empty(), seq![unsupported_shape_warning()]),
    }
}

/// What `parse_document` makes of a JSON document.
pub open spec fn json_parse_result(value: Json, title: Option<Seq<char>>, ctx: ParseContext, r: ParseResult) -> bool {
    let (events, messages, warnings) = document_parts(value);
    let dm = deduped(messages);
    &&& r.parser_key@ == "generic_json"@
    &&& r.parser_version@ == "1"@
    &&& event_views(r.events@) == events
    &&& message_views(r.messages@) == dm
    &&& warning_views(r.warnings@) == warnings
    &&& r.fingerprint@ == ctx.fingerprint@
    &&& r.session matches Some(s) && session_of(
        generic_seed(title, "Generic JSON Import"@, last_event_ts(events)),
        ctx.fingerprint@,
        ctx.mtime_ms,
        events.len() as int,
        dm,
        warnings.map_values(|w: WarningView| w.code),
        s@,
    )
}

fn item_timestamp(item: &Json) -> (r: Option<String>)
    ensures
        opt_view(r) == item_ts(*item),
{
    match get_string(item, "timestamp") {
        Some(t) => Some(t),
        None => get_string(item, "updated_at"),
    }
}

fn collect_record_messages(items: &Vec<Json>, fallback: &Option<String>, array: bool, messages: &mut Vec<ParsedMessage>)
    requires
        old(messages)@.len() == 0,
    ensures
        message_views(final(messages)@) == record_messages(items@, opt_view(*fallback), array),
        final(messages)@.len() <= items@.len(),
{
    let mut i: usize = 0;
    assert(message_views(messages@) =~= Seq::<MessageView>::empty());
    while i < items.len()
        invariant
            i <= items@.len(),
            message_views(messages@) == record_messages(items@.take(i as int), opt_view(*fallback), array),
            messages@.len() <= i,
        decreases items.len() - i,
    {
        let item = &items[i];
        proof {
            let t = items@.take(i as int + 1);
            assert(t.drop_last() == items@.take(i as int));
            assert(t.last() == *item);
        }
        let ts = if array {
            item_timestamp(item)
        } else {
            match get_string(item, "timestamp") {
                Some(t) => Some(t),
                None => clone_opt(fallback),
            }
        };
        match generic_message_from_value(item, ts) {
            Some(m) => messages.push(m),
            None => {},
        }
        i += 1;
    }
    assert(items@.take(items@.len() as int) == items@);
}

impl GenericJsonParser {
    /// Parses a JSON document: an array gives one raw event and at most one message per item; an
    /// object gives one raw event and the messages of its `messages` array, or itself as one
    /// message; anything else gives a warning. The session is titled `title`, the file's stem.
    pub fn parse_document(&self, title: Option<String>, ctx: &ParseContext, value: &Json) -> (r: ParseResult)
        requires
            json_items(*value) matches Some(items) ==> items.len() < i64::MAX,
            json_get(*value, "messages"@) matches Some(m) ==> (json_items(m) matches Some(items)
                ==> items.len() < i64::MAX),
        ensures
            json_parse_result(*value, opt_view(title), *ctx, r),
    {
        let mut events: Vec<ParsedRawEvent> = Vec::new();
        let mut messages: Vec<ParsedMessage> = Vec::new();
        let mut warnings: Vec<ParseWarning> = Vec::new();
        match &value.kind {
            JsonKind::Array(items) => {
                let mut i: usize = 0;
                assert(event_views(events@) =~= Seq::<EventView>::empty());
                while i < items.len()
                    invariant
                        i <= items@.len() < i64::MAX,
                        event_views(events@) == array_events(items@.take(i as int)),
                        events@.len() == i,
                    decreases items.len() - i,
                {
                    let item = &items[i];
                    proof {
                        let t = items@.take(i as int + 1);
                        assert(t.drop_last() == items@.take(i as int));
                        assert(t.last() == *item);
                    }
                    let ts = item_timestamp(item);
                    let outer_type = match get_string(item, "type") {
                        Some(t) => t,
                        None => "json_array_item".to_owned(),
                    };
                    events.push(
                        ParsedRawEvent {
                            seq: events.len() as i64 + 1,
                            ts,
                            outer_type,
                            inner_type: None,
                            payload_json: item.text.clone(),
                            warning_code: None,
                        },
                    );
                    i += 1;
                }
                assert(items@.take(items@.len() as int) == items@);
                collect_record_messages(items, &None, true, &mut messages);
            },
            JsonKind::Object(_) => {
                let ts = match get_string(value, "updated_at") {
                    Some(t) => Some(t),
                    None => get_string(value, "timestamp"),
                };
                let outer_type = match get_string(value, "type") {
                    Some(t) => t,
                    None => "json_object".to_owned(),
                };
                events.push(
                    ParsedRawEvent {
                        seq: 1,
                        ts: clone_opt(&ts),
                        outer_type,
                        inner_type: None,
                        payload_json: value.text.clone(),
                        warning_code: None,
                    },
                );
                assert(event_views(events@) =~= seq![object_event(*value)]);
                let listed = match get(value, "messages") {
                    Some(m) => match &m.kind {
                        JsonKind::Array(items) => {
                            let fallback = get_string(value, "updated_at");
                            collect_record_messages(items, &fallback, false, &mut messages);
                            true
                        },
                        _ => false,
                    },
                    None => false,
                };
                if !listed {
                    match generic_message_from_value(value, clone_opt(&ts)) {
                        Some(m) => {
                            messages.push(m);
                        },
                        None => {
                            match get_text(value, "content") {
                                Some(text) => {
                                    messages.push(
                                        ParsedMessage {
                                            turn_id: None,
                                            role: get_string(value, "role"),
                                            kind: "message".to_owned(),
                                            text: Some(text),
                                            ts,
                                            tool_name: None,
                                            phase: None,
                                            meta_json: value.text.clone(),
                                        },
                                    );
                                },
                                None => {},
                            }
                        },
                    }
                }
                assert(message_views(messages@) == object_messages(*value));
            },
            _ => {
                warnings.push(
                    ParseWarning {
                        severity: "warning".to_owned(),
                        code: "unsupported_json_shape".to_owned(),
                        message: "JSON 顶层不是对象或数组，已按原始事件保存。".to_owned(),
                        line_no: None,
                        raw_excerpt: None,
                    },
                );
                assert(warning_views(warnings@) =~= seq![unsupported_shape_warning()]);
            },
        }
        let mut updated_at: Option<String> = None;
        let mut j = events.len();
        assert(event_views(events@).take(event_views(events@).len() as int) == event_views(events@));
        while j > 0 && updated_at.is_none()
            invariant
                j <= events@.len(),
                last_event_ts(event_views(events@)) == match opt_view(updated_at) {
                    Some(t) => Some(t),
                    None => last_event_ts(event_views(events@).take(j as int)),
                },
            decreases j,
        {
            let ghost t = event_views(events@).take(j as int);
            assert(t.drop_last() == event_views(events@).take(j - 1));
            assert(t.last() == events@[j - 1]@);
            updated_at = clone_opt(&events[j - 1].ts);
            j -= 1;
        }
        assert(event_views(events@).take(0) =~= Seq::<EventView>::empty());
        let seed = SessionSeed {
            id: None,
            thread_title: title,
            cwd: None,
            originator: Some("Generic JSON Import".to_owned()),
            source: Some("manual".to_owned()),
            model_provider: None,
            cli_version: None,
            started_at: None,
            updated_at,
        };
        proof {
            assert(warning_codes(warnings@) == warning_views(warnings@).map_values(|w: WarningView| w.code));
        }
        let ghost pre = message_views(messages@);
        let session = finalize_session(seed, ctx, events.len(), &mut messages, warnings.as_slice());
        proof {
            let (ev, ms, ws) = document_parts(*value);
            assert(event_views(events@) == ev);
            assert(pre == ms);
            assert(warning_views(warnings@) == ws);
        }
        ParseResult {
            parser_key: self.key().to_owned(),
            parser_version: self.version().to_owned(),
            session: Some(session),
            events,
            messages,
            warnings,
            fingerprint: ctx.fingerprint.clone(),
        }
    }
}

} // verus!
