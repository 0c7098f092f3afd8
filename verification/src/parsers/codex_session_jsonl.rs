//! The parser for Codex session logs: one JSON event per line.
use vstd::prelude::*;
use crate::chars::{chars_of, contains, contains_str, copy_range, is_blank, is_blank_str, starts_with, starts_with_str, str_eq, string_from_chars, trim_bounds, trim_start};
use crate::json::{field_text, get, get_string, get_text, json_get, str_field, Json, JsonKind};
use crate::models::{opt_view, EventView, MessageView, ParseResult, ParseWarning, ParsedMessage, ParsedRawEvent, ParserTarget, SessionView, WarningView};
use crate::parsers::{clone_opt, deduped, finalized_turn_count, finalize_session, message_views, session_of, warning_codes, ParseContext, SeedView, SessionIndex, SessionSeed, SourceParser};

verus! {

/// A line of a JSON Lines file with what serde_json made of it: the value, or the text of
/// its error.
#[derive(Debug)]
pub struct JsonLine {
    pub text: String,
    pub parsed: Result<Json, String>,
}

/// `v.get(key).and_then(Value::as_str)` on an optional value.
pub open spec fn opt_str_field(v: Option<Json>, key: Seq<char>) -> Option<Seq<char>> {
    match v {
        Some(j) => str_field(j, key),
        None => None,
    }
}

/// The opening tags of the context that Codex injects into a conversation.
pub open spec fn is_scaffold(text: Seq<char>) -> bool {
    let t = trim_start(text);
    ||| starts_with(t, "<environment_context>"@)
    ||| starts_with(t, "<environment_context"@)
    ||| starts_with(t, "<permissions instructions>"@)
    ||| starts_with(t, "<permissions instructions"@)
    ||| starts_with(t, "<app-context>"@)
    ||| starts_with(t, "<app-context"@)
    ||| starts_with(t, "<collaboration_mode>"@)
    ||| starts_with(t, "<collaboration_mode"@)
    ||| starts_with(t, "<skills_instructions>"@)
    ||| starts_with(t, "<skills_instructions"@)
    ||| starts_with(t, "<plugins_instructions>"@)
    ||| starts_with(t, "<plugins_instructions"@)
}

/// Whether a text is context that Codex injected rather than something a person wrote.
pub fn is_internal_scaffold_message(text: &str) -> (b: bool)
    ensures
        b == is_scaffold(text@),
{
    let v = chars_of(text);
    let (a, _) = trim_bounds(v.as_slice());
    let t = copy_range(v.as_slice(), a, v.len());
    assert(t@ == trim_start(text@));
    let t = t.as_slice();
    starts_with_str(t, "<environment_context>") || starts_with_str(t, "<environment_context")
        || starts_with_str(t, "<permissions instructions>") || starts_with_str(
        t,
        "<permissions instructions",
    ) || starts_with_str(t, "<app-context>") || starts_with_str(t, "<app-context")
        || starts_with_str(t, "<collaboration_mode>") || starts_with_str(t, "<collaboration_mode")
        || starts_with_str(t, "<skills_instructions>") || starts_with_str(
        t,
        "<skills_instructions",
    ) || starts_with_str(t, "<plugins_instructions>") || starts_with_str(
        t,
        "<plugins_instructions",
    )
}

/// The message of a `response_item` of type `message`: none for developer and system
/// messages, nor for injected context.
pub open spec fn response_message_of(payload: Json, ts: Option<Seq<char>>) -> Option<MessageView> {
    match str_field(payload, "role"@) {
        None => None,
        Some(role) => if role == "developer"@ || role == "system"@ {
            None
        } else {
            let text = field_text(payload, "content"@);
            if text matches Some(t) && is_scaffold(t) {
                None
            } else {
                Some(
                    MessageView {
                        turn_id: str_field(payload, "turn_id"@),
                        role: Some(role),
                        kind: "message"@,
                        text,
                        ts,
                        tool_name: None,
                        phase: str_field(payload, "phase"@),
                        meta_json: payload.text@,
                    },
                )
            }
        },
    }
}

/// The message that a Codex event carries, if any.
pub open spec fn codex_message_of(outer: Seq<char>, payload: Option<Json>, ts: Option<Seq<char>>) -> Option<
    MessageView,
> {
    let inner = opt_str_field(payload, "type"@);
    let turn = opt_str_field(payload, "turn_id"@);
    match payload {
        None => None,
        Some(p) => if outer == "event_msg"@ {
            if inner == Some("user_message"@) {
                Some(
                    MessageView {
                        turn_id: turn,
                        role: Some("user"@),
                        kind: "message"@,
                        text: field_text(p, "message"@),
                        ts,
                        tool_name: None,
                        phase: None,
                        meta_json: p.text@,
                    },
                )
            } else if inner == Some("agent_message"@) {
                Some(
                    MessageView {
                        turn_id: turn,
                        role: Some("assistant"@),
                        kind: "message"@,
                        text: field_text(p, "message"@),
                        ts,
                        tool_name: None,
                        phase: str_field(p, "phase"@),
                        meta_json: p.text@,
                    },
                )
            } else {
                None
            }
        } else if outer == "response_item"@ {
            if inner == Some("message"@) {
                response_message_of(p, ts)
            } else if inner == Some("function_call"@) || inner == Some("custom_tool_call"@) {
                Some(
                    MessageView {
                        turn_id: turn,
                        role: Some("assistant"@),
                        kind: "tool_call"@,
                        text: str_field(p, "arguments"@),
                        ts,
                        tool_name: str_field(p, "name"@),
                        phase: None,
                        meta_json: p.text@,
                    },
                )
            } else if inner == Some("function_call_output"@) || inner == Some(
                "custom_tool_call_output"@,
            ) {
                Some(
                    MessageView {
                        turn_id: turn,
                        role: Some("tool"@),
                        kind: "tool_result"@,
                        text: match field_text(p, "output"@) {
                            Some(t) => Some(t),
                            None => field_text(p, "content"@),
                        },
                        ts,
                        tool_name: str_field(p, "name"@),
                        phase: None,
                        meta_json: p.text@,
                    },
                )
            } else {
                None
            }
        } else {
            None
        },
    }
}

/// Whether an optional string is present and equal to `name`.
pub fn opt_is(o: &Option<String>, name: &str) -> (b: bool)
    ensures
        b == (opt_view(*o) == Some(name@)),
{
    match o {
        Some(i) => str_eq(i.as_str(), name),
        None => false,
    }
}

fn owned_message(
    turn_id: Option<String>,
    role: &str,
    kind: &str,
    text: Option<String>,
    ts: Option<String>,
    tool_name: Option<String>,
    phase: Option<String>,
    payload: &Json,
) -> (m: ParsedMessage)
    ensures
        m@ == (MessageView {
            turn_id: opt_view(turn_id),
            role: Some(role@),
            kind: kind@,
            text: opt_view(text),
            ts: opt_view(ts),
            tool_name: opt_view(tool_name),
            phase: opt_view(phase),
            meta_json: payload.text@,
        }),
{
    ParsedMessage {
        turn_id,
        role: Some(role.to_owned()),
        kind: kind.to_owned(),
        text,
        ts,
        tool_name,
        phase,
        meta_json: payload.text.clone(),
    }
}

/// The message of a `response_item` of type `message`.
pub fn extract_response_message(payload: &Json, timestamp: Option<String>) -> (r: Option<ParsedMessage>)
    ensures
        match r {
            Some(m) => response_message_of(*payload, opt_view(timestamp)) == Some(m@),
            None => response_message_of(*payload, opt_view(timestamp)) is None,
        },
{
    let role = match get_string(payload, "role") {
        Some(role) => role,
        None => return None,
    };
    if str_eq(role.as_str(), "developer") || str_eq(role.as_str(), "system") {
        return None;
    }
    let text = get_text(payload, "content");
    match &text {
        Some(t) => {
            if is_internal_scaffold_message(t.as_str()) {
                return None;
            }
        },
        None => {},
    }
    let turn_id = get_string(payload, "turn_id");
    let phase = get_string(payload, "phase");
    Some(owned_message(turn_id, role.as_str(), "message", text, timestamp, None, phase, payload))
}

/// A tool call of either kind, a function call or a custom tool call such as `apply_patch`,
/// is recorded as the same kind of message: from the assistant, a `tool_call` under the name
/// the payload gives, with the payload's arguments, turn and time; so custom tool calls count
/// among a session's tool calls like function calls do.
pub proof fn lemma_tool_calls_recorded(p: Json, ts: Option<Seq<char>>)
    requires
        str_field(p, "type"@) == Some("function_call"@) || str_field(p, "type"@) == Some("custom_tool_call"@),
    ensures
        codex_message_of("response_item"@, Some(p), ts) matches Some(m) && m.role == Some("assistant"@)
            && m.kind == "tool_call"@ && m.tool_name == str_field(p, "name"@) && m.text == str_field(
            p,
            "arguments"@,
        ) && m.turn_id == str_field(p, "turn_id"@) && m.ts == ts,
{
    reveal_strlit("response_item");
    reveal_strlit("event_msg");
    reveal_strlit("message");
    reveal_strlit("function_call");
    reveal_strlit("custom_tool_call");
    assert("response_item"@.len() != "event_msg"@.len());
    assert("function_call"@.len() != "message"@.len());
    assert("custom_tool_call"@.len() != "message"@.len());
}

/// The result of a tool call of either kind is recorded as a `tool_result` message from the
/// tool; a user message of the event stream as a message from the user and an agent message
/// as one from the assistant; other event messages carry no message.
pub proof fn lemma_event_messages_recorded(p: Json, ts: Option<Seq<char>>)
    ensures
        str_field(p, "type"@) == Some("function_call_output"@) || str_field(p, "type"@) == Some(
            "custom_tool_call_output"@,
        ) ==> (codex_message_of("response_item"@, Some(p), ts) matches Some(m) && m.role == Some("tool"@)
            && m.kind == "tool_result"@ && m.ts == ts),
        str_field(p, "type"@) == Some("user_message"@) ==> (codex_message_of("event_msg"@, Some(p), ts) matches Some(
            m,
        ) && m.role == Some("user"@) && m.kind == "message"@ && m.text == field_text(p, "message"@) && m.ts == ts),
        str_field(p, "type"@) == Some("agent_message"@) ==> (codex_message_of("event_msg"@, Some(p), ts) matches Some(
            m,
        ) && m.role == Some("assistant"@) && m.kind == "message"@ && m.text == field_text(p, "message"@)
            && m.ts == ts),
        str_field(p, "type"@) != Some("user_message"@) && str_field(p, "type"@) != Some("agent_message"@)
            ==> codex_message_of("event_msg"@, Some(p), ts) is None,
{
    reveal_strlit("response_item");
    reveal_strlit("event_msg");
    reveal_strlit("message");
    reveal_strlit("function_call");
    reveal_strlit("custom_tool_call");
    reveal_strlit("function_call_output");
    reveal_strlit("custom_tool_call_output");
    reveal_strlit("user_message");
    reveal_strlit("agent_message");
    assert("response_item"@.len() != "event_msg"@.len());
    assert("function_call_output"@.len() != "message"@.len());
    assert("custom_tool_call_output"@.len() != "message"@.len());
    assert("function_call_output"@.len() != "function_call"@.len());
    assert("function_call_output"@.len() != "custom_tool_call"@.len());
    assert("custom_tool_call_output"@.len() != "function_call"@.len());
    assert("custom_tool_call_output"@.len() != "custom_tool_call"@.len());
    assert("user_message"@.len() != "agent_message"@.len());
}

/// The message that a Codex event carries, if any: user and agent messages, visible response
/// messages, tool calls and tool results.
pub fn extract_codex_message(outer_type: &str, payload: &Json, timestamp: Option<String>) -> (r:
    Option<ParsedMessage>)
    ensures
        match r {
            Some(m) => codex_message_of(outer_type@, Some(*payload), opt_view(timestamp)) == Some(m@),
            None => codex_message_of(outer_type@, Some(*payload), opt_view(timestamp)) is None,
        },
{
    let inner = get_string(payload, "type");
    if str_eq(outer_type, "event_msg") {
        if opt_is(&inner, "user_message") {
            let turn_id = get_string(payload, "turn_id");
            let text = get_text(payload, "message");
            Some(owned_message(turn_id, "user", "message", text, timestamp, None, None, payload))
        } else if opt_is(&inner, "agent_message") {
            let turn_id = get_string(payload, "turn_id");
            let text = get_text(payload, "message");
            let phase = get_string(payload, "phase");
            Some(owned_message(turn_id, "assistant", "message", text, timestamp, None, phase, payload))
        } else {
            None
        }
    } else if str_eq(outer_type, "response_item") {
        if opt_is(&inner, "message") {
            extract_response_message(payload, timestamp)
        } else if opt_is(&inner, "function_call") || opt_is(&inner, "custom_tool_call") {
            let turn_id = get_string(payload, "turn_id");
            let text = get_string(payload, "arguments");
            let name = get_string(payload, "name");
            Some(owned_message(turn_id, "assistant", "tool_call", text, timestamp, name, None, payload))
        } else if opt_is(&inner, "function_call_output") || opt_is(&inner, "custom_tool_call_output") {
            let turn_id = get_string(payload, "turn_id");
            let text = match get_text(payload, "output") {
                Some(t) => Some(t),
                None => get_text(payload, "content"),
            };
            let name = get_string(payload, "name");
            Some(owned_message(turn_id, "tool", "tool_result", text, timestamp, name, None, payload))
        } else {
            None
        }
    } else {
        None
    }
}

/// What the lines of a Codex session log add up to.
pub struct CodexScan {
    pub events: Seq<EventView>,
    pub messages: Seq<MessageView>,
    pub warnings: Seq<WarningView>,
    pub turns: Seq<Seq<char>>,
    pub seed: SeedView,
    pub last_ts: Option<Seq<char>>,
}

/// The seed before any line.
pub open spec fn empty_seed() -> SeedView {
    SeedView {
        id: None,
        thread_title: None,
        cwd: None,
        originator: None,
        source: None,
        model_provider: None,
        cli_version: None,
        started_at: None,
        updated_at: None,
    }
}

/// The seed after a `session_meta` payload: identity, directory and start from the payload,
/// with thread title and update time filled in from the session index where still missing.
pub open spec fn ingested(seed: SeedView, payload: Option<Json>, index: SessionIndex) -> SeedView {
    let id = opt_str_field(payload, "id"@);
    let title = seed.thread_title;
    let updated = seed.updated_at;
    let entry = match id {
        Some(i) => index.entry(i),
        None => None,
    };
    SeedView {
        id,
        cwd: opt_str_field(payload, "cwd"@),
        originator: opt_str_field(payload, "originator"@),
        source: opt_str_field(payload, "source"@),
        model_provider: opt_str_field(payload, "model_provider"@),
        cli_version: opt_str_field(payload, "cli_version"@),
        started_at: opt_str_field(payload, "timestamp"@),
        thread_title: match entry {
            Some(e) => if title is None {
                e@.thread_name
            } else {
                title
            },
            None => title,
        },
        updated_at: match entry {
            Some(e) => if updated is None {
                e@.updated_at
            } else {
                updated
            },
            None => updated,
        },
    }
}

/// The first 240 characters of a line.
pub open spec fn excerpt(s: Seq<char>) -> Seq<char> {
    s.take(if s.len() < 240 { s.len() as int } else { 240 })
}

/// The warning for a line that is not JSON.
pub open spec fn invalid_line_warning(line_no: int, text: Seq<char>, error: Seq<char>) -> WarningView {
    WarningView {
        severity: "warning"@,
        code: "invalid_json_line"@,
        message: "无法解析 JSONL 行: "@ + error,
        line_no: Some(line_no as i64),
        raw_excerpt: Some(excerpt(text)),
    }
}

/// One line of a Codex log, numbered from one.
pub open spec fn codex_step(st: CodexScan, line_no: int, line: JsonLine, index: SessionIndex) -> CodexScan {
    if is_blank(line.text@) {
        st
    } else {
        match line.parsed {
            Err(e) => CodexScan { warnings: st.warnings.push(invalid_line_warning(line_no, line.text@, e@)), ..st },
            Ok(value) => {
                let ts = str_field(value, "timestamp"@);
                let outer = match str_field(value, "type"@) {
                    Some(t) => t,
                    None => "unknown"@,
                };
                let payload = json_get(value, "payload"@);
                let inner = opt_str_field(payload, "type"@);
                let event = EventView {
                    seq: (st.events.len() + 1) as i64,
                    ts,
                    outer_type: outer,
                    inner_type: inner,
                    payload_json: match payload {
                        Some(p) => p.text@,
                        None => "null"@,
                    },
                    warning_code: None,
                };
                let turns = match opt_str_field(payload, "turn_id"@) {
                    Some(t) => if st.turns.contains(t) {
                        st.turns
                    } else {
                        st.turns.push(t)
                    },
                    None => st.turns,
                };
                let seed1 = if outer == "session_meta"@ {
                    ingested(st.seed, payload, index)
                } else {
                    st.seed
                };
                let seed2 = if outer == "event_msg"@ && inner == Some("thread_name_updated"@) {
                    SeedView {
                        thread_title: opt_str_field(payload, "thread_name"@),
                        updated_at: if seed1.updated_at is None {
                            ts
                        } else {
                            seed1.updated_at
                        },
                        ..seed1
                    }
                } else {
                    seed1
                };
                let messages = match codex_message_of(outer, payload, ts) {
                    Some(m) => st.messages.push(m),
                    None => st.messages,
                };
                CodexScan {
                    events: st.events.push(event),
                    messages,
                    warnings: st.warnings,
                    turns,
                    seed: seed2,
                    last_ts: if ts is Some {
                        ts
                    } else {
                        st.last_ts
                    },
                }
            },
        }
    }
}

/// All lines of a Codex log.
pub open spec fn codex_scan(lines: Seq<JsonLine>, index: SessionIndex) -> CodexScan
    decreases lines.len(),
{
    if lines.len() == 0 {
        CodexScan {
            events: Seq::empty(),
            messages: Seq::empty(),
            warnings: Seq::empty(),
            turns: Seq::empty(),
            seed: empty_seed(),
            last_ts: None,
        }
    } else {
        codex_step(codex_scan(lines.drop_last(), index), lines.len() as int, lines.last(), index)
    }
}

/// The warning for a log without a `session_meta` id.
pub open spec fn missing_id_warning() -> WarningView {
    WarningView {
        severity: "warning"@,
        code: "missing_session_id"@,
        message: "未发现 session_meta.payload.id，已回退到 synthetic id"@,
        line_no: None,
        raw_excerpt: None,
    }
}

/// The views of a list of events.
pub open spec fn event_views(es: Seq<ParsedRawEvent>) -> Seq<EventView> {
    es.map_values(|e: ParsedRawEvent| e@)
}

/// The views of a list of warnings.
pub open spec fn warning_views(ws: Seq<ParseWarning>) -> Seq<WarningView> {
    ws.map_values(|w: ParseWarning| w@)
}

/// What `parse_lines` makes of a Codex log: its events, its warnings, its messages without
/// repeats, and the session, whose turn count is the number of distinct turn ids in the
/// payloads where there is any.
pub open spec fn codex_parse_result(lines: Seq<JsonLine>, ctx: ParseContext, r: ParseResult) -> bool {
    let st = codex_scan(lines, *ctx.session_index);
    let seed = SeedView {
        updated_at: if st.seed.updated_at is None {
            st.last_ts
        } else {
            st.seed.updated_at
        },
        ..st.seed
    };
    let warnings = if seed.id is None {
        st.warnings.push(missing_id_warning())
    } else {
        st.warnings
    };
    let dm = deduped(st.messages);
    &&& r.parser_key@ == "codex_session_jsonl"@
    &&& r.parser_version@ == "2"@
    &&& event_views(r.events@) == st.events
    &&& message_views(r.messages@) == dm
    &&& warning_views(r.warnings@) == warnings
    &&& r.fingerprint@ == ctx.fingerprint@
    &&& r.session matches Some(s) && session_of(
        seed,
        ctx.fingerprint@,
        ctx.mtime_ms,
        st.events.len() as int,
        dm,
        warnings.map_values(|w: WarningView| w.code),
        SessionView { turn_count: finalized_turn_count(dm) as i64, ..s@ },
    ) && s@.turn_count == if st.turns.len() == 0 {
        finalized_turn_count(dm)
    } else {
        st.turns.len() as int
    }
}

/// Records what a `session_meta` payload says of the session.
pub fn ingest_session_meta(seed: &mut SessionSeed, payload: &Json, session_index: &SessionIndex)
    ensures
        final(seed)@ == ingested(old(seed)@, Some(*payload), *session_index),
{
    seed.id = get_string(payload, "id");
    seed.cwd = get_string(payload, "cwd");
    seed.originator = get_string(payload, "originator");
    seed.source = get_string(payload, "source");
    seed.model_provider = get_string(payload, "model_provider");
    seed.cli_version = get_string(payload, "cli_version");
    seed.started_at = get_string(payload, "timestamp");
    let id = clone_opt(&seed.id);
    match id {
        Some(id) => match session_index.get(id.as_str()) {
            Some(entry) => {
                if seed.thread_title.is_none() {
                    seed.thread_title = clone_opt(&entry.thread_name);
                }
                if seed.updated_at.is_none() {
                    seed.updated_at = clone_opt(&entry.updated_at);
                }
            },
            None => {},
        },
        None => {},
    }
}

/// The views of the parser's state match a scan.
pub open spec fn scan_matches(
    events: Seq<ParsedRawEvent>,
    messages: Seq<ParsedMessage>,
    warnings: Seq<ParseWarning>,
    turns: Seq<String>,
    seed: SeedView,
    last_ts: Option<String>,
    st: CodexScan,
) -> bool {
    &&& event_views(events) == st.events
    &&& message_views(messages) == st.messages
    &&& warning_views(warnings) == st.warnings
    &&& turns.map_values(|t: String| t@) == st.turns
    &&& seed == st.seed
    &&& opt_view(last_ts) == st.last_ts
}

/// The first 240 characters of a line.
pub fn excerpt_of(text: &str) -> (r: String)
    ensures
        r@ == excerpt(text@),
{
    let v = chars_of(text);
    let n = if v.len() < 240 {
        v.len()
    } else {
        240
    };
    let t = copy_range(v.as_slice(), 0, n);
    string_from_chars(t.as_slice())
}

fn contains_string(items: &Vec<String>, item: &str) -> (b: bool)
    ensures
        b == items@.map_values(|t: String| t@).contains(item@),
{
    let ghost views = items@.map_values(|t: String| t@);
    let mut i: usize = 0;
    while i < items.len()
        invariant
            i <= items@.len(),
            views == items@.map_values(|t: String| t@),
            forall|j: int| 0 <= j < i ==> views[j] != item@,
        decreases items.len() - i,
    {
        if str_eq(items[i].as_str(), item) {
            assert(views[i as int] == item@);
            return true;
        }
        i += 1;
    }
    false
}

/// Scans the lines of a Codex session log.
pub fn scan_codex_lines(
    lines: &[JsonLine],
    session_index: &SessionIndex,
    events: &mut Vec<ParsedRawEvent>,
    messages: &mut Vec<ParsedMessage>,
    warnings: &mut Vec<ParseWarning>,
    turns: &mut Vec<String>,
    seed: &mut SessionSeed,
) -> (last_ts: Option<String>)
    requires
        lines@.len() < i64::MAX,
        old(events)@.len() == 0,
        old(messages)@.len() == 0,
        old(warnings)@.len() == 0,
        old(turns)@.len() == 0,
        old(seed)@ == empty_seed(),
    ensures
        scan_matches(final(events)@, final(messages)@, final(warnings)@, final(turns)@, final(seed)@, last_ts, codex_scan(lines@, *session_index)),
        final(events)@.len() <= lines@.len(),
        final(messages)@.len() <= lines@.len(),
        final(warnings)@.len() <= lines@.len(),
        final(turns)@.len() <= lines@.len(),
{
    let null = Json { kind: JsonKind::Null, text: "null".to_owned() };
    let mut last_ts: Option<String> = None;
    let mut index: usize = 0;
    assert(lines@.take(0) =~= Seq::<JsonLine>::empty());
    assert(turns@.map_values(|t: String| t@) =~= Seq::<Seq<char>>::empty());
    assert(event_views(events@) =~= Seq::<EventView>::empty());
    assert(message_views(messages@) =~= Seq::<MessageView>::empty());
    assert(warning_views(warnings@) =~= Seq::<WarningView>::empty());
    while index < lines.len()
        invariant
            index <= lines@.len() < i64::MAX,
            null.kind is Null,
            null.text@ == "null"@,
            scan_matches(events@, messages@, warnings@, turns@, seed@, last_ts, codex_scan(lines@.take(index as int), *session_index)),
            events@.len() <= index,
            messages@.len() <= index,
            warnings@.len() <= index,
            turns@.len() <= index,
        decreases lines.len() - index,
    {
        let line = &lines[index];
        let ghost st = codex_scan(lines@.take(index as int), *session_index);
        proof {
            let t = lines@.take(index as int + 1);
            assert(t.drop_last() == lines@.take(index as int));
            assert(t.last() == *line);
        }
        if !is_blank_str(line.text.as_str()) {
            match &line.parsed {
                Err(error) => {
                    let mut message = "无法解析 JSONL 行: ".to_owned();
                    message.append(error.as_str());
                    let w = ParseWarning {
                        severity: "warning".to_owned(),
                        code: "invalid_json_line".to_owned(),
                        message,
                        line_no: Some(index as i64 + 1),
                        raw_excerpt: Some(excerpt_of(line.text.as_str())),
                    };
                    warnings.push(w);
                    proof {
                        assert(warning_views(warnings@) == st.warnings.push(invalid_line_warning(index as int + 1, line.text@, error@)));
                    }
                },
                Ok(value) => {
                    let timestamp = get_string(value, "timestamp");
                    if timestamp.is_some() {
                        last_ts = clone_opt(&timestamp);
                    }
                    let outer_type = match get_string(value, "type") {
                        Some(t) => t,
                        None => "unknown".to_owned(),
                    };
                    let found = get(value, "payload");
                    let payload: &Json = match found {
                        Some(p) => p,
                        None => &null,
                    };
                    let ghost popt = json_get(*value, "payload"@);
                    proof {
                        if popt is None {
                            assert(opt_str_field(Some(*payload), "type"@) == opt_str_field(popt, "type"@));
                        }
                    }
                    let inner_type = get_string(payload, "type");
                    let event = ParsedRawEvent {
                        seq: events.len() as i64 + 1,
                        ts: clone_opt(&timestamp),
                        outer_type: outer_type.clone(),
                        inner_type: clone_opt(&inner_type),
                        payload_json: payload.text.clone(),
                        warning_code: None,
                    };
                    events.push(event);
                    match get_string(payload, "turn_id") {
                        Some(turn_id) => {
                            if !contains_string(turns, turn_id.as_str()) {
                                let ghost before = turns@.map_values(|t: String| t@);
                                turns.push(turn_id);
                                assert(turns@.map_values(|t: String| t@) == before.push(turn_id@));
                            }
                        },
                        None => {},
                    }
                    if str_eq(outer_type.as_str(), "session_meta") {
                        ingest_session_meta(seed, payload, session_index);
                    }
                    if str_eq(outer_type.as_str(), "event_msg") && opt_is(&inner_type, "thread_name_updated") {
                        seed.thread_title = get_string(payload, "thread_name");
                        if seed.updated_at.is_none() {
                            seed.updated_at = clone_opt(&timestamp);
                        }
                    }
                    match extract_codex_message(outer_type.as_str(), payload, timestamp) {
                        Some(message) => {
                            messages.push(message);
                        },
                        None => {},
                    }
                    proof {
                        let st2 = codex_scan(lines@.take(index as int + 1), *session_index);
                        assert(event_views(events@) == st2.events);
                        assert(message_views(messages@) == st2.messages);
                        assert(seed@ == st2.seed);
                    }
                },
            }
        }
        index += 1;
    }
    assert(lines@.take(lines@.len() as int) == lines@);
    last_ts
}

/// The scan of a log with the session index of its context.
pub open spec fn scan_of(lines: Seq<JsonLine>, ctx: &ParseContext) -> CodexScan {
    codex_scan(lines, *ctx.session_index)
}

/// The parser for Codex session logs.
#[derive(Debug)]
pub struct CodexSessionJsonlParser;

/// How well the Codex parser fits a file: not at all unless it is JSON Lines, best when its
/// first bytes hold a `session_meta` event.
pub open spec fn codex_support(target: ParserTarget) -> u8 {
    if target.extension@ != "jsonl"@ {
        0
    } else if contains(target.sample@, "\"type\": \"session_meta\""@) || contains(
        target.sample@,
        "\"type\":\"session_meta\""@,
    ) {
        100
    } else {
        10
    }
}

impl SourceParser for CodexSessionJsonlParser {
    fn key(&self) -> (r: &'static str)
        ensures
            r@ == "codex_session_jsonl"@,
    {
        "codex_session_jsonl"
    }

    fn version(&self) -> (r: &'static str)
        ensures
            r@ == "2"@,
    {
        "2"
    }

    fn supports(&self, target: &ParserTarget) -> (score: u8)
        ensures
            score == codex_support(*target),
    {
        if !str_eq(target.extension.as_str(), "jsonl") {
            return 0;
        }
        let sample = chars_of(target.sample.as_str());
        if contains_str(sample.as_slice(), "\"type\": \"session_meta\"") || contains_str(
            sample.as_slice(),
            "\"type\":\"session_meta\"",
        ) {
            100
        } else {
            10
        }
    }
}

impl CodexSessionJsonlParser {
    /// Parses the lines of a Codex session log: one raw event per JSON line, the messages that
    /// the events carry, a warning per line that is not JSON, and the session.
    pub fn parse_lines(&self, ctx: &ParseContext, lines: &[JsonLine]) -> (r: ParseResult)
        requires
            lines@.len() < i64::MAX,
        ensures
            codex_parse_result(lines@, *ctx, r),
    {
        let mut events: Vec<ParsedRawEvent> = Vec::new();
        let mut messages: Vec<ParsedMessage> = Vec::new();
        let mut warnings: Vec<ParseWarning> = Vec::new();
        let mut turns: Vec<String> = Vec::new();
        let mut seed = SessionSeed::default();
        let last_ts = scan_codex_lines(
            lines,
            &ctx.session_index,
            &mut events,
            &mut messages,
            &mut warnings,
            &mut turns,
            &mut seed,
        );
        let ghost st = scan_of(lines@, ctx);
        if seed.updated_at.is_none() {
            seed.updated_at = last_ts;
        }
        let ghost seed_v = SeedView {
            updated_at: if st.seed.updated_at is None {
                st.last_ts
            } else {
                st.seed.updated_at
            },
            ..st.seed
        };
        assert(seed@ == seed_v);
        let ghost wv = if seed_v.id is None {
            st.warnings.push(missing_id_warning())
        } else {
            st.warnings
        };
        if seed.id.is_none() {
            warnings.push(
                ParseWarning {
                    severity: "warning".to_owned(),
                    code: "missing_session_id".to_owned(),
                    message: "未发现 session_meta.payload.id，已回退到 synthetic id".to_owned(),
                    line_no: None,
                    raw_excerpt: None,
                },
            );
        }
        let ghost ws = warning_views(warnings@);
        assert(ws == wv);
        proof {
            assert(warning_codes(warnings@) == ws.map_values(|w: WarningView| w.code));
        }
        let mut session = finalize_session(seed, ctx, events.len(), &mut messages, warnings.as_slice());
        let ghost before = session@;
        if turns.len() > 0 {
            session.turn_count = turns.len() as i64;
        }
        assert(SessionView { turn_count: finalized_turn_count(deduped(st.messages)) as i64, ..session@ } == before);
        ParseResult {
            parser_key: self.key().to_owned(),
            parser_version: self.version().to_owned(),
            session: Some(session),
            events,
            messages,
            warnings,
            fingerprint: ctx.fingerprint.clone(),
        }
    }
}

} // verus!
