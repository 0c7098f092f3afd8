//! The first pass of the turn analytics: the stored events of all sessions, in session and
//! sequence order, rebuilt into turns and counted into tool, search and interruption
//! statistics.
//!
//! The local day, hour and bucket of each event's timestamp depend on the machine's time zone;
//! the caller works them out and hands them in with the event.
use crate::counts::LabelCounts;
use crate::events::{extract_last_token_usage, extract_search_queries, last_token_usage_of, resolve_turn_id, search_queries_of, token_signature, tool_label, tool_label_of, turn_id_of, usage_signature};
use crate::json::{get, get_i64, get_string, i64_field, json_get, str_field, Json};
use crate::models::opt_view;
use crate::parsers::{rfc3339_millis_of, timestamp_millis};
use crate::terms::{counted, prompt_terms, unicode_lowercase, update_prompt_terms};
use crate::text::{exit_code_of, parse_function_call_exit_code};
use crate::timeline::{bucket_counts, count_in, increment_breakdown, Timeline};
use crate::turn_table::{open_turn, opened, slots_view, with_session, TextMap, TurnRecord, TurnSlot, TurnView};
use crate::turns::{ScopeDays, TurnTiming};
use crate::workspace::{project_label_from_cwd, project_label_of};
use chrono::TimeZone;
use vstd::prelude::*;

verus! {

/// Whether chrono can represent the instant that many seconds after the epoch.
pub uninterp spec fn utc_seconds_representable(seconds: i64) -> bool;

/// chrono's `Utc.timestamp_opt(seconds, 0).single()`, reduced to milliseconds: the instant
/// `seconds` after the epoch where chrono's dates reach it. Which seconds those are is named,
/// not stated.
#[verifier::external_body]
fn seconds_to_millis(seconds: i64) -> (r: Option<i64>)
    ensures
        r is Some == utc_seconds_representable(seconds),
        r matches Some(ms) ==> ms == seconds * 1000,
{
    chrono::Utc.timestamp_opt(seconds, 0).single().map(|t| t.timestamp_millis())
}

/// The instant, in milliseconds, that a count of seconds since the epoch stands for.
pub open spec fn seconds_instant(seconds: Option<i64>) -> Option<i64> {
    match seconds {
        Some(s) => if utc_seconds_representable(s) {
            Some((s * 1000) as i64)
        } else {
            None
        },
        None => None,
    }
}

/// The local time of an event: its day, its hour, and the label of the bucket it falls in.
#[derive(Debug)]
pub struct LocalStamp {
    pub day: i64,
    pub hour: u32,
    pub bucket: String,
}

/// A stored event, with the local time of its timestamp where it has one that parses.
#[derive(Debug)]
pub struct EventRow {
    pub session_id: String,
    pub ts: Option<String>,
    pub outer_type: String,
    pub inner_type: Option<String>,
    pub payload: Json,
    /// The `output` of a custom tool call's result, parsed, where it is JSON text.
    pub tool_output: Option<Json>,
    pub local: Option<LocalStamp>,
}

/// A local time, seen as plain values.
pub open spec fn local_view(l: Option<LocalStamp>) -> Option<(i64, u32, Seq<char>)> {
    match l {
        Some(s) => Some((s.day, s.hour, s.bucket@)),
        None => None,
    }
}

/// The state of the pass, seen as plain values.
pub struct PassView {
    pub open: Seq<(Seq<char>, TurnView)>,
    pub finished: Seq<TurnView>,
    pub session: Seq<char>,
    pub turn: Option<Seq<char>>,
    pub project: Option<Seq<char>>,
    pub context_compactions: int,
    pub rolled_back_turns: int,
    pub interruptions: Map<Seq<char>, Map<Seq<char>, i64>>,
    pub tool_types: Map<Seq<char>, i64>,
    pub tool_totals: Map<Seq<char>, i64>,
    pub tool_successes: Map<Seq<char>, i64>,
    pub tool_failures: Map<Seq<char>, i64>,
    pub search_terms: Map<Seq<char>, i64>,
    pub search_hours: Seq<i64>,
    pub pending: Map<Seq<char>, Seq<char>>,
    pub project_compactions: Map<Seq<char>, i64>,
}

/// The working directory recorded for a session: the first entry for it.
pub open spec fn session_cwd(cwds: Seq<(Seq<char>, Option<Seq<char>>)>, id: Seq<char>) -> Option<Seq<char>>
    decreases cwds.len(),
{
    if cwds.len() == 0 {
        None
    } else if cwds[0].0 == id {
        cwds[0].1
    } else {
        session_cwd(cwds.drop_first(), id)
    }
}

/// A count one higher.
pub open spec fn bump(m: Map<Seq<char>, i64>, k: Seq<char>) -> Map<Seq<char>, i64> {
    m.insert(k, (count_in(m, k) + 1) as i64)
}

/// A count made present, as `entry(k).or_default()` does.
pub open spec fn touch_count(m: Map<Seq<char>, i64>, k: Seq<char>) -> Map<Seq<char>, i64> {
    m.insert(k, count_in(m, k))
}

/// A timeline with the count of `category` in `bucket` one higher.
pub open spec fn bump_timeline(
    m: Map<Seq<char>, Map<Seq<char>, i64>>,
    bucket: Seq<char>,
    category: Seq<char>,
) -> Map<Seq<char>, Map<Seq<char>, i64>> {
    m.insert(bucket, bump(bucket_counts(m, bucket), category))
}

/// The open turns once the turn `id` is open and named after the session, with `f` applied
/// to it.
pub open spec fn with_turn(s: PassView, id: Seq<char>, f: spec_fn(TurnView) -> TurnView) -> PassView {
    let (o, i) = opened(s.open, id);
    PassView { open: o.update(i, (o[i].0, f(with_session(o[i].1, s.session)))), ..s }
}

/// The pass once a row of another session starts: the open turns finished, no current turn,
/// and the project of the new session's working directory.
pub open spec fn enter_session(s: PassView, session: Seq<char>, cwds: Seq<(Seq<char>, Option<Seq<char>>)>) -> PassView {
    if s.session == session {
        s
    } else {
        PassView {
            open: Seq::empty(),
            finished: s.finished + s.open.map_values(|o: (Seq<char>, TurnView)| o.1),
            session,
            turn: None,
            project: match session_cwd(cwds, session) {
                Some(c) => Some(project_label_of(c)),
                None => None,
            },
            ..s
        }
    }
}

/// Whether an event's local day lies in the scope.
pub open spec fn in_scope(local: Option<(i64, u32, Seq<char>)>, scope: ScopeDays) -> bool {
    local matches Some(l) && scope.start <= l.0 && l.0 <= scope.end
}

/// The effort a turn context names: its `effort`, else its collaboration mode's reasoning
/// effort.
pub open spec fn context_effort(payload: Json) -> Option<Seq<char>> {
    match str_field(payload, "effort"@) {
        Some(e) => Some(e),
        None => match json_get(payload, "collaboration_mode"@) {
            Some(m) => match json_get(m, "settings"@) {
                Some(st) => str_field(st, "reasoning_effort"@),
                None => None,
            },
            None => None,
        },
    }
}

/// The first of two optional values that is present.
pub open spec fn either<T>(a: Option<T>, b: Option<T>) -> Option<T> {
    match a {
        Some(x) => Some(x),
        None => b,
    }
}

/// A task start: it becomes the current turn, and its start is the start the event names, else
/// the event's own time.
pub open spec fn on_task_started(s: PassView, payload: Json, ts: Option<i64>) -> PassView {
    match str_field(payload, "turn_id"@) {
        Some(id) => {
            let started = either(seconds_instant(i64_field(payload, "started_at"@)), ts);
            let t = with_turn(s, id, |v: TurnView| TurnView { timing: TurnTiming { started_ms: started, ..v.timing }, ..v });
            PassView { turn: Some(id), ..t }
        },
        None => s,
    }
}

/// A turn context: it becomes the current turn; the turn counts one more context and takes the
/// model, effort and working directory it names, and its directory's project becomes the
/// session's.
pub open spec fn on_turn_context(s: PassView, payload: Json) -> PassView {
    match str_field(payload, "turn_id"@) {
        Some(id) => {
            let t = with_turn(
                s,
                id,
                |v: TurnView|
                    TurnView {
                        turn_context_count: (v.turn_context_count + 1) as i64,
                        model: either(str_field(payload, "model"@), v.model),
                        effort: either(context_effort(payload), v.effort),
                        cwd: either(str_field(payload, "cwd"@), v.cwd),
                        ..v
                    },
            );
            let cwd = t.open[opened(s.open, id).1].1.cwd;
            PassView {
                turn: Some(id),
                project: match cwd {
                    Some(c) => Some(project_label_of(c)),
                    None => s.project,
                },
                ..t
            }
        },
        None => s,
    }
}

/// A question: the turn it names, else the current one, is asked at the event's time (unless
/// it was asked before) with the message's text, trimmed (unless it has a text).
pub open spec fn on_user_message(s: PassView, payload: Json, ts: Option<i64>) -> PassView {
    match turn_id_of(payload, s.turn) {
        Some(id) => with_turn(
            s,
            id,
            |v: TurnView|
                TurnView {
                    timing: TurnTiming { user_ms: either(v.timing.user_ms, ts), ..v.timing },
                    user_text: match v.user_text {
                        Some(t) => Some(t),
                        None => match str_field(payload, "message"@) {
                            Some(m) => Some(crate::chars::trim(m)),
                            None => None,
                        },
                    },
                    ..v
                },
        ),
        None => s,
    }
}

/// Reasoning or an answer: the current turn's first answer is at the event's time, unless it
/// had one.
pub open spec fn on_agent_output(s: PassView, ts: Option<i64>) -> PassView {
    match s.turn {
        Some(id) => with_turn(
            s,
            id,
            |v: TurnView|
                TurnView {
                    timing: TurnTiming { first_assistant_ms: either(v.timing.first_assistant_ms, ts), ..v.timing },
                    ..v
                },
        ),
        None => s,
    }
}

/// The search terms after the queries were counted, each query's terms only where none of
/// the counts could pass `i64::MAX`.
pub open spec fn count_queries(m: Map<Seq<char>, i64>, queries: Seq<Seq<char>>) -> Map<Seq<char>, i64>
    decreases queries.len(),
{
    if queries.len() == 0 {
        m
    } else {
        let before = count_queries(m, queries.drop_last());
        let q = unicode_lowercase(queries.last());
        if q.len() <= i64::MAX && crate::terms::bounded(before, i64::MAX - q.len()) {
            counted(before, prompt_terms(q))
        } else {
            before
        }
    }
}

/// A tool call counted under its label and remembered by its call id; a web search also
/// counts its hour, when in scope, and its query terms, and succeeds at once.
pub open spec fn tool_call_counted(
    s: PassView,
    inner: Seq<char>,
    payload: Json,
    local: Option<(i64, u32, Seq<char>)>,
    scope: ScopeDays,
) -> PassView {
    let label = tool_label_of(Some(inner), payload);
    let web = inner == "web_search_call"@;
    PassView {
        tool_types: bump(s.tool_types, label),
        tool_totals: bump(s.tool_totals, label),
        tool_successes: if web {
            bump(s.tool_successes, label)
        } else {
            s.tool_successes
        },
        pending: match str_field(payload, "call_id"@) {
            Some(c) => s.pending.insert(c, label),
            None => s.pending,
        },
        search_hours: if web && in_scope(local, scope) {
            let h = local->Some_0.1 as int;
            s.search_hours.update(h, (s.search_hours[h] + 1) as i64)
        } else {
            s.search_hours
        },
        search_terms: if web {
            count_queries(s.search_terms, search_queries_of(payload))
        } else {
            s.search_terms
        },
        ..s
    }
}

/// A tool call: counted, and counted to the turn it names or the current one.
pub open spec fn on_tool_call(
    s: PassView,
    inner: Seq<char>,
    payload: Json,
    local: Option<(i64, u32, Seq<char>)>,
    scope: ScopeDays,
) -> PassView {
    let counted_call = tool_call_counted(s, inner, payload, local, scope);
    match turn_id_of(payload, s.turn) {
        Some(id) => with_turn(
            counted_call,
            id,
            |v: TurnView| TurnView { tool_call_count: (v.tool_call_count + 1) as i64, ..v },
        ),
        None => counted_call,
    }
}

/// An image viewed: a successful `view_image` call, counted to the current turn.
pub open spec fn on_view_image(s: PassView) -> PassView {
    let counted_call = PassView {
        tool_types: bump(s.tool_types, "view_image"@),
        tool_totals: bump(s.tool_totals, "view_image"@),
        tool_successes: bump(s.tool_successes, "view_image"@),
        ..s
    };
    match s.turn {
        Some(id) => with_turn(
            counted_call,
            id,
            |v: TurnView| TurnView { tool_call_count: (v.tool_call_count + 1) as i64, ..v },
        ),
        None => counted_call,
    }
}

/// A turn's token totals after a report: added to once per distinct report, the sums
/// wrapping as in a release build.
pub open spec fn with_usage(v: TurnView, u: (i64, i64, i64, i64, i64)) -> TurnView {
    let sig = usage_signature(u);
    if v.last_token_signature == Some(sig) {
        v
    } else {
        TurnView {
            usage: (
                v.usage.0.wrapping_add(u.0),
                v.usage.1.wrapping_add(u.1),
                v.usage.2.wrapping_add(u.2),
                v.usage.3.wrapping_add(u.3),
                v.usage.4.wrapping_add(u.4),
            ),
            last_token_signature: Some(sig),
            ..v
        }
    }
}

/// A token report: added to the current turn's totals unless the turn counted the same
/// report last.
pub open spec fn on_token_count(s: PassView, payload: Json) -> PassView {
    match s.turn {
        Some(id) => with_turn(
            s,
            id,
            |v: TurnView|
                match last_token_usage_of(payload) {
                    Some(u) => with_usage(v, u),
                    None => v,
                },
        ),
        None => s,
    }
}

/// The label a tool result is counted under: its call's label, else the default.
pub open spec fn result_label(s: PassView, payload: Json, default: Seq<char>) -> Seq<char> {
    match str_field(payload, "call_id"@) {
        Some(c) => if s.pending.contains_key(c) {
            s.pending[c]
        } else {
            default
        },
        None => default,
    }
}

/// A tool result: its call is forgotten, and it counts as a success unless it reports a
/// non-zero exit code.
pub open spec fn on_call_output(s: PassView, payload: Json, default: Seq<char>, exit_code: Option<i64>) -> PassView {
    let label = result_label(s, payload, default);
    let pending = match str_field(payload, "call_id"@) {
        Some(c) => s.pending.remove(c),
        None => s.pending,
    };
    let ok = match exit_code {
        Some(c) => c == 0,
        None => true,
    };
    PassView {
        pending,
        tool_totals: touch_count(s.tool_totals, label),
        tool_successes: if ok {
            bump(s.tool_successes, label)
        } else {
            s.tool_successes
        },
        tool_failures: if ok {
            s.tool_failures
        } else {
            bump(s.tool_failures, label)
        },
        ..s
    }
}

/// The exit code in the metadata of a custom tool's parsed output.
pub open spec fn custom_exit_code(output: Option<Json>) -> Option<i64> {
    match output {
        Some(o) => match json_get(o, "metadata"@) {
            Some(m) => i64_field(m, "exit_code"@),
            None => None,
        },
        None => None,
    }
}

/// The output text of a function call's result: its `output` string, or nothing.
pub open spec fn output_text(payload: Json) -> Seq<char> {
    match str_field(payload, "output"@) {
        Some(o) => o,
        None => Seq::empty(),
    }
}

/// A task completion: the turn it names, else the current one, completes at the time the event
/// names, else at the event's time, and takes the duration it reports.
pub open spec fn on_task_complete(s: PassView, payload: Json, ts: Option<i64>) -> PassView {
    match turn_id_of(payload, s.turn) {
        Some(id) => with_turn(
            s,
            id,
            |v: TurnView|
                TurnView {
                    timing: TurnTiming {
                        completed_ms: either(seconds_instant(i64_field(payload, "completed_at"@)), ts),
                        task_duration_ms: either(i64_field(payload, "duration_ms"@), v.timing.task_duration_ms),
                        ..v.timing
                    },
                    ..v
                },
        ),
        None => s,
    }
}

/// A timeline count one higher in the event's bucket, where the event is in scope.
pub open spec fn mark(s: PassView, local: Option<(i64, u32, Seq<char>)>, scope: ScopeDays, category: Seq<char>) -> Map<
    Seq<char>,
    Map<Seq<char>, i64>,
> {
    if in_scope(local, scope) {
        bump_timeline(s.interruptions, local->Some_0.2, category)
    } else {
        s.interruptions
    }
}

/// An aborted turn: the turn it names, else the current one, is aborted, and the abort is
/// marked on the timeline.
pub open spec fn on_turn_aborted(s: PassView, payload: Json, local: Option<(i64, u32, Seq<char>)>, scope: ScopeDays) -> PassView {
    let t = match turn_id_of(payload, s.turn) {
        Some(id) => with_turn(s, id, |v: TurnView| TurnView { aborted: true, ..v }),
        None => s,
    };
    PassView { interruptions: mark(s, local, scope, "Turn aborted"@), ..t }
}

/// A rollback in scope: counted and marked on the timeline.
pub open spec fn on_rolled_back(s: PassView, local: Option<(i64, u32, Seq<char>)>, scope: ScopeDays) -> PassView {
    if in_scope(local, scope) {
        PassView {
            rolled_back_turns: s.rolled_back_turns + 1,
            interruptions: mark(s, local, scope, "Rollback"@),
            ..s
        }
    } else {
        s
    }
}

/// A context compaction in scope: counted, counted to the session's project, and marked on the
/// timeline.
pub open spec fn on_compacted(s: PassView, local: Option<(i64, u32, Seq<char>)>, scope: ScopeDays) -> PassView {
    if in_scope(local, scope) {
        PassView {
            context_compactions: s.context_compactions + 1,
            project_compactions: match s.project {
                Some(p) => bump(s.project_compactions, p),
                None => s.project_compactions,
            },
            interruptions: mark(s, local, scope, "Context compacted"@),
            ..s
        }
    } else {
        s
    }
}

/// Whether an event is of the given outer type and inner type.
pub open spec fn is_event(e: EventRow, outer: Seq<char>, inner: Seq<char>) -> bool {
    e.outer_type@ == outer && opt_view(e.inner_type) == Some(inner)
}

/// What an event is to the analytics.
#[derive(Debug, Clone, Copy, PartialEq, Eq, Structural)]
pub enum EventKind {
    TaskStarted,
    TurnContext,
    UserMessage,
    AgentOutput,
    ToolCall,
    ViewImage,
    TokenCount,
    FunctionCallOutput,
    CustomToolCallOutput,
    TaskComplete,
    TurnAborted,
    RolledBack,
    Compacted,
    Other,
}

/// What an event is, by its outer and inner type.
pub open spec fn kind_of(e: EventRow) -> EventKind {
    if is_event(e, "event_msg"@, "task_started"@) {
        EventKind::TaskStarted
    } else if e.outer_type@ == "turn_context"@ {
        EventKind::TurnContext
    } else if is_event(e, "event_msg"@, "user_message"@) {
        EventKind::UserMessage
    } else if is_event(e, "event_msg"@, "agent_reasoning"@) || is_event(e, "event_msg"@, "agent_message"@) {
        EventKind::AgentOutput
    } else if is_event(e, "response_item"@, "function_call"@) || is_event(e, "response_item"@, "custom_tool_call"@)
        || is_event(e, "response_item"@, "web_search_call"@) {
        EventKind::ToolCall
    } else if is_event(e, "event_msg"@, "view_image_tool_call"@) {
        EventKind::ViewImage
    } else if is_event(e, "event_msg"@, "token_count"@) || e.outer_type@ == "token_count"@ {
        EventKind::TokenCount
    } else if is_event(e, "response_item"@, "function_call_output"@) {
        EventKind::FunctionCallOutput
    } else if is_event(e, "response_item"@, "custom_tool_call_output"@) {
        EventKind::CustomToolCallOutput
    } else if is_event(e, "event_msg"@, "task_complete"@) {
        EventKind::TaskComplete
    } else if is_event(e, "event_msg"@, "turn_aborted"@) {
        EventKind::TurnAborted
    } else if is_event(e, "event_msg"@, "thread_rolled_back"@) {
        EventKind::RolledBack
    } else if is_event(e, "event_msg"@, "context_compacted"@) || e.outer_type@ == "compacted"@ {
        EventKind::Compacted
    } else {
        EventKind::Other
    }
}

/// The pass after one more event.
pub open spec fn event_step(s: PassView, e: EventRow, cwds: Seq<(Seq<char>, Option<Seq<char>>)>, scope: ScopeDays) -> PassView {
    let s1 = enter_session(s, e.session_id@, cwds);
    let ts = match opt_view(e.ts) {
        Some(t) => rfc3339_millis_of(t),
        None => None,
    };
    let local = local_view(e.local);
    match kind_of(e) {
        EventKind::TaskStarted => on_task_started(s1, e.payload, ts),
        EventKind::TurnContext => on_turn_context(s1, e.payload),
        EventKind::UserMessage => on_user_message(s1, e.payload, ts),
        EventKind::AgentOutput => on_agent_output(s1, ts),
        EventKind::ToolCall => on_tool_call(s1, opt_view(e.inner_type)->Some_0, e.payload, local, scope),
        EventKind::ViewImage => on_view_image(s1),
        EventKind::TokenCount => on_token_count(s1, e.payload),
        EventKind::FunctionCallOutput => on_call_output(s1, e.payload, "tool_call"@, exit_code_of(output_text(e.payload))),
        EventKind::CustomToolCallOutput => on_call_output(s1, e.payload, "custom_tool"@, custom_exit_code(e.tool_output)),
        EventKind::TaskComplete => on_task_complete(s1, e.payload, ts),
        EventKind::TurnAborted => on_turn_aborted(s1, e.payload, local, scope),
        EventKind::RolledBack => on_rolled_back(s1, local, scope),
        EventKind::Compacted => on_compacted(s1, local, scope),
        EventKind::Other => s1,
    }
}

/// A web search (`response_item` / `web_search_call`) is a tool call: it counts once more under
/// `web_search` among the tool types and the successes, and under no other label, and, when its
/// local time lies in the range, once more in its hour of the search chart.
pub proof fn lemma_web_search_is_tool_call(
    s: PassView,
    e: EventRow,
    cwds: Seq<(Seq<char>, Option<Seq<char>>)>,
    scope: ScopeDays,
)
    requires
        e.outer_type@ == "response_item"@,
        opt_view(e.inner_type) == Some("web_search_call"@),
        count_in(s.tool_types, "web_search"@) < i64::MAX,
        count_in(s.tool_successes, "web_search"@) < i64::MAX,
    ensures
        kind_of(e) == EventKind::ToolCall,
        count_in(event_step(s, e, cwds, scope).tool_types, "web_search"@) == count_in(s.tool_types, "web_search"@) + 1,
        count_in(event_step(s, e, cwds, scope).tool_successes, "web_search"@) == count_in(
            s.tool_successes,
            "web_search"@,
        ) + 1,
        forall|l: Seq<char>|
            l != "web_search"@ ==> count_in(#[trigger] event_step(s, e, cwds, scope).tool_types, l) == count_in(
                s.tool_types,
                l,
            ),
        match local_view(e.local) {
            Some(t) => scope.start <= t.0 && t.0 <= scope.end && t.1 < s.search_hours.len() && s.search_hours[t.1 as int]
                < i64::MAX ==> event_step(s, e, cwds, scope).search_hours[t.1 as int] == s.search_hours[t.1 as int] + 1,
            None => true,
        },
{
    reveal_strlit("response_item");
    reveal_strlit("event_msg");
    reveal_strlit("turn_context");
    reveal_strlit("web_search_call");
    reveal_strlit("function_call");
    reveal_strlit("custom_tool_call");
    reveal_strlit("web_search");
    assert("response_item"@.len() != "event_msg"@.len());
    assert("response_item"@.len() != "turn_context"@.len());
    assert("web_search_call"@.len() != "function_call"@.len());
    assert("web_search_call"@.len() != "custom_tool_call"@.len());
    assert(tool_label_of(Some("web_search_call"@), e.payload) == "web_search"@);
}

/// A function call or a custom tool call (`response_item`) is a tool call counted once more
/// under the name its payload gives, or under `tool_call` where it gives none, and under no
/// other label; unlike a web search it is not yet counted a success.
pub proof fn lemma_named_tool_calls_counted(
    s: PassView,
    e: EventRow,
    cwds: Seq<(Seq<char>, Option<Seq<char>>)>,
    scope: ScopeDays,
)
    requires
        e.outer_type@ == "response_item"@,
        opt_view(e.inner_type) == Some("function_call"@) || opt_view(e.inner_type) == Some("custom_tool_call"@),
    ensures
        kind_of(e) == EventKind::ToolCall,
        ({
            let label = match str_field(e.payload, "name"@) {
                Some(n) => n,
                None => "tool_call"@,
            };
            &&& count_in(s.tool_types, label) < i64::MAX ==> count_in(event_step(s, e, cwds, scope).tool_types, label)
                == count_in(s.tool_types, label) + 1
            &&& forall|l: Seq<char>|
                l != label ==> count_in(#[trigger] event_step(s, e, cwds, scope).tool_types, l) == count_in(
                    s.tool_types,
                    l,
                )
            &&& event_step(s, e, cwds, scope).tool_successes == s.tool_successes
        }),
{
    reveal_strlit("response_item");
    reveal_strlit("event_msg");
    reveal_strlit("turn_context");
    reveal_strlit("web_search_call");
    reveal_strlit("function_call");
    reveal_strlit("custom_tool_call");
    assert("response_item"@.len() != "event_msg"@.len());
    assert("response_item"@.len() != "turn_context"@.len());
    assert("web_search_call"@.len() != "function_call"@.len());
    assert("web_search_call"@.len() != "custom_tool_call"@.len());
}

/// The label of the tool whose result an event reports, for the caller to add the result's
/// duration to.
pub open spec fn event_result_label(s: PassView, e: EventRow, cwds: Seq<(Seq<char>, Option<Seq<char>>)>) -> Option<Seq<char>> {
    let s1 = enter_session(s, e.session_id@, cwds);
    match kind_of(e) {
        EventKind::FunctionCallOutput => Some(result_label(s1, e.payload, "tool_call"@)),
        EventKind::CustomToolCallOutput => Some(result_label(s1, e.payload, "custom_tool"@)),
        _ => None,
    }
}

fn is_event_exec(row: &EventRow, outer: &str, inner: &str) -> (r: bool)
    ensures
        r == is_event(*row, outer@, inner@),
{
    match &row.inner_type {
        Some(i) => crate::chars::str_eq(row.outer_type.as_str(), outer) && crate::chars::str_eq(i.as_str(), inner),
        None => false,
    }
}

/// What an event is.
pub fn classify_event(row: &EventRow) -> (k: EventKind)
    ensures
        k == kind_of(*row),
{
    let outer = row.outer_type.as_str();
    if is_event_exec(row, "event_msg", "task_started") {
        EventKind::TaskStarted
    } else if crate::chars::str_eq(outer, "turn_context") {
        EventKind::TurnContext
    } else if is_event_exec(row, "event_msg", "user_message") {
        EventKind::UserMessage
    } else if is_event_exec(row, "event_msg", "agent_reasoning") || is_event_exec(row, "event_msg", "agent_message") {
        EventKind::AgentOutput
    } else if is_event_exec(row, "response_item", "function_call") || is_event_exec(row, "response_item", "custom_tool_call")
        || is_event_exec(row, "response_item", "web_search_call") {
        EventKind::ToolCall
    } else if is_event_exec(row, "event_msg", "view_image_tool_call") {
        EventKind::ViewImage
    } else if is_event_exec(row, "event_msg", "token_count") || crate::chars::str_eq(outer, "token_count") {
        EventKind::TokenCount
    } else if is_event_exec(row, "response_item", "function_call_output") {
        EventKind::FunctionCallOutput
    } else if is_event_exec(row, "response_item", "custom_tool_call_output") {
        EventKind::CustomToolCallOutput
    } else if is_event_exec(row, "event_msg", "task_complete") {
        EventKind::TaskComplete
    } else if is_event_exec(row, "event_msg", "turn_aborted") {
        EventKind::TurnAborted
    } else if is_event_exec(row, "event_msg", "thread_rolled_back") {
        EventKind::RolledBack
    } else if is_event_exec(row, "event_msg", "context_compacted") || crate::chars::str_eq(outer, "compacted") {
        EventKind::Compacted
    } else {
        EventKind::Other
    }
}

/// Whether every count of the pass is at most `n`: each event adds at most one to a count,
/// so after `n` events none is larger.
pub open spec fn within(s: PassView, n: int) -> bool {
    counts_within(s, n) && turns_within(s, n)
}

/// Whether every count of the statistics is at most `n`.
pub open spec fn counts_within(s: PassView, n: int) -> bool {
    &&& 0 <= n
    &&& crate::terms::bounded(s.tool_types, n)
    &&& crate::terms::bounded(s.tool_totals, n)
    &&& crate::terms::bounded(s.tool_successes, n)
    &&& crate::terms::bounded(s.tool_failures, n)
    &&& crate::terms::bounded(s.project_compactions, n)
    &&& forall|b: Seq<char>| s.interruptions.contains_key(b) ==> crate::terms::bounded(#[trigger] s.interruptions[b], n)
    &&& 0 <= s.context_compactions <= n
    &&& 0 <= s.rolled_back_turns <= n
    &&& s.search_hours.len() == 24
    &&& forall|h: int| 0 <= h < 24 ==> #[trigger] s.search_hours[h] <= n
}

/// Whether the context and tool counts of every turn are at most `n`.
pub open spec fn turns_within(s: PassView, n: int) -> bool {
    &&& forall|i: int|
        0 <= i < s.open.len() ==> (#[trigger] s.open[i]).1.turn_context_count <= n && s.open[i].1.tool_call_count <= n
    &&& forall|i: int|
        0 <= i < s.finished.len() ==> (#[trigger] s.finished[i]).turn_context_count <= n
            && s.finished[i].tool_call_count <= n
}

proof fn lemma_within_grows(s: PassView, n: int)
    requires
        within(s, n),
    ensures
        within(s, n + 1),
{
    assert forall|b: Seq<char>| s.interruptions.contains_key(b) implies crate::terms::bounded(#[trigger] s.interruptions[b], n + 1) by {
        assert(crate::terms::bounded(s.interruptions[b], n));
    }
}

/// The turns and statistics of the first pass, and the state it keeps between events.
pub struct EventAnalytics {
    open: Vec<TurnSlot>,
    /// The turns of the sessions that the pass has left, in the order they were opened.
    pub turns: Vec<TurnRecord>,
    session: String,
    turn: Option<String>,
    project: Option<String>,
    /// The context compactions in scope.
    pub context_compactions: i64,
    /// The rollbacks in scope.
    pub rolled_back_turns: i64,
    /// Aborts, rollbacks and compactions in scope, per bucket.
    pub interruption_timeline: Timeline,
    /// The tool calls per label.
    pub tool_types: LabelCounts,
    /// The calls per tool label, with an entry, possibly 0, for every label that a result came
    /// for.
    pub tool_totals: LabelCounts,
    /// The successful calls per tool label.
    pub tool_successes: LabelCounts,
    /// The failed calls per tool label.
    pub tool_failures: LabelCounts,
    /// The terms of web searches.
    pub search_terms: LabelCounts,
    /// The web searches in scope per local hour.
    pub search_hours: Vec<i64>,
    pending_calls: TextMap,
    /// The context compactions in scope per project.
    pub project_compactions: LabelCounts,
    seen: i64,
}

impl EventAnalytics {
    /// The pass as plain values.
    pub closed spec fn view(&self) -> PassView {
        PassView {
            open: slots_view(self.open@),
            finished: self.turns@.map_values(|t: TurnRecord| t@),
            session: self.session@,
            turn: opt_view(self.turn),
            project: opt_view(self.project),
            context_compactions: self.context_compactions as int,
            rolled_back_turns: self.rolled_back_turns as int,
            interruptions: self.interruption_timeline.as_map(),
            tool_types: self.tool_types@,
            tool_totals: self.tool_totals@,
            tool_successes: self.tool_successes@,
            tool_failures: self.tool_failures@,
            search_terms: self.search_terms@,
            search_hours: self.search_hours@,
            pending: self.pending_calls@,
            project_compactions: self.project_compactions@,
        }
    }

    /// How many events the pass has taken.
    pub closed spec fn events_seen(&self) -> int {
        self.seen as int
    }

    /// The pass before any event.
    pub fn new() -> (r: Self)
        ensures
            r@ == initial_pass(),
            r.events_seen() == 0,
            within(r@, 0),
    {
        let mut hours: Vec<i64> = Vec::new();
        let mut h: usize = 0;
        while h < 24
            invariant
                h <= 24,
                hours@.len() == h,
                forall|k: int| 0 <= k < h ==> hours@[k] == 0,
            decreases 24 - h,
        {
            hours.push(0);
            h += 1;
        }
        let r = EventAnalytics {
            open: Vec::new(),
            turns: Vec::new(),
            session: String::new(),
            turn: None,
            project: None,
            context_compactions: 0,
            rolled_back_turns: 0,
            interruption_timeline: Timeline::new(),
            tool_types: LabelCounts::new(),
            tool_totals: LabelCounts::new(),
            tool_successes: LabelCounts::new(),
            tool_failures: LabelCounts::new(),
            search_terms: LabelCounts::new(),
            search_hours: hours,
            pending_calls: TextMap::new(),
            project_compactions: LabelCounts::new(),
            seen: 0,
        };
        assert(r@.open =~= Seq::<(Seq<char>, TurnView)>::empty());
        assert(r@.finished =~= Seq::<TurnView>::empty());
        assert(r@.interruptions =~= Map::<Seq<char>, Map<Seq<char>, i64>>::empty());
        assert(r@.search_hours =~= Seq::new(24, |h: int| 0i64));
        r
    }
}

/// The pass before any event: no turns, no counts, no session.
pub open spec fn initial_pass() -> PassView {
    PassView {
        open: Seq::empty(),
        finished: Seq::empty(),
        session: Seq::empty(),
        turn: None,
        project: None,
        context_compactions: 0,
        rolled_back_turns: 0,
        interruptions: Map::empty(),
        tool_types: Map::empty(),
        tool_totals: Map::empty(),
        tool_successes: Map::empty(),
        tool_failures: Map::empty(),
        search_terms: Map::empty(),
        search_hours: Seq::new(24, |h: int| 0i64),
        pending: Map::empty(),
        project_compactions: Map::empty(),
    }
}

impl EventAnalytics {
    /// Opens the turn `id`, names it after the session, and takes it out for a change.
    fn take_turn(&mut self, id: &str) -> (r: (usize, TurnSlot))
        ensures
            ({
                let (o, i) = opened(old(self)@.open, id@);
                &&& r.0 == i
                &&& 0 <= i < o.len()
                &&& final(self)@ == (PassView { open: o.remove(i), ..old(self)@ })
                &&& (r.1.id@, r.1.turn@) == (o[i].0, with_session(o[i].1, old(self)@.session))
            }),
            final(self).events_seen() == old(self).events_seen(),
    {
        let ghost before = self@;
        let i = open_turn(&mut self.open, id);
        let ghost o = slots_view(self.open@);
        let mut slot = self.open.remove(i);
        if slot.turn.session_id.as_str().is_empty() {
            slot.turn.session_id = self.session.clone();
        }
        assert(slots_view(self.open@) =~= o.remove(i as int));
        assert(self@ == PassView { open: o.remove(i as int), ..before });
        (i, slot)
    }

    /// Puts a changed turn back in its place.
    fn put_turn(&mut self, i: usize, slot: TurnSlot)
        requires
            i <= old(self)@.open.len(),
        ensures
            final(self)@ == (PassView { open: old(self)@.open.insert(i as int, (slot.id@, slot.turn@)), ..old(self)@ }),
            final(self).events_seen() == old(self).events_seen(),
    {
        let ghost before = slots_view(self.open@);
        let ghost v = (slot.id@, slot.turn@);
        self.open.insert(i, slot);
        assert(slots_view(self.open@) =~= before.insert(i as int, v));
    }
}

proof fn lemma_remove_insert<T>(s: Seq<T>, i: int, x: T)
    requires
        0 <= i < s.len(),
    ensures
        s.remove(i).insert(i, x) == s.update(i, x),
{
    assert(s.remove(i).insert(i, x) =~= s.update(i, x));
}

proof fn lemma_opened_within(s: PassView, id: Seq<char>, n: int)
    requires
        within(s, n),
    ensures
        ({
            let (o, i) = opened(s.open, id);
            &&& 0 <= i < o.len()
            &&& forall|j: int| 0 <= j < o.len() ==> (#[trigger] o[j]).1.turn_context_count <= n && o[j].1.tool_call_count <= n
            &&& o[i].0 == id
        }),
{
    lemma_opened_turns(s, id, n);
}

proof fn lemma_opened_turns(s: PassView, id: Seq<char>, n: int)
    requires
        turns_within(s, n),
        0 <= n,
    ensures
        ({
            let (o, i) = opened(s.open, id);
            &&& 0 <= i < o.len()
            &&& forall|j: int| 0 <= j < o.len() ==> (#[trigger] o[j]).1.turn_context_count <= n && o[j].1.tool_call_count <= n
            &&& o[i].0 == id
        }),
{
    crate::turn_table::lemma_find_turn(s.open, id);
    let (o, i) = opened(s.open, id);
    assert forall|j: int| 0 <= j < o.len() implies (#[trigger] o[j]).1.turn_context_count <= n && o[j].1.tool_call_count <= n by {
        if j < s.open.len() {
            assert(o[j] == s.open[j]);
        }
    }
}

impl EventAnalytics {
    fn start_task(&mut self, payload: &Json, ts: Option<i64>)
        requires
            within(old(self)@, old(self).events_seen()),
        ensures
            final(self)@ == on_task_started(old(self)@, *payload, ts),
            final(self).events_seen() == old(self).events_seen(),
            within(final(self)@, old(self).events_seen()),
    {
        let ghost s = self@;
        let ghost n = self.events_seen();
        match get_string(payload, "turn_id") {
            Some(id) => {
                proof {
                    lemma_opened_within(s, id@, n);
                }
                let started = match get_i64(payload, "started_at") {
                    Some(secs) => match seconds_to_millis(secs) {
                        Some(ms) => Some(ms),
                        None => ts,
                    },
                    None => ts,
                };
                let (i, mut slot) = self.take_turn(id.as_str());
                slot.turn.timing.started_ms = started;
                self.put_turn(i, slot);
                proof {
                    let (o, k) = opened(s.open, id@);
                    lemma_remove_insert(o, k, (slot.id@, slot.turn@));
                    assert(started == either(seconds_instant(i64_field(*payload, "started_at"@)), ts));
                    assert(self@.open == with_turn(
                        s,
                        id@,
                        |v: TurnView| TurnView { timing: TurnTiming { started_ms: started, ..v.timing }, ..v },
                    ).open);
                }
                self.turn = Some(id);
            },
            None => {},
        }
    }
}

fn context_effort_exec(payload: &Json) -> (r: Option<String>)
    ensures
        opt_view(r) == context_effort(*payload),
{
    match get_string(payload, "effort") {
        Some(e) => Some(e),
        None => match get(payload, "collaboration_mode") {
            Some(m) => match get(m, "settings") {
                Some(st) => get_string(st, "reasoning_effort"),
                None => None,
            },
            None => None,
        },
    }
}

fn current_turn_id(turn: &Option<String>) -> (r: Option<&str>)
    ensures
        match r {
            Some(t) => opt_view(*turn) == Some(t@),
            None => turn is None,
        },
{
    match turn {
        Some(t) => Some(t.as_str()),
        None => None,
    }
}

impl EventAnalytics {
    fn turn_context(&mut self, payload: &Json)
        requires
            within(old(self)@, old(self).events_seen()),
            old(self).events_seen() < i64::MAX,
        ensures
            final(self)@ == on_turn_context(old(self)@, *payload),
            final(self).events_seen() == old(self).events_seen(),
            within(final(self)@, old(self).events_seen() + 1),
    {
        let ghost s = self@;
        let ghost n = self.events_seen();
        proof {
            lemma_within_grows(s, n);
        }
        match get_string(payload, "turn_id") {
            Some(id) => {
                proof {
                    lemma_opened_within(s, id@, n);
                }
                let model = get_string(payload, "model");
                let effort = context_effort_exec(payload);
                let cwd = get_string(payload, "cwd");
                let (i, mut slot) = self.take_turn(id.as_str());
                slot.turn.turn_context_count = slot.turn.turn_context_count + 1;
                if model.is_some() {
                    slot.turn.model = model;
                }
                if effort.is_some() {
                    slot.turn.effort = effort;
                }
                if cwd.is_some() {
                    slot.turn.cwd = cwd;
                }
                let project = match &slot.turn.cwd {
                    Some(c) => Some(project_label_from_cwd(c.as_str())),
                    None => None,
                };
                let ghost new_turn = slot.turn@;
                self.put_turn(i, slot);
                proof {
                    let (o, k) = opened(s.open, id@);
                    lemma_remove_insert(o, k, (o[k].0, new_turn));
                }
                match project {
                    Some(p) => {
                        self.project = Some(p);
                    },
                    None => {},
                }
                self.turn = Some(id);
            },
            None => {},
        }
    }

    fn user_message(&mut self, payload: &Json, ts: Option<i64>)
        requires
            within(old(self)@, old(self).events_seen()),
        ensures
            final(self)@ == on_user_message(old(self)@, *payload, ts),
            final(self).events_seen() == old(self).events_seen(),
            within(final(self)@, old(self).events_seen()),
    {
        let ghost s = self@;
        let ghost n = self.events_seen();
        let current = current_turn_id(&self.turn);
        match resolve_turn_id(payload, current) {
            Some(id) => {
                proof {
                    lemma_opened_within(s, id@, n);
                }
                let message = get_string(payload, "message");
                let (i, mut slot) = self.take_turn(id.as_str());
                if slot.turn.timing.user_ms.is_none() {
                    slot.turn.timing.user_ms = ts;
                }
                if slot.turn.user_text.is_none() {
                    slot.turn.user_text = match message {
                        Some(m) => Some(crate::chars::trim_str(m.as_str())),
                        None => None,
                    };
                }
                let ghost new_turn = slot.turn@;
                self.put_turn(i, slot);
                proof {
                    let (o, k) = opened(s.open, id@);
                    lemma_remove_insert(o, k, (o[k].0, new_turn));
                }
            },
            None => {},
        }
    }

    fn agent_output(&mut self, ts: Option<i64>)
        requires
            within(old(self)@, old(self).events_seen()),
        ensures
            final(self)@ == on_agent_output(old(self)@, ts),
            final(self).events_seen() == old(self).events_seen(),
            within(final(self)@, old(self).events_seen()),
    {
        let ghost s = self@;
        let ghost n = self.events_seen();
        match &self.turn {
            Some(t) => {
                let id = t.clone();
                proof {
                    lemma_opened_within(s, id@, n);
                }
                let (i, mut slot) = self.take_turn(id.as_str());
                if slot.turn.timing.first_assistant_ms.is_none() {
                    slot.turn.timing.first_assistant_ms = ts;
                }
                let ghost new_turn = slot.turn@;
                self.put_turn(i, slot);
                proof {
                    let (o, k) = opened(s.open, id@);
                    lemma_remove_insert(o, k, (o[k].0, new_turn));
                }
            },
            None => {},
        }
    }
}

proof fn lemma_bump_bounded(m: Map<Seq<char>, i64>, k: Seq<char>, n: int)
    requires
        crate::terms::bounded(m, n),
        0 <= n,
    ensures
        crate::terms::bounded(bump(m, k), n + 1),
        crate::terms::bounded(touch_count(m, k), n),
        crate::terms::bounded(m, n + 1),
        count_in(m, k) <= n,
{
}

/// Adds one to a count, which the bound keeps from overflowing.
fn bump_exec(counts: &mut LabelCounts, label: &str, Ghost(n): Ghost<int>)
    requires
        crate::terms::bounded(old(counts)@, n),
        0 <= n < i64::MAX,
    ensures
        final(counts)@ == bump(old(counts)@, label@),
        crate::terms::bounded(final(counts)@, n + 1),
{
    proof {
        lemma_bump_bounded(counts@, label@, n);
    }
    counts.increment(label, 1);
}

fn count_search_queries(terms: &mut LabelCounts, queries: &Vec<String>)
    ensures
        final(terms)@ == count_queries(old(terms)@, queries@.map_values(|q: String| q@)),
{
    let ghost qs = queries@.map_values(|q: String| q@);
    let ghost start = terms@;
    let mut j: usize = 0;
    while j < queries.len()
        invariant
            j <= queries@.len(),
            qs == queries@.map_values(|q: String| q@),
            terms@ == count_queries(start, qs.take(j as int)),
        decreases queries.len() - j,
    {
        assert(qs.take(j as int + 1).drop_last() == qs.take(j as int));
        assert(qs.take(j as int + 1).last() == queries@[j as int]@);
        let _ = update_prompt_terms(terms, queries[j].as_str());
        j += 1;
    }
    assert(qs.take(queries@.len() as int) == qs);
}

impl EventAnalytics {
    fn count_tool_call(&mut self, id: String)
        requires
            counts_within(old(self)@, old(self).events_seen() + 1),
            turns_within(old(self)@, old(self).events_seen()),
            0 <= old(self).events_seen() < i64::MAX,
        ensures
            final(self)@ == with_turn(
                old(self)@,
                id@,
                |v: TurnView| TurnView { tool_call_count: (v.tool_call_count + 1) as i64, ..v },
            ),
            final(self).events_seen() == old(self).events_seen(),
            within(final(self)@, old(self).events_seen() + 1),
    {
        let ghost s = self@;
        let ghost n = self.events_seen();
        proof {
            lemma_opened_turns(s, id@, n);
        }
        let (i, mut slot) = self.take_turn(id.as_str());
        slot.turn.tool_call_count = slot.turn.tool_call_count + 1;
        let ghost new_turn = slot.turn@;
        self.put_turn(i, slot);
        proof {
            let (o, k) = opened(s.open, id@);
            lemma_remove_insert(o, k, (o[k].0, new_turn));
        }
    }

    fn tool_call(&mut self, inner: &str, payload: &Json, local: &Option<LocalStamp>, scope: &ScopeDays)
        requires
            within(old(self)@, old(self).events_seen()),
            old(self).events_seen() < i64::MAX,
            local matches Some(l) ==> l.hour < 24,
        ensures
            final(self)@ == on_tool_call(old(self)@, inner@, *payload, local_view(*local), *scope),
            final(self).events_seen() == old(self).events_seen(),
            within(final(self)@, old(self).events_seen() + 1),
    {
        let ghost s = self@;
        let ghost n = self.events_seen();
        proof {
            lemma_within_grows(s, n);
        }
        let label = tool_label(Some(inner), payload);
        bump_exec(&mut self.tool_types, label.as_str(), Ghost(n));
        bump_exec(&mut self.tool_totals, label.as_str(), Ghost(n));
        match get_string(payload, "call_id") {
            Some(c) => self.pending_calls.insert(c, label.clone()),
            None => {},
        }
        let web = crate::chars::str_eq(inner, "web_search_call");
        if web {
            match local {
                Some(l) => {
                    if scope.contains_date(l.day) {
                        let h = l.hour as usize;
                        assert(self.search_hours@[h as int] <= n);
                        let v = self.search_hours[h] + 1;
                        self.search_hours.set(h, v);
                    }
                },
                None => {},
            }
            let queries = extract_search_queries(payload);
            count_search_queries(&mut self.search_terms, &queries);
            bump_exec(&mut self.tool_successes, label.as_str(), Ghost(n));
        }
        let ghost counted_call = self@;
        assert(counted_call == tool_call_counted(s, inner@, *payload, local_view(*local), *scope)) by {
            assert(counted_call.search_hours =~= (if web && in_scope(local_view(*local), *scope) {
                let h = local_view(*local)->Some_0.1 as int;
                s.search_hours.update(h, (s.search_hours[h] + 1) as i64)
            } else {
                s.search_hours
            }));
        }
        let current = current_turn_id(&self.turn);
        match resolve_turn_id(payload, current) {
            Some(id) => {
                self.count_tool_call(id);
            },
            None => {},
        }
    }
}

impl EventAnalytics {
    fn view_image(&mut self)
        requires
            within(old(self)@, old(self).events_seen()),
            0 <= old(self).events_seen() < i64::MAX,
        ensures
            final(self)@ == on_view_image(old(self)@),
            final(self).events_seen() == old(self).events_seen(),
            within(final(self)@, old(self).events_seen() + 1),
    {
        let ghost s = self@;
        let ghost n = self.events_seen();
        proof {
            lemma_within_grows(s, n);
        }
        bump_exec(&mut self.tool_types, "view_image", Ghost(n));
        bump_exec(&mut self.tool_totals, "view_image", Ghost(n));
        bump_exec(&mut self.tool_successes, "view_image", Ghost(n));
        match &self.turn {
            Some(t) => {
                let id = t.clone();
                self.count_tool_call(id);
            },
            None => {},
        }
    }

    fn token_count(&mut self, payload: &Json)
        requires
            within(old(self)@, old(self).events_seen()),
        ensures
            final(self)@ == on_token_count(old(self)@, *payload),
            final(self).events_seen() == old(self).events_seen(),
            within(final(self)@, old(self).events_seen()),
    {
        let ghost s = self@;
        let ghost n = self.events_seen();
        match &self.turn {
            Some(t) => {
                let id = t.clone();
                proof {
                    lemma_opened_within(s, id@, n);
                }
                let usage = extract_last_token_usage(payload);
                let (i, mut slot) = self.take_turn(id.as_str());
                match usage {
                    Some(u) => {
                        let sig = token_signature(&u);
                        let same = match &slot.turn.last_token_signature {
                            Some(last) => crate::chars::str_eq(last.as_str(), sig.as_str()),
                            None => false,
                        };
                        if !same {
                            slot.turn.usage.input_tokens = slot.turn.usage.input_tokens.wrapping_add(u.input_tokens);
                            slot.turn.usage.output_tokens = slot.turn.usage.output_tokens.wrapping_add(u.output_tokens);
                            slot.turn.usage.cached_input_tokens =
                                slot.turn.usage.cached_input_tokens.wrapping_add(u.cached_input_tokens);
                            slot.turn.usage.reasoning_output_tokens =
                                slot.turn.usage.reasoning_output_tokens.wrapping_add(u.reasoning_output_tokens);
                            slot.turn.usage.total_tokens = slot.turn.usage.total_tokens.wrapping_add(u.total_tokens);
                            slot.turn.last_token_signature = Some(sig);
                        }
                    },
                    None => {},
                }
                let ghost new_turn = slot.turn@;
                self.put_turn(i, slot);
                proof {
                    let (o, k) = opened(s.open, id@);
                    lemma_remove_insert(o, k, (o[k].0, new_turn));
                }
            },
            None => {},
        }
    }

    fn call_output(&mut self, payload: &Json, default: &str, exit_code: Option<i64>) -> (r: String)
        requires
            within(old(self)@, old(self).events_seen()),
            0 <= old(self).events_seen() < i64::MAX,
        ensures
            final(self)@ == on_call_output(old(self)@, *payload, default@, exit_code),
            r@ == result_label(old(self)@, *payload, default@),
            final(self).events_seen() == old(self).events_seen(),
            within(final(self)@, old(self).events_seen() + 1),
    {
        let ghost s = self@;
        let ghost n = self.events_seen();
        proof {
            lemma_within_grows(s, n);
        }
        let label = match get_string(payload, "call_id") {
            Some(c) => match self.pending_calls.remove(c.as_str()) {
                Some(l) => l,
                None => default.to_owned(),
            },
            None => default.to_owned(),
        };
        proof {
            lemma_bump_bounded(self.tool_totals@, label@, n);
        }
        self.tool_totals.increment(label.as_str(), 0);
        let ok = match exit_code {
            Some(c) => c == 0,
            None => true,
        };
        if ok {
            bump_exec(&mut self.tool_successes, label.as_str(), Ghost(n));
        } else {
            bump_exec(&mut self.tool_failures, label.as_str(), Ghost(n));
        }
        label
    }

    fn task_complete(&mut self, payload: &Json, ts: Option<i64>)
        requires
            within(old(self)@, old(self).events_seen()),
        ensures
            final(self)@ == on_task_complete(old(self)@, *payload, ts),
            final(self).events_seen() == old(self).events_seen(),
            within(final(self)@, old(self).events_seen()),
    {
        let ghost s = self@;
        let ghost n = self.events_seen();
        let current = current_turn_id(&self.turn);
        match resolve_turn_id(payload, current) {
            Some(id) => {
                proof {
                    lemma_opened_within(s, id@, n);
                }
                let completed = match get_i64(payload, "completed_at") {
                    Some(secs) => match seconds_to_millis(secs) {
                        Some(ms) => Some(ms),
                        None => ts,
                    },
                    None => ts,
                };
                let duration = get_i64(payload, "duration_ms");
                let (i, mut slot) = self.take_turn(id.as_str());
                slot.turn.timing.completed_ms = completed;
                if duration.is_some() {
                    slot.turn.timing.task_duration_ms = duration;
                }
                let ghost new_turn = slot.turn@;
                self.put_turn(i, slot);
                proof {
                    let (o, k) = opened(s.open, id@);
                    lemma_remove_insert(o, k, (o[k].0, new_turn));
                }
            },
            None => {},
        }
    }

    fn mark_timeline(&mut self, local: &Option<LocalStamp>, scope: &ScopeDays, category: &str)
        requires
            forall|b: Seq<char>|
                old(self)@.interruptions.contains_key(b) ==> crate::terms::bounded(
                    #[trigger] old(self)@.interruptions[b],
                    old(self).events_seen(),
                ),
            0 <= old(self).events_seen() < i64::MAX,
        ensures
            final(self)@ == (PassView { interruptions: mark(old(self)@, local_view(*local), *scope, category@), ..old(self)@ }),
            final(self).events_seen() == old(self).events_seen(),
            forall|b: Seq<char>| final(self)@.interruptions.contains_key(b) ==> crate::terms::bounded(
                #[trigger] final(self)@.interruptions[b],
                old(self).events_seen() + 1,
            ),
    {
        let ghost s = self@;
        let ghost n = self.events_seen();
        match local {
            Some(l) => {
                if scope.contains_date(l.day) {
                    proof {
                        let bc = bucket_counts(s.interruptions, l.bucket@);
                        if s.interruptions.contains_key(l.bucket@) {
                            assert(crate::terms::bounded(s.interruptions[l.bucket@], n));
                        }
                        lemma_bump_bounded(bc, category@, n);
                    }
                    increment_breakdown(&mut self.interruption_timeline, l.bucket.clone(), category, 1);
                    proof {
                        assert forall|b: Seq<char>| self@.interruptions.contains_key(b) implies crate::terms::bounded(
                            #[trigger] self@.interruptions[b],
                            n + 1,
                        ) by {
                            if b != l.bucket@ {
                                assert(crate::terms::bounded(s.interruptions[b], n));
                            }
                        }
                    }
                    return;
                }
            },
            None => {},
        }
        proof {
            assert forall|b: Seq<char>| self@.interruptions.contains_key(b) implies crate::terms::bounded(
                #[trigger] self@.interruptions[b],
                n + 1,
            ) by {
                assert(crate::terms::bounded(s.interruptions[b], n));
            }
        }
    }

    fn turn_aborted(&mut self, payload: &Json, local: &Option<LocalStamp>, scope: &ScopeDays)
        requires
            within(old(self)@, old(self).events_seen()),
            0 <= old(self).events_seen() < i64::MAX,
        ensures
            final(self)@ == on_turn_aborted(old(self)@, *payload, local_view(*local), *scope),
            final(self).events_seen() == old(self).events_seen(),
            within(final(self)@, old(self).events_seen() + 1),
    {
        let ghost s = self@;
        let ghost n = self.events_seen();
        let current = current_turn_id(&self.turn);
        match resolve_turn_id(payload, current) {
            Some(id) => {
                proof {
                    lemma_opened_within(s, id@, n);
                }
                let (i, mut slot) = self.take_turn(id.as_str());
                slot.turn.aborted = true;
                let ghost new_turn = slot.turn@;
                self.put_turn(i, slot);
                proof {
                    let (o, k) = opened(s.open, id@);
                    lemma_remove_insert(o, k, (o[k].0, new_turn));
                }
            },
            None => {},
        }
        proof {
            lemma_within_grows(self@, n);
        }
        self.mark_timeline(local, scope, "Turn aborted");
    }

    fn rolled_back(&mut self, local: &Option<LocalStamp>, scope: &ScopeDays)
        requires
            within(old(self)@, old(self).events_seen()),
            0 <= old(self).events_seen() < i64::MAX,
        ensures
            final(self)@ == on_rolled_back(old(self)@, local_view(*local), *scope),
            final(self).events_seen() == old(self).events_seen(),
            within(final(self)@, old(self).events_seen() + 1),
    {
        let ghost s = self@;
        let ghost n = self.events_seen();
        proof {
            lemma_within_grows(s, n);
        }
        let in_range = match local {
            Some(l) => scope.contains_date(l.day),
            None => false,
        };
        if in_range {
            self.rolled_back_turns = self.rolled_back_turns + 1;
            self.mark_timeline(local, scope, "Rollback");
        }
    }

    fn compacted(&mut self, local: &Option<LocalStamp>, scope: &ScopeDays)
        requires
            within(old(self)@, old(self).events_seen()),
            0 <= old(self).events_seen() < i64::MAX,
        ensures
            final(self)@ == on_compacted(old(self)@, local_view(*local), *scope),
            final(self).events_seen() == old(self).events_seen(),
            within(final(self)@, old(self).events_seen() + 1),
    {
        let ghost s = self@;
        let ghost n = self.events_seen();
        proof {
            lemma_within_grows(s, n);
        }
        let in_range = match local {
            Some(l) => scope.contains_date(l.day),
            None => false,
        };
        if in_range {
            self.context_compactions = self.context_compactions + 1;
            match &self.project {
                Some(p) => {
                    let p = p.clone();
                    bump_exec(&mut self.project_compactions, p.as_str(), Ghost(n));
                },
                None => {},
            }
            self.mark_timeline(local, scope, "Context compacted");
        }
    }
}

/// The working directories of sessions, seen as plain values.
pub open spec fn cwds_view(cwds: Seq<(String, Option<String>)>) -> Seq<(Seq<char>, Option<Seq<char>>)> {
    cwds.map_values(|c: (String, Option<String>)| (c.0@, opt_view(c.1)))
}

pub(crate) fn session_cwd_exec(cwds: &[(String, Option<String>)], id: &String) -> (r: Option<String>)
    ensures
        opt_view(r) == session_cwd(cwds_view(cwds@), id@),
{
    let ghost cv = cwds_view(cwds@);
    let mut i: usize = 0;
    assert(cv.skip(0) == cv);
    while i < cwds.len()
        invariant
            i <= cwds@.len(),
            cv == cwds_view(cwds@),
            session_cwd(cv, id@) == session_cwd(cv.skip(i as int), id@),
        decreases cwds.len() - i,
    {
        assert(cv.skip(i as int)[0] == cv[i as int]);
        assert(cv.skip(i as int).drop_first() == cv.skip(i as int + 1));
        if cwds[i].0 == *id {
            return match &cwds[i].1 {
                Some(c) => Some(c.clone()),
                None => None,
            };
        }
        i += 1;
    }
    None
}

/// The pass with its open turns finished.
pub open spec fn finish_pass(s: PassView) -> PassView {
    PassView { open: Seq::empty(), finished: s.finished + s.open.map_values(|o: (Seq<char>, TurnView)| o.1), ..s }
}

impl EventAnalytics {
    /// Moves the open turns to the finished ones, in the order they were opened.
    fn flush_turns(&mut self)
        requires
            within(old(self)@, old(self).events_seen()),
        ensures
            final(self)@ == finish_pass(old(self)@),
            final(self).events_seen() == old(self).events_seen(),
            within(final(self)@, old(self).events_seen()),
    {
        let ghost s = self@;
        let mut open: Vec<TurnSlot> = Vec::new();
        std::mem::swap(&mut open, &mut self.open);
        let ghost orig = slots_view(open@);
        let total = open.len();
        assert(orig.len() == total);
        assert(orig == s.open);
        assert(slots_view(self.open@) =~= Seq::<(Seq<char>, TurnView)>::empty());
        assert(orig.take(0).map_values(|o: (Seq<char>, TurnView)| o.1) =~= Seq::<TurnView>::empty());
        assert(s.finished + Seq::<TurnView>::empty() =~= s.finished);
        assert(orig.skip(0) == orig);
        let mut k: usize = 0;
        while open.len() > 0
            invariant
                k + open@.len() == orig.len(),
                orig.len() <= usize::MAX,
                slots_view(open@) == orig.skip(k as int),
                self@ == (PassView {
                    open: Seq::empty(),
                    finished: s.finished + orig.take(k as int).map_values(|o: (Seq<char>, TurnView)| o.1),
                    ..s
                }),
                self.events_seen() == old(self).events_seen(),
            decreases open.len(),
        {
            let ghost old_open = open@;
            assert(slots_view(old_open) == orig.skip(k as int));
            let slot = open.remove(0);
            assert(open@ == old_open.remove(0));
            assert(orig.skip(k as int)[0] == (slot.id@, slot.turn@));
            assert forall|j: int| 0 <= j < open@.len() implies #[trigger] slots_view(open@)[j] == orig.skip(k as int + 1)[j] by {
                assert(open@[j] == old_open[j + 1]);
                assert(slots_view(old_open)[j + 1] == orig.skip(k as int)[j + 1]);
            }
            assert(slots_view(open@) =~= orig.skip(k as int + 1));
            let ghost before = self.turns@;
            assert(before.map_values(|t: TurnRecord| t@) == s.finished + orig.take(k as int).map_values(
                |o: (Seq<char>, TurnView)| o.1,
            ));
            let ghost moved = slot.turn@;
            assert(moved == orig[k as int].1);
            self.turns.push(slot.turn);
            proof {
                assert(self.turns@.map_values(|t: TurnRecord| t@) =~= before.map_values(|t: TurnRecord| t@).push(moved));
                assert(orig.take(k as int + 1) == orig.take(k as int).push(orig[k as int]));
                assert(orig.take(k as int + 1).map_values(|o: (Seq<char>, TurnView)| o.1) =~= orig.take(k as int).map_values(
                    |o: (Seq<char>, TurnView)| o.1,
                ).push(moved));
                assert(self.turns@.map_values(|t: TurnRecord| t@) =~= s.finished + orig.take(k as int + 1).map_values(
                    |o: (Seq<char>, TurnView)| o.1,
                ));
            }
            k += 1;
        }
        assert(orig.take(k as int) == orig);
        assert(slots_view(self.open@) =~= Seq::<(Seq<char>, TurnView)>::empty());
        proof {
            let f = s.finished + orig.map_values(|o: (Seq<char>, TurnView)| o.1);
            assert forall|i: int| 0 <= i < f.len() implies (#[trigger] f[i]).turn_context_count <= self.events_seen()
                && f[i].tool_call_count <= self.events_seen() by {
                if i >= s.finished.len() {
                    assert(f[i] == orig[i - s.finished.len()].1);
                }
            }
        }
    }

    fn enter_session(&mut self, session: &String, cwds: &[(String, Option<String>)])
        requires
            within(old(self)@, old(self).events_seen()),
        ensures
            final(self)@ == enter_session(old(self)@, session@, cwds_view(cwds@)),
            final(self).events_seen() == old(self).events_seen(),
            within(final(self)@, old(self).events_seen()),
    {
        if self.session == *session {
            return;
        }
        self.flush_turns();
        self.session = session.clone();
        self.turn = None;
        self.project = match session_cwd_exec(cwds, session) {
            Some(c) => Some(project_label_from_cwd(c.as_str())),
            None => None,
        };
    }

    /// Takes one more event, and gives the label of the tool whose result it reports, if it
    /// reports one.
    fn apply_event(&mut self, row: &EventRow, cwds: &[(String, Option<String>)], scope: &ScopeDays) -> (r: Option<String>)
        requires
            within(old(self)@, old(self).events_seen()),
            0 <= old(self).events_seen() < i64::MAX,
            row.local matches Some(l) ==> l.hour < 24,
        ensures
            final(self)@ == event_step(old(self)@, *row, cwds_view(cwds@), *scope),
            opt_view(r) == event_result_label(old(self)@, *row, cwds_view(cwds@)),
            final(self).events_seen() == old(self).events_seen() + 1,
            within(final(self)@, final(self).events_seen()),
    {
        let ghost n = self.events_seen();
        self.enter_session(&row.session_id, cwds);
        proof {
            lemma_within_grows(self@, n);
        }
        let ts = match &row.ts {
            Some(t) => timestamp_millis(t.as_str()),
            None => None,
        };
        let mut label: Option<String> = None;
        match classify_event(row) {
            EventKind::TaskStarted => self.start_task(&row.payload, ts),
            EventKind::TurnContext => self.turn_context(&row.payload),
            EventKind::UserMessage => self.user_message(&row.payload, ts),
            EventKind::AgentOutput => self.agent_output(ts),
            EventKind::ToolCall => {
                let inner = row.inner_type.as_ref().unwrap();
                self.tool_call(inner.as_str(), &row.payload, &row.local, scope);
            },
            EventKind::ViewImage => self.view_image(),
            EventKind::TokenCount => self.token_count(&row.payload),
            EventKind::FunctionCallOutput => {
                let output = match get_string(&row.payload, "output") {
                    Some(o) => o,
                    None => String::new(),
                };
                let exit_code = parse_function_call_exit_code(output.as_str());
                label = Some(self.call_output(&row.payload, "tool_call", exit_code));
            },
            EventKind::CustomToolCallOutput => {
                let exit_code = match &row.tool_output {
                    Some(o) => match get(o, "metadata") {
                        Some(m) => get_i64(m, "exit_code"),
                        None => None,
                    },
                    None => None,
                };
                label = Some(self.call_output(&row.payload, "custom_tool", exit_code));
            },
            EventKind::TaskComplete => self.task_complete(&row.payload, ts),
            EventKind::TurnAborted => self.turn_aborted(&row.payload, &row.local, scope),
            EventKind::RolledBack => self.rolled_back(&row.local, scope),
            EventKind::Compacted => self.compacted(&row.local, scope),
            EventKind::Other => {},
        }
        self.seen = self.seen + 1;
        label
    }
}

/// Whether an event's local hour, where it has one, is an hour of the day.
pub open spec fn hour_ok(row: EventRow) -> bool {
    row.local matches Some(l) ==> l.hour < 24
}

/// The pass after a list of events.
pub open spec fn events_folded(
    s: PassView,
    rows: Seq<EventRow>,
    cwds: Seq<(Seq<char>, Option<Seq<char>>)>,
    scope: ScopeDays,
) -> PassView
    decreases rows.len(),
{
    if rows.len() == 0 {
        s
    } else {
        event_step(events_folded(s, rows.drop_last(), cwds, scope), rows.last(), cwds, scope)
    }
}

/// The first pass over the events of all sessions, given in session and sequence order: the
/// turns of each session, finished in the order they were opened, and the statistics; with,
/// for each event, the label of the tool whose result it reports, if any.
pub fn build_event_analytics(
    rows: &[EventRow],
    cwds: &[(String, Option<String>)],
    scope: &ScopeDays,
) -> (r: (EventAnalytics, Vec<Option<String>>))
    requires
        rows@.len() < i64::MAX,
        forall|i: int| 0 <= i < rows@.len() ==> hour_ok(#[trigger] rows@[i]),
    ensures
        r.0@ == finish_pass(events_folded(initial_pass(), rows@, cwds_view(cwds@), *scope)),
        r.1@.len() == rows@.len(),
        forall|i: int|
            0 <= i < rows@.len() ==> opt_view(#[trigger] r.1@[i]) == event_result_label(
                events_folded(initial_pass(), rows@.take(i), cwds_view(cwds@), *scope),
                rows@[i],
                cwds_view(cwds@),
            ),
{
    let mut pass = EventAnalytics::new();
    let mut labels: Vec<Option<String>> = Vec::new();
    let mut i: usize = 0;
    while i < rows.len()
        invariant
            i <= rows@.len(),
            rows@.len() < i64::MAX,
            forall|k: int| 0 <= k < rows@.len() ==> hour_ok(#[trigger] rows@[k]),
            pass.events_seen() == i,
            within(pass@, pass.events_seen()),
            pass@ == events_folded(initial_pass(), rows@.take(i as int), cwds_view(cwds@), *scope),
            labels@.len() == i,
            forall|k: int|
                0 <= k < i ==> opt_view(#[trigger] labels@[k]) == event_result_label(
                    events_folded(initial_pass(), rows@.take(k), cwds_view(cwds@), *scope),
                    rows@[k],
                    cwds_view(cwds@),
                ),
        decreases rows.len() - i,
    {
        let row = &rows[i];
        assert(rows@.take(i as int + 1).drop_last() == rows@.take(i as int));
        assert(rows@.take(i as int + 1).last() == *row);
        let label = pass.apply_event(row, cwds, scope);
        labels.push(label);
        i += 1;
    }
    assert(rows@.take(rows@.len() as int) == rows@);
    pass.flush_turns();
    (pass, labels)
}

} // verus!
