use rescue_codex::event_pass::{build_event_analytics, EventRow, LocalStamp};
use rescue_codex::filters::{RangePreset, TimeGranularity};
use rescue_codex::json::{Json, JsonKind, JsonMember};
use rescue_codex::logs::{build_log_analytics, LogRow};
use rescue_codex::turn_pass::summarize_turns;
use rescue_codex::turn_table::TurnRecord;
use rescue_codex::turns::{resolve_scope, ScopeDays, TurnTiming};

const DAY: i64 = 739729;

fn to_json(v: &serde_json::Value) -> Json {
    let text = serde_json::to_string(v).unwrap();
    let kind = match v {
        serde_json::Value::Null => JsonKind::Null,
        serde_json::Value::Bool(b) => JsonKind::Bool(*b),
        serde_json::Value::Number(n) => JsonKind::Number(n.as_i64()),
        serde_json::Value::String(s) => JsonKind::Str(s.clone()),
        serde_json::Value::Array(a) => JsonKind::Array(a.iter().map(to_json).collect()),
        serde_json::Value::Object(o) => JsonKind::Object(
            o.iter().map(|(k, v)| JsonMember { key: k.clone(), value: to_json(v) }).collect(),
        ),
    };
    Json { kind, text }
}

fn scope() -> ScopeDays {
    resolve_scope(RangePreset::Custom, TimeGranularity::Day, Some(DAY - 1), Some(DAY + 1), None, DAY)
}

fn row(outer: &str, inner: Option<&str>, ts: Option<&str>, payload: &str) -> EventRow {
    EventRow {
        session_id: "s1".to_string(),
        ts: ts.map(ToOwned::to_owned),
        outer_type: outer.to_string(),
        inner_type: inner.map(ToOwned::to_owned),
        payload: to_json(&serde_json::from_str::<serde_json::Value>(payload).unwrap()),
        tool_output: None,
        local: ts.map(|_| LocalStamp { day: DAY, hour: 2, bucket: "2026-04-23".to_string() }),
    }
}

fn events() -> Vec<EventRow> {
    vec![
        row("event_msg", Some("task_started"), Some("2026-04-23T02:24:40Z"), r#"{"type":"task_started","turn_id":"t1"}"#),
        row("turn_context", None, Some("2026-04-23T02:24:41Z"), r#"{"turn_id":"t1","model":"gpt-5","effort":"high","cwd":"/w/alpha"}"#),
        row("event_msg", Some("user_message"), Some("2026-04-23T02:24:45Z"), r#"{"type":"user_message","message":"  Fix it  "}"#),
        row("event_msg", Some("agent_message"), Some("2026-04-23T02:24:48Z"), r#"{"type":"agent_message","message":"ok"}"#),
        row("response_item", Some("function_call"), Some("2026-04-23T02:24:49Z"), r#"{"type":"function_call","name":"shell","call_id":"c1"}"#),
        row("response_item", Some("function_call_output"), Some("2026-04-23T02:24:50Z"), r#"{"type":"function_call_output","call_id":"c1","output":"Exit code: 1"}"#),
        row("event_msg", Some("token_count"), Some("2026-04-23T02:24:51Z"), r#"{"type":"token_count","info":{"last_token_usage":{"input_tokens":10,"output_tokens":5,"total_tokens":15}}}"#),
        row("event_msg", Some("token_count"), Some("2026-04-23T02:24:52Z"), r#"{"type":"token_count","info":{"last_token_usage":{"input_tokens":10,"output_tokens":5,"total_tokens":15}}}"#),
        row("event_msg", Some("context_compacted"), Some("2026-04-23T02:24:53Z"), r#"{"type":"context_compacted"}"#),
        row("event_msg", Some("task_complete"), Some("2026-04-23T02:25:00Z"), r#"{"type":"task_complete","duration_ms":20000}"#),
    ]
}

#[test]
fn event_pass_rebuilds_turns() {
    let cwds = vec![("s1".to_string(), Some("/w/alpha".to_string()))];
    let (analytics, labels) = build_event_analytics(&events(), &cwds, &scope());
    assert_eq!(analytics.turns.len(), 1);
    let t = &analytics.turns[0];
    assert_eq!(t.session_id, "s1");
    assert_eq!(t.user_text.as_deref(), Some("Fix it"));
    assert_eq!(t.prompt_length(), 6);
    assert_eq!(t.model.as_deref(), Some("gpt-5"));
    assert_eq!(t.effort.as_deref(), Some("high"));
    assert_eq!(t.tool_call_count, 1);
    assert_eq!(t.usage.total_tokens, 15);
    assert_eq!(t.timing.first_response_sec(), Some(3));
    assert_eq!(t.timing.completion_sec(), Some(20));
    assert_eq!(analytics.tool_types.get("shell"), 1);
    assert_eq!(analytics.tool_failures.get("shell"), 1);
    assert_eq!(analytics.context_compactions, 1);
    assert_eq!(analytics.project_compactions.get("alpha"), 1);
    assert_eq!(labels[5].as_deref(), Some("shell"));
    assert_eq!(labels[0], None);

    let stamps: Vec<Option<LocalStamp>> = analytics
        .turns
        .iter()
        .map(|_| Some(LocalStamp { day: DAY, hour: 2, bucket: "2026-04-23".to_string() }))
        .collect();
    let summary = summarize_turns(&analytics.turns, &stamps, &scope(), None, &cwds);
    assert_eq!(summary.turns.len(), 1);
    assert_eq!(summary.models.get("gpt-5"), 1);
    assert_eq!(summary.efforts.get("high"), 1);
    assert_eq!(summary.prompt_lengths, vec![6]);
    assert_eq!(summary.prompt_terms.get("fix"), 1);
    let filtered = summarize_turns(&analytics.turns, &stamps, &scope(), Some("other"), &cwds);
    assert_eq!(filtered.turns.len(), 0);
}

#[test]
fn log_pass_counts_signals() {
    let log = |day: Option<i64>, level: &str, target: &str, body: &str| LogRow {
        day,
        level: level.to_string(),
        target: target.to_string(),
        body: body.to_string(),
    };
    let rows = vec![
        log(Some(DAY), "INFO", "codex::transport", "Reconnect after retry"),
        log(Some(DAY), "ERROR", "responses_websocket", "closed cwd=/w/alpha"),
        log(Some(DAY), "INFO", "codex_core::client", "service_tier=fast"),
        log(Some(DAY + 10), "ERROR", "transport", "timeout"),
        log(None, "ERROR", "transport", "timeout"),
    ];
    let a = build_log_analytics(&rows, &scope(), None);
    assert_eq!(a.signals.get("Reconnect"), 1);
    assert_eq!(a.signals.get("Retry"), 1);
    assert_eq!(a.signals.get("Transport error"), 1);
    assert_eq!(a.speed_tiers.get("Fast"), 1);
    assert_eq!(a.transport_timeline.count("2026-04-23", "Reconnect"), 1);
    assert_eq!(a.speed_timeline.count("2026-04-23", "Fast"), 1);
    let only_alpha = build_log_analytics(&rows, &scope(), Some("alpha"));
    assert_eq!(only_alpha.signals.get("Transport error"), 1);
    assert_eq!(only_alpha.signals.get("Reconnect"), 0);
}

#[test]
fn turns_are_counted_in_the_order_they_happened() {
    let turn = |id: &str, ms: i64, cwd: &str| TurnRecord {
        session_id: id.to_string(),
        timing: TurnTiming { user_ms: Some(ms), ..Default::default() },
        cwd: Some(cwd.to_string()),
        user_text: Some("q".to_string()),
        ..Default::default()
    };
    let stamp = || Some(LocalStamp { day: DAY, hour: 1, bucket: "b".to_string() });
    let forward = vec![turn("a", 1_000, "/w/one"), turn("b", 2_000, "/w/two"), turn("c", 3_000, "/w/one")];
    let backward = vec![turn("c", 3_000, "/w/one"), turn("b", 2_000, "/w/two"), turn("a", 1_000, "/w/one")];
    let stamps = vec![stamp(), stamp(), stamp()];
    let cwds: Vec<(String, Option<String>)> = vec![];
    let s1 = summarize_turns(&forward, &stamps, &scope(), None, &cwds);
    let s2 = summarize_turns(&backward, &stamps, &scope(), None, &cwds);
    let ids = |s: &rescue_codex::turn_pass::TurnSummary| s.turns.iter().map(|t| t.session_id.clone()).collect::<Vec<_>>();
    assert_eq!(ids(&s1), vec!["a", "b", "c"]);
    assert_eq!(ids(&s1), ids(&s2));
    assert_eq!(s1.project_switches, 2);
    assert_eq!(s2.workspace_switches, 2);
    assert_eq!(s1.workspace_timeline.count("b", "Project switch"), 2);
}

#[test]
fn task_started_seconds_take_precedence_over_the_event_time() {
    let rows = vec![
        row("event_msg", Some("task_started"), Some("2026-04-23T02:24:40Z"), r#"{"type":"task_started","turn_id":"t1","started_at":1776911070}"#),
        row("event_msg", Some("user_message"), Some("2026-04-23T02:24:45Z"), r#"{"type":"user_message","message":"go"}"#),
    ];
    let cwds = vec![("s1".to_string(), Some("/w/alpha".to_string()))];
    let (analytics, _) = build_event_analytics(&rows, &cwds, &scope());
    assert_eq!(analytics.turns.len(), 1);
    assert_eq!(analytics.turns[0].timing.started_ms, Some(1_776_911_070_000));

    let rows = vec![
        row("event_msg", Some("task_started"), Some("2026-04-23T02:24:40Z"), r#"{"type":"task_started","turn_id":"t1"}"#),
        row("event_msg", Some("user_message"), Some("2026-04-23T02:24:45Z"), r#"{"type":"user_message","message":"go"}"#),
    ];
    let (analytics, _) = build_event_analytics(&rows, &cwds, &scope());
    assert_eq!(analytics.turns[0].timing.started_ms, Some(1_776_911_080_000));
}

#[test]
fn resolved_ranges_never_run_backwards() {
    let swapped = resolve_scope(RangePreset::Custom, TimeGranularity::Day, Some(DAY + 5), Some(DAY - 5), None, DAY);
    assert_eq!((swapped.start, swapped.end), (DAY - 5, DAY + 5));
    let last_week = resolve_scope(RangePreset::Days7, TimeGranularity::Day, Some(DAY + 5), None, None, DAY);
    assert_eq!((last_week.start, last_week.end), (DAY - 6, DAY));
    assert_eq!(last_week.total_days(), 7);
    let year = resolve_scope(RangePreset::Days365, TimeGranularity::Month, None, None, Some((DAY - 900, DAY - 800)), DAY);
    assert_eq!(year.end - year.start + 1, 365);
}
