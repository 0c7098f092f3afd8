use rescue_codex::activity::{
    parse_naive_date, scope_to_api,
    activity_points, aggregate_activity, bucket_label, bucket_labels_in_scope, bucket_start, build_daily_activity,
    overview_counts,
};
use rescue_codex::boards::{build_project_windows, build_ranked_turns, recent_sessions, RankedTurnMode};
use rescue_codex::counts::LabelCounts;
use rescue_codex::event_pass::LocalStamp;
use rescue_codex::filters::{RangePreset, TimeGranularity};
use rescue_codex::turns::resolve_scope;
use rescue_codex::models::{SessionSummary, TokenUsageSummary};
use rescue_codex::projects::{build_project_parallelism, build_project_summaries, build_project_timeline, project_options};
use rescue_codex::turn_table::TurnRecord;
use rescue_codex::turns::TurnTiming;

fn session(id: &str, cwd: Option<&str>, updated: Option<&str>, started: Option<&str>, duration: i64) -> SessionSummary {
    SessionSummary {
        id: id.to_string(),
        thread_title: Some(format!("title {id}")),
        cwd: cwd.map(ToOwned::to_owned),
        updated_at: updated.map(ToOwned::to_owned),
        started_at: started.map(ToOwned::to_owned),
        duration_sec: duration,
        turn_count: 1,
        tool_call_count: 2,
        ..Default::default()
    }
}

fn turn(session: &str, user_ms: Option<i64>, total: i64, completed_ms: Option<i64>) -> TurnRecord {
    TurnRecord {
        session_id: session.to_string(),
        timing: TurnTiming { user_ms, completed_ms, ..Default::default() },
        usage: TokenUsageSummary { total_tokens: total, input_tokens: total / 2, ..Default::default() },
        user_text: Some(format!("prompt {session}")),
        ..Default::default()
    }
}

const DAY: i64 = 739729; // 2026-04-23, a Thursday

#[test]
fn ranked_turns_by_tokens() {
    let sessions = vec![session("s1", Some("/w/alpha"), None, None, 10), session("s2", None, None, None, 10)];
    let turns = vec![
        turn("s2", Some(1_000), 50, None),
        turn("s1", Some(2_000), 80, None),
        turn("s1", None, 500, None),
        turn("s1", Some(3_000), 0, None),
        turn("s0", Some(4_000), 50, None),
    ];
    let ranked = build_ranked_turns(&turns, &sessions, RankedTurnMode::ByTokens, 10);
    let ids: Vec<(&str, i64)> = ranked.iter().map(|r| (r.session_id.as_str(), r.total_tokens)).collect();
    assert_eq!(ids, vec![("s1", 80), ("s0", 50), ("s2", 50)]);
    assert_eq!(ranked[0].project, "alpha");
    assert_eq!(ranked[0].thread_title.as_deref(), Some("title s1"));
    assert_eq!(ranked[0].timestamp.as_deref(), Some("1970-01-01T00:00:02+00:00"));
    assert_eq!(ranked[1].project, "Unknown");
    assert_eq!(ranked[1].thread_title, None);
    let top = build_ranked_turns(&turns, &sessions, RankedTurnMode::ByTokens, 1);
    assert_eq!(top.len(), 1);
}

#[test]
fn ranked_turns_by_completion() {
    let sessions = vec![];
    let turns = vec![
        turn("a", Some(0), 10, Some(5_000)),
        turn("b", Some(0), 20, Some(9_000)),
        turn("c", Some(0), 30, None),
    ];
    let ranked = build_ranked_turns(&turns, &sessions, RankedTurnMode::ByCompletionLatency, 10);
    let ids: Vec<(&str, Option<i64>)> = ranked.iter().map(|r| (r.session_id.as_str(), r.completion_sec)).collect();
    assert_eq!(ids, vec![("b", Some(9)), ("a", Some(5))]);
}

#[test]
fn project_windows_rank_sessions_by_tokens() {
    let sessions = vec![
        session("s1", Some("/w/alpha"), None, None, 100),
        session("s2", Some("/w/beta"), None, None, 300),
        session("s3", Some("/w/beta"), None, None, 200),
    ];
    let turns = vec![turn("s1", Some(1), 10, None), turn("s1", Some(2), 5, None), turn("s1", None, 99, None)];
    let windows = build_project_windows(&sessions, &turns, 12);
    let ids: Vec<(&str, i64, i64)> = windows.iter().map(|w| (w.session_id.as_str(), w.total_tokens, w.question_count)).collect();
    assert_eq!(ids, vec![("s1", 15, 2), ("s2", 0, 0), ("s3", 0, 0)]);
    assert_eq!(windows[1].project, "beta");
}

#[test]
fn recent_sessions_come_latest_first() {
    let sessions = vec![
        session("old", None, Some("2026-01-01T00:00:00Z"), None, 0),
        session("none", None, None, None, 0),
        session("new", None, None, Some("2026-03-01T00:00:00Z"), 0),
        session("mid", None, Some("2026-02-01T00:00:00Z"), None, 0),
    ];
    let recent = recent_sessions(&sessions, 8);
    let ids: Vec<&str> = recent.iter().map(|s| s.id.as_str()).collect();
    assert_eq!(ids, vec!["new", "mid", "old", "none"]);
    assert_eq!(recent_sessions(&sessions, 2).len(), 2);
}

#[test]
fn project_options_are_sorted_first_labels() {
    let cwds = vec![
        "/home/u/Zeta".to_string(),
        r"C:\work\alpha".to_string(),
        "/other/ALPHA".to_string(),
        "".to_string(),
        "/x/beta/".to_string(),
    ];
    assert_eq!(project_options(&cwds), vec!["Zeta", "alpha", "beta"]);
}

#[test]
fn project_timeline_counts_questions_of_top_projects() {
    let sessions = vec![session("s1", Some("/w/alpha"), None, None, 0), session("s2", Some("/w/beta"), None, None, 0)];
    let stamp = |b: &str| Some(LocalStamp { day: DAY, hour: 1, bucket: b.to_string() });
    let turns = vec![turn("s1", Some(1), 1, None), turn("s2", Some(2), 1, None), turn("s1", Some(3), 1, None), turn("s1", None, 1, None)];
    let stamps = vec![stamp("d1"), stamp("d2"), stamp("d2"), stamp("d2")];
    let rows = build_project_timeline(&sessions, &turns, &stamps, &["d1".to_string(), "d2".to_string()]);
    let got: Vec<(String, String, i64)> = rows.iter().map(|r| (r.bucket.clone(), r.category.clone(), r.value)).collect();
    assert_eq!(
        got,
        vec![
            ("d1".to_string(), "alpha".to_string(), 1),
            ("d1".to_string(), "beta".to_string(), 0),
            ("d2".to_string(), "alpha".to_string(), 1),
            ("d2".to_string(), "beta".to_string(), 1),
        ]
    );
}

#[test]
fn parallel_windows_per_project() {
    let sessions = vec![
        session("a", Some("/w/p"), Some("2026-01-01T02:00:00Z"), Some("2026-01-01T00:00:00Z"), 0),
        session("b", Some("/w/p"), None, Some("2026-01-01T01:00:00Z"), 7200),
        session("c", Some("/w/p"), Some("2026-01-01T05:00:00Z"), Some("2026-01-01T04:00:00Z"), 0),
        session("d", Some("/w/q"), None, Some("bad"), 0),
        session("e", Some("/w/r"), Some("2026-01-01T00:00:00Z"), Some("2026-01-01T01:00:00Z"), 0),
    ];
    let chart = build_project_parallelism(&sessions, 12);
    let got: Vec<(String, i64)> = chart.iter().map(|d| (d.label.clone(), d.value)).collect();
    assert_eq!(got, vec![("p".to_string(), 2), ("r".to_string(), 0)]);
}

#[test]
fn project_summaries_add_up_sessions_and_turns() {
    let sessions = vec![
        session("s1", Some("/w/alpha"), None, Some("2026-01-01T00:00:00Z"), 60),
        session("s2", Some("/w/alpha"), None, Some("2026-01-01T00:00:30Z"), 60),
        session("s3", Some("/w/beta"), None, None, 0),
    ];
    let mut t = turn("s1", Some(0), 100, Some(4_000));
    t.timing.first_assistant_ms = Some(2_000);
    let turns = vec![t, turn("s3", Some(0), 10, None)];
    let mut compactions = LabelCounts::new();
    compactions.increment("gamma", 2);
    let summaries = build_project_summaries(&sessions, &turns, &compactions, 12);
    let labels: Vec<&str> = summaries.iter().map(|s| s.label.as_str()).collect();
    assert_eq!(labels, vec!["alpha", "beta", "gamma"]);
    let alpha = &summaries[0];
    assert_eq!(alpha.session_count, 2);
    assert_eq!(alpha.question_count, 1);
    assert_eq!(alpha.total_tokens, 100);
    assert_eq!(alpha.first_response_total, 2);
    assert_eq!(alpha.first_response_samples, 1);
    assert_eq!(alpha.completion_total, 4);
    assert_eq!(alpha.max_parallel_windows, 2);
    assert_eq!(summaries[2].context_compactions, 2);
    assert_eq!(summaries[2].session_count, 0);
    assert_eq!(build_project_summaries(&sessions, &turns, &compactions, 1).len(), 1);
}

#[test]
fn buckets_follow_the_calendar() {
    assert_eq!(bucket_start(DAY, TimeGranularity::Day), DAY);
    assert_eq!(bucket_start(DAY, TimeGranularity::Week), DAY - 3);
    assert_eq!(bucket_start(DAY, TimeGranularity::Month), 739707);
    assert_eq!(bucket_start(DAY, TimeGranularity::Year), 739617);
    assert_eq!(bucket_label(DAY, TimeGranularity::Day), "2026-04-23");
    assert_eq!(bucket_label(DAY - 3, TimeGranularity::Week), "Wk 2026-04-20");
    assert_eq!(bucket_label(DAY, TimeGranularity::Month), "2026-04");
    assert_eq!(bucket_label(DAY, TimeGranularity::Year), "2026");
    assert_eq!(bucket_labels_in_scope(DAY - 4, DAY + 4, TimeGranularity::Week), vec!["Wk 2026-04-13", "Wk 2026-04-20", "Wk 2026-04-27"]);
    assert_eq!(bucket_labels_in_scope(DAY, DAY, TimeGranularity::Day), vec!["2026-04-23"]);
    assert!(bucket_labels_in_scope(DAY, DAY - 1, TimeGranularity::Day).is_empty());
}

#[test]
fn daily_activity_and_its_aggregation() {
    let mut t1 = turn("s", Some(0), 1, Some(10_000));
    t1.timing.first_assistant_ms = Some(3_000);
    let t2 = turn("s", Some(0), 1, Some(4_000));
    let t3 = turn("s", None, 1, None);
    let turns = vec![t1, t2, t3];
    let turn_days = vec![Some(DAY), Some(DAY + 1), Some(DAY)];
    let session_days = vec![DAY, DAY, DAY + 5];
    let daily = build_daily_activity(DAY - 1, DAY + 1, &session_days, &turns, &turn_days);
    assert_eq!(daily.len(), 3);
    assert_eq!(daily[1].sessions, 2);
    assert_eq!(daily[1].questions, 1);
    assert_eq!(daily[1].first_response_total, 3);
    assert_eq!(daily[2].completion_total, 4);
    let points = activity_points(&daily);
    assert_eq!(points[1].date, "2026-04-23");
    assert_eq!(points[1].avg_first_response_sec, 3);
    assert_eq!(points[1].avg_turn_completion_sec, 10);
    let weekly = aggregate_activity(&daily, TimeGranularity::Week);
    assert_eq!(weekly.len(), 1);
    assert_eq!(weekly[0].date, "Wk 2026-04-20");
    assert_eq!(weekly[0].sessions, 2);
    assert_eq!(weekly[0].questions, 2);
    assert_eq!(weekly[0].avg_turn_completion_sec, 7);
    assert_eq!(aggregate_activity(&daily, TimeGranularity::Day).len(), 3);
    assert!(build_daily_activity(DAY, DAY - 1, &session_days, &turns, &turn_days).is_empty());
}

#[test]
fn overview_counts_of_sessions_and_turns() {
    let days = vec![DAY, DAY, DAY - 10, DAY - 40];
    let turns = vec![turn("s", Some(1), 1, None), turn("s", None, 1, None)];
    let c = overview_counts(&days, &[1, 2, 3], &turns, DAY + 100);
    assert_eq!(c.total_sessions, 4);
    assert_eq!(c.active_days, 3);
    assert_eq!(c.sessions_last_7_days, 2);
    assert_eq!(c.sessions_last_30_days, 3);
    assert_eq!(c.total_questions, 1);
    assert_eq!(c.total_tool_calls, 6);
    let empty = overview_counts(&[], &[], &[], DAY);
    assert_eq!(empty.sessions_last_7_days, 0);
    assert_eq!(empty.active_days, 0);
}

#[test]
fn scopes_are_shown_with_dates() {
    assert_eq!(parse_naive_date("2026-04-23"), Some(DAY));
    assert_eq!(parse_naive_date("2026-13-01"), None);
    let scope = resolve_scope(RangePreset::Days7, TimeGranularity::Week, None, None, Some((DAY - 20, DAY - 2)), DAY);
    let shown = scope_to_api(&scope);
    assert_eq!(shown.preset, "7d");
    assert_eq!(shown.granularity, "week");
    assert_eq!(shown.date_from, "2026-04-17");
    assert_eq!(shown.date_to, "2026-04-23");
    assert_eq!(shown.available_to.as_deref(), Some("2026-04-21"));
    assert_eq!(shown.total_days, 7);
}
