use rescue_codex::activity::OverviewCounts;
use rescue_codex::export::{dashboard_to_csv, dashboard_to_markdown, sessions_to_csv, sessions_to_markdown, OverviewAverages};
use rescue_codex::filters::{session_list_query, RangePreset, SummarySection, TimeGranularity};
use rescue_codex::models::{ExportFormat, SessionListFilters, SessionListResponse, SessionSummary};

fn summary(id: &str, title: Option<&str>, cwd: Option<&str>) -> SessionSummary {
    SessionSummary {
        id: id.to_string(),
        thread_title: title.map(ToOwned::to_owned),
        cwd: cwd.map(ToOwned::to_owned),
        duration_sec: 90,
        turn_count: 3,
        tool_call_count: 4,
        ..Default::default()
    }
}

#[test]
fn session_reports() {
    let response = SessionListResponse {
        total: 2,
        items: vec![summary("a", Some("Fix, \"quoted\""), Some("/w/x")), summary("b", None, None)],
        selected: None,
    };
    assert_eq!(
        sessions_to_markdown(&response),
        "# rescue_codex Sessions\n\nTotal: 2\n\n- Fix, \"quoted\" | /w/x | 3 turns | 90 sec\n- Untitled | Unknown cwd | 3 turns | 90 sec\n"
    );
    let csv = sessions_to_csv(&response).unwrap();
    let mut lines = csv.lines();
    assert_eq!(
        lines.next(),
        Some("id,thread_title,cwd,source,updated_at,started_at,duration_sec,user_message_count,assistant_message_count,tool_call_count,turn_count,warning_count,first_user_message")
    );
    assert_eq!(lines.next(), Some("a,\"Fix, \"\"quoted\"\"\",/w/x,,,,90,0,0,4,3,0,"));
    assert_eq!(lines.next(), Some("b,,,,,,90,0,0,4,3,0,"));
    assert!(csv.ends_with('\n'));
}

#[test]
fn dashboard_reports() {
    let counts = OverviewCounts {
        total_sessions: 3,
        total_questions: 5,
        active_days: 2,
        sessions_last_7_days: 1,
        sessions_last_30_days: 3,
        total_tool_calls: 9,
    };
    let averages = OverviewAverages {
        avg_duration_sec: "12.50".to_string(),
        avg_turn_count: "1.00".to_string(),
        avg_first_response_sec: "2.00".to_string(),
        avg_turn_completion_sec: "0.00".to_string(),
    };
    let md = dashboard_to_markdown(&counts, &averages, &[summary("a", None, Some("/w"))]);
    assert!(md.starts_with("# rescue_codex Dashboard\n\n## Overview\n\n- Total sessions: 3\n- Total questions: 5\n"));
    assert!(md.contains("- Avg duration (sec): 12.50\n- Avg turns: 1.00\n- Tool calls: 9\n\n"));
    assert!(md.ends_with("## Recent Sessions\n\n- Untitled | /w | 3 turns | 4 tools\n"));
    let csv = dashboard_to_csv(&counts, &averages);
    assert!(csv.starts_with("metric,value\ntotal_sessions,3\n"));
    assert!(csv.ends_with("avg_turn_completion_sec,0.00"));
    assert_eq!(csv.lines().count(), 11);
}

#[test]
fn export_extensions() {
    assert_eq!(ExportFormat::Json.extension(), "json");
    assert_eq!(ExportFormat::Markdown.extension(), "md");
    assert_eq!(ExportFormat::Csv.extension(), "csv");
}

#[test]
fn filter_values() {
    assert_eq!(TimeGranularity::from_filter(Some(" WEEK ")), TimeGranularity::Week);
    assert_eq!(TimeGranularity::from_filter(None), TimeGranularity::Day);
    assert_eq!(TimeGranularity::from_filter(Some("fortnight")).as_str(), "day");
    assert_eq!(RangePreset::from_filter(None), RangePreset::Days30);
    assert_eq!(RangePreset::from_filter(Some("All")), RangePreset::All);
    assert_eq!(RangePreset::Days7.days_back(), Some(6));
    assert_eq!(RangePreset::Custom.days_back(), None);
    assert!(SummarySection::from_filter(None).includes_projects());
    assert!(SummarySection::from_filter(Some("search")).includes_search());
    assert!(!SummarySection::from_filter(Some("search")).includes_overview());
}

#[test]
fn session_list_queries() {
    let filters = SessionListFilters {
        query: Some(" bug ".to_string()),
        cwd: Some("   ".to_string()),
        source: Some("cli".to_string()),
        date_from: Some("2026-01-01".to_string()),
        limit: Some(10),
        ..Default::default()
    };
    let q = session_list_query(&filters);
    assert_eq!(q.values, vec!["%bug%", "%bug%", "%bug%", "%cli%", "2026-01-01"]);
    assert_eq!(
        q.count_sql,
        "SELECT COUNT(*) FROM sessions WHERE 1 = 1 AND (thread_title LIKE ? OR cwd LIKE ? OR first_user_message LIKE ?) AND source LIKE ? AND substr(COALESCE(updated_at, started_at, ''), 1, 10) >= ?"
    );
    assert!(q.list_sql.ends_with("LIMIT ? OFFSET ?"));
    assert_eq!(q.limit, 10);
    assert_eq!(q.offset, 0);
    let plain = session_list_query(&SessionListFilters::default());
    assert_eq!(plain.count_sql, "SELECT COUNT(*) FROM sessions WHERE 1 = 1");
    assert_eq!(plain.limit, 25);
    assert!(plain.values.is_empty());
}
