use rescue_codex::charts::{
    build_completion_buckets, build_duration_buckets, build_first_response_buckets, build_prompt_composition,
    build_prompt_length_buckets, build_question_hours, build_search_hours, build_transport_signals,
    build_workspace_switches,
};
use rescue_codex::counts::{text_less, top_chart_data, top_chart_data_with_min_count, top_labels, LabelCounts};
use rescue_codex::models::ChartDatum;
use rescue_codex::timeline::{build_breakdown_series, build_dense_breakdown_series, increment_breakdown, Timeline};

fn pairs(chart: &[ChartDatum]) -> Vec<(String, i64)> {
    chart.iter().map(|d| (d.label.clone(), d.value)).collect()
}

fn counts(entries: &[(&str, i64)]) -> LabelCounts {
    let mut c = LabelCounts::new();
    for (label, n) in entries {
        c.increment(label, *n);
    }
    c
}

#[test]
fn top_charts_order_by_count_then_label() {
    let c = counts(&[("b", 2), ("a", 2), ("c", 5), ("d", 1), ("e", 0)]);
    assert_eq!(
        pairs(&top_chart_data(&c, 10)),
        vec![("c".to_string(), 5), ("a".to_string(), 2), ("b".to_string(), 2), ("d".to_string(), 1)]
    );
    assert_eq!(pairs(&top_chart_data(&c, 2)), vec![("c".to_string(), 5), ("a".to_string(), 2)]);
    assert_eq!(pairs(&top_chart_data_with_min_count(&c, 10, 2)).len(), 3);
    assert_eq!(top_labels(&c, 10), vec!["c", "a", "b", "d", "e"]);
    assert!(top_chart_data(&c, 0).is_empty());
}

#[test]
fn top_charts_do_not_depend_on_counting_order() {
    let one = counts(&[("x", 1), ("y", 3), ("x", 2), ("z", 3)]);
    let two = counts(&[("z", 3), ("x", 3), ("y", 3)]);
    assert_eq!(pairs(&top_chart_data(&one, 10)), pairs(&top_chart_data(&two, 10)));
}

#[test]
fn label_counts_read_back_what_was_counted() {
    let mut c = LabelCounts::new();
    assert_eq!(c.get("a"), 0);
    assert!(!c.contains("a"));
    c.increment("a", 3);
    c.increment("a", 4);
    c.increment("b", 0);
    assert_eq!(c.get("a"), 7);
    assert_eq!(c.get("b"), 0);
    assert!(c.contains("b"));
    assert!(c.all_at_most(7));
    assert!(!c.all_at_most(6));
    let mut labels = c.labels();
    labels.sort();
    assert_eq!(labels, vec!["a", "b"]);
}

#[test]
fn texts_compare_like_str() {
    assert!(text_less("a", "b"));
    assert!(text_less("a", "ab"));
    assert!(!text_less("b", "a"));
    assert!(!text_less("a", "a"));
    assert!(text_less("Z", "a"));
}

#[test]
fn buckets_of_durations_and_latencies() {
    let d = build_duration_buckets(&[0, 299, 300, 900, 3600, 10_800, -5]);
    assert_eq!(
        pairs(&d),
        vec![
            ("< 5m".to_string(), 2),
            ("5-15m".to_string(), 1),
            ("15-60m".to_string(), 1),
            ("1-3h".to_string(), 1),
            ("> 3h".to_string(), 2),
        ]
    );
    let f = build_first_response_buckets(&[1, 3, 11, 31, 61, 181]);
    assert_eq!(f.iter().map(|x| x.value).collect::<Vec<_>>(), vec![1, 1, 1, 1, 1, 1]);
    assert_eq!(f[0].label, "< 3s");
    let c = build_completion_buckets(&[]);
    assert!(c.iter().all(|x| x.value == 0));
    let p = build_prompt_length_buckets(&[0, 10, 5000]);
    assert_eq!(p.iter().map(|x| x.value).sum::<i64>(), 3);
}

#[test]
fn hour_charts_have_twenty_four_hours() {
    let q = build_question_hours(&[0, 9, 9, 23]);
    assert_eq!(q.len(), 24);
    assert_eq!(q[0].label, "00");
    assert_eq!(q[9].value, 2);
    assert_eq!(q[23].label, "23");
    let mut hours = [0i64; 24];
    hours[5] = 4;
    let s = build_search_hours(&hours);
    assert_eq!(s[5].value, 4);
    assert_eq!(s[5].label, "05");
}

#[test]
fn fixed_charts() {
    assert_eq!(
        pairs(&build_prompt_composition(4, 1, 2, 3, 4)),
        vec![
            ("With code".to_string(), 25),
            ("With path".to_string(), 50),
            ("With command".to_string(), 75),
            ("Path or command".to_string(), 100),
        ]
    );
    assert_eq!(pairs(&build_prompt_composition(0, 0, 0, 0, 0))[0].1, 0);
    assert_eq!(pairs(&build_transport_signals(1, 2, 3))[2], ("Transport error".to_string(), 3));
    assert_eq!(pairs(&build_workspace_switches(4, 5)), vec![("Project switch".to_string(), 4), ("Workspace switch".to_string(), 5)]);
}

#[test]
fn timelines_keep_buckets_in_order() {
    let mut t = Timeline::new();
    increment_breakdown(&mut t, "2026-02".to_string(), "a", 1);
    increment_breakdown(&mut t, "2026-01".to_string(), "b", 2);
    increment_breakdown(&mut t, "2026-02".to_string(), "a", 3);
    assert_eq!(t.count("2026-02", "a"), 4);
    assert_eq!(t.count("2026-01", "a"), 0);
    let series = build_breakdown_series(&t, &["a".to_string(), "b".to_string()]);
    let rows: Vec<(String, String, i64)> = series.iter().map(|d| (d.bucket.clone(), d.category.clone(), d.value)).collect();
    assert_eq!(
        rows,
        vec![
            ("2026-01".to_string(), "a".to_string(), 0),
            ("2026-01".to_string(), "b".to_string(), 2),
            ("2026-02".to_string(), "a".to_string(), 4),
            ("2026-02".to_string(), "b".to_string(), 0),
        ]
    );
    let dense = build_dense_breakdown_series(&t, &["a".to_string()], &["2026-03".to_string(), "2026-02".to_string()]);
    assert_eq!(dense.iter().map(|d| d.value).collect::<Vec<_>>(), vec![0, 4]);
}
