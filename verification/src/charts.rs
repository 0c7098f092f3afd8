//! The fixed-shape charts of the dashboard: latency, duration and length histograms, the
//! hour-of-day charts, and the small charts of named counts.
use crate::counts::entry_of;
use crate::models::ChartDatum;
use crate::numbers::{percent, percent_of, two_digit_text, two_digits};
use vstd::prelude::*;

verus! {

/// How many of `indices` are `b`.
pub open spec fn occurrences(indices: Seq<int>, b: int) -> int
    decreases indices.len(),
{
    if indices.len() == 0 {
        0
    } else {
        occurrences(indices.drop_last(), b) + if indices.last() == b {
            1int
        } else {
            0int
        }
    }
}

proof fn lemma_occurrences_bound(indices: Seq<int>, b: int)
    ensures
        0 <= occurrences(indices, b) <= indices.len(),
    decreases indices.len(),
{
    if indices.len() > 0 {
        lemma_occurrences_bound(indices.drop_last(), b);
    }
}

/// The chart that pairs each label with its count.
pub open spec fn labelled(labels: Seq<Seq<char>>, counts: Seq<int>) -> Seq<(Seq<char>, i64)> {
    Seq::new(labels.len(), |i: int| (labels[i], counts[i] as i64))
}

/// The entries of a chart.
pub open spec fn chart_entries(r: Seq<ChartDatum>) -> Seq<(Seq<char>, i64)> {
    r.map_values(|d: ChartDatum| entry_of(d))
}

/// How many values fall in each of `n` buckets, given each value's bucket.
fn tally(indices: &Vec<usize>, n: usize) -> (r: Vec<i64>)
    requires
        forall|i: int| 0 <= i < indices@.len() ==> indices@[i] < n,
        indices@.len() <= i64::MAX,
    ensures
        r@.len() == n,
        forall|b: int| 0 <= b < n ==> r@[b] == occurrences(indices@.map_values(|x: usize| x as int), b),
{
    let ghost ix = indices@.map_values(|x: usize| x as int);
    let mut r: Vec<i64> = Vec::new();
    let mut b: usize = 0;
    while b < n
        invariant
            b <= n,
            r@.len() == b,
            forall|c: int| 0 <= c < b ==> r@[c] == 0,
        decreases n - b,
    {
        r.push(0);
        b += 1;
    }
    let mut i: usize = 0;
    while i < indices.len()
        invariant
            i <= indices@.len(),
            indices@.len() <= i64::MAX,
            forall|k: int| 0 <= k < indices@.len() ==> indices@[k] < n,
            ix == indices@.map_values(|x: usize| x as int),
            r@.len() == n,
            forall|c: int| 0 <= c < n ==> r@[c] == occurrences(ix.take(i as int), c),
        decreases indices.len() - i,
    {
        let k = indices[i];
        assert(ix.take(i as int + 1).drop_last() == ix.take(i as int));
        assert(ix.take(i as int + 1).last() == k as int);
        proof {
            lemma_occurrences_bound(ix.take(i as int), k as int);
        }
        let v = r[k] + 1;
        r.set(k, v);
        i += 1;
    }
    assert(ix.take(indices@.len() as int) == ix);
    r
}

fn chart(labels: Vec<&'static str>, counts: &Vec<i64>) -> (r: Vec<ChartDatum>)
    requires
        labels@.len() == counts@.len(),
    ensures
        chart_entries(r@) == labelled(labels@.map_values(|s: &str| s@), counts@.map_values(|c: i64| c as int)),
{
    let ghost ls = labels@.map_values(|s: &str| s@);
    let ghost cs = counts@.map_values(|c: i64| c as int);
    let mut r: Vec<ChartDatum> = Vec::new();
    let mut i: usize = 0;
    while i < labels.len()
        invariant
            i <= labels@.len(),
            labels@.len() == counts@.len(),
            ls == labels@.map_values(|s: &str| s@),
            cs == counts@.map_values(|c: i64| c as int),
            chart_entries(r@) == labelled(ls, cs).take(i as int),
        decreases labels.len() - i,
    {
        r.push(ChartDatum { label: labels[i].to_owned(), value: counts[i] });
        assert(labelled(ls, cs).take(i as int + 1) == labelled(ls, cs).take(i as int).push((ls[i as int], counts@[i as int])));
        assert(chart_entries(r@) == labelled(ls, cs).take(i as int + 1));
        i += 1;
    }
    assert(labelled(ls, cs).take(labels@.len() as int) == labelled(ls, cs));
    r
}

/// The bucket of a session duration in seconds; durations outside the listed ranges go to the
/// last bucket.
pub open spec fn duration_bucket(d: int) -> int {
    if 0 <= d <= 299 {
        0
    } else if 300 <= d <= 899 {
        1
    } else if 900 <= d <= 3599 {
        2
    } else if 3600 <= d <= 10_799 {
        3
    } else {
        4
    }
}

/// The labels of the duration chart.
pub open spec fn duration_labels() -> Seq<Seq<char>> {
    seq!["< 5m"@, "5-15m"@, "15-60m"@, "1-3h"@, "> 3h"@]
}

/// How many of the values fall in each of `n` buckets, given the bucket of each value.
pub open spec fn per_bucket(buckets: Seq<int>, n: int) -> Seq<int> {
    Seq::new(n as nat, |b: int| occurrences(buckets, b))
}

/// The session durations, in seconds, counted in five ranges.
pub fn build_duration_buckets(durations: &[i64]) -> (r: Vec<ChartDatum>)
    requires
        durations@.len() <= i64::MAX,
    ensures
        chart_entries(r@) == labelled(
            duration_labels(),
            per_bucket(durations@.map_values(|d: i64| duration_bucket(d as int)), 5),
        ),
{
    let mut indices: Vec<usize> = Vec::new();
    let mut i: usize = 0;
    while i < durations.len()
        invariant
            i <= durations@.len(),
            indices@.len() == i,
            forall|k: int| 0 <= k < i ==> indices@[k] < 5 && indices@[k] as int == duration_bucket(durations@[k] as int),
        decreases durations.len() - i,
    {
        let d = durations[i];
        let b: usize = if 0 <= d && d <= 299 {
            0
        } else if 300 <= d && d <= 899 {
            1
        } else if 900 <= d && d <= 3599 {
            2
        } else if 3600 <= d && d <= 10_799 {
            3
        } else {
            4
        };
        indices.push(b);
        i += 1;
    }
    let counts = tally(&indices, 5);
    let labels = vec!["< 5m", "5-15m", "15-60m", "1-3h", "> 3h"];
    let r = chart(labels, &counts);
    proof {
        let buckets = durations@.map_values(|d: i64| duration_bucket(d as int));
        assert(indices@.map_values(|x: usize| x as int) =~= buckets);
        assert(counts@.map_values(|c: i64| c as int) =~= per_bucket(buckets, 5));
        assert(labels@.map_values(|s: &str| s@) =~= duration_labels());
    }
    r
}

/// The bucket of the seconds until the first response.
pub open spec fn first_response_bucket(s: int) -> int {
    if 0 <= s <= 2 {
        0
    } else if 3 <= s <= 10 {
        1
    } else if 11 <= s <= 30 {
        2
    } else if 31 <= s <= 60 {
        3
    } else if 61 <= s <= 180 {
        4
    } else {
        5
    }
}

/// The labels of the first-response chart.
pub open spec fn first_response_labels() -> Seq<Seq<char>> {
    seq!["< 3s"@, "3-10s"@, "10-30s"@, "30-60s"@, "1-3m"@, "> 3m"@]
}

/// The seconds until the first response of each turn that had one, counted in six ranges.
pub fn build_first_response_buckets(latencies: &[i64]) -> (r: Vec<ChartDatum>)
    requires
        latencies@.len() <= i64::MAX,
    ensures
        chart_entries(r@) == labelled(
            first_response_labels(),
            per_bucket(latencies@.map_values(|s: i64| first_response_bucket(s as int)), 6),
        ),
{
    let mut indices: Vec<usize> = Vec::new();
    let mut i: usize = 0;
    while i < latencies.len()
        invariant
            i <= latencies@.len(),
            indices@.len() == i,
            forall|k: int| 0 <= k < i ==> indices@[k] < 6 && indices@[k] as int == first_response_bucket(latencies@[k] as int),
        decreases latencies.len() - i,
    {
        let s = latencies[i];
        let b: usize = if 0 <= s && s <= 2 {
            0
        } else if 3 <= s && s <= 10 {
            1
        } else if 11 <= s && s <= 30 {
            2
        } else if 31 <= s && s <= 60 {
            3
        } else if 61 <= s && s <= 180 {
            4
        } else {
            5
        };
        indices.push(b);
        i += 1;
    }
    let counts = tally(&indices, 6);
    let labels = vec!["< 3s", "3-10s", "10-30s", "30-60s", "1-3m", "> 3m"];
    let r = chart(labels, &counts);
    proof {
        let buckets = latencies@.map_values(|s: i64| first_response_bucket(s as int));
        assert(indices@.map_values(|x: usize| x as int) =~= buckets);
        assert(counts@.map_values(|c: i64| c as int) =~= per_bucket(buckets, 6));
        assert(labels@.map_values(|s: &str| s@) =~= first_response_labels());
    }
    r
}

/// The bucket of the seconds a turn took to complete.
pub open spec fn completion_bucket(s: int) -> int {
    if 0 <= s <= 9 {
        0
    } else if 10 <= s <= 30 {
        1
    } else if 31 <= s <= 60 {
        2
    } else if 61 <= s <= 180 {
        3
    } else if 181 <= s <= 600 {
        4
    } else {
        5
    }
}

/// The labels of the completion chart.
pub open spec fn completion_labels() -> Seq<Seq<char>> {
    seq!["< 10s"@, "10-30s"@, "30-60s"@, "1-3m"@, "3-10m"@, "> 10m"@]
}

/// The seconds each completed turn took, counted in six ranges.
pub fn build_completion_buckets(latencies: &[i64]) -> (r: Vec<ChartDatum>)
    requires
        latencies@.len() <= i64::MAX,
    ensures
        chart_entries(r@) == labelled(
            completion_labels(),
            per_bucket(latencies@.map_values(|s: i64| completion_bucket(s as int)), 6),
        ),
{
    let mut indices: Vec<usize> = Vec::new();
    let mut i: usize = 0;
    while i < latencies.len()
        invariant
            i <= latencies@.len(),
            indices@.len() == i,
            forall|k: int| 0 <= k < i ==> indices@[k] < 6 && indices@[k] as int == completion_bucket(latencies@[k] as int),
        decreases latencies.len() - i,
    {
        let s = latencies[i];
        let b: usize = if 0 <= s && s <= 9 {
            0
        } else if 10 <= s && s <= 30 {
            1
        } else if 31 <= s && s <= 60 {
            2
        } else if 61 <= s && s <= 180 {
            3
        } else if 181 <= s && s <= 600 {
            4
        } else {
            5
        };
        indices.push(b);
        i += 1;
    }
    let counts = tally(&indices, 6);
    let labels = vec!["< 10s", "10-30s", "30-60s", "1-3m", "3-10m", "> 10m"];
    let r = chart(labels, &counts);
    proof {
        let buckets = latencies@.map_values(|s: i64| completion_bucket(s as int));
        assert(indices@.map_values(|x: usize| x as int) =~= buckets);
        assert(counts@.map_values(|c: i64| c as int) =~= per_bucket(buckets, 6));
        assert(labels@.map_values(|s: &str| s@) =~= completion_labels());
    }
    r
}

/// The bucket of a prompt length in characters.
pub open spec fn prompt_length_bucket(n: int) -> int {
    if n <= 39 {
        0
    } else if n <= 120 {
        1
    } else if n <= 300 {
        2
    } else if n <= 800 {
        3
    } else {
        4
    }
}

/// The labels of the prompt-length chart.
pub open spec fn prompt_length_labels() -> Seq<Seq<char>> {
    seq!["< 40"@, "40-120"@, "120-300"@, "300-800"@, "> 800"@]
}

/// The lengths of the prompts, in characters, counted in five ranges.
pub fn build_prompt_length_buckets(lengths: &[usize]) -> (r: Vec<ChartDatum>)
    requires
        lengths@.len() <= i64::MAX,
    ensures
        chart_entries(r@) == labelled(
            prompt_length_labels(),
            per_bucket(lengths@.map_values(|n: usize| prompt_length_bucket(n as int)), 5),
        ),
{
    let mut indices: Vec<usize> = Vec::new();
    let mut i: usize = 0;
    while i < lengths.len()
        invariant
            i <= lengths@.len(),
            indices@.len() == i,
            forall|k: int| 0 <= k < i ==> indices@[k] < 5 && indices@[k] as int == prompt_length_bucket(lengths@[k] as int),
        decreases lengths.len() - i,
    {
        let n = lengths[i];
        let b: usize = if n <= 39 {
            0
        } else if n <= 120 {
            1
        } else if n <= 300 {
            2
        } else if n <= 800 {
            3
        } else {
            4
        };
        indices.push(b);
        i += 1;
    }
    let counts = tally(&indices, 5);
    let labels = vec!["< 40", "40-120", "120-300", "300-800", "> 800"];
    let r = chart(labels, &counts);
    proof {
        let buckets = lengths@.map_values(|n: usize| prompt_length_bucket(n as int));
        assert(indices@.map_values(|x: usize| x as int) =~= buckets);
        assert(counts@.map_values(|c: i64| c as int) =~= per_bucket(buckets, 5));
        assert(labels@.map_values(|s: &str| s@) =~= prompt_length_labels());
    }
    r
}

/// The labels of the hour charts: `00` to `23`.
pub open spec fn hour_labels() -> Seq<Seq<char>> {
    Seq::new(24, |h: int| two_digits(h as nat))
}

/// A chart of one count per hour of the day, labelled `00` to `23`.
fn hour_chart(counts: &[i64]) -> (r: Vec<ChartDatum>)
    requires
        counts@.len() == 24,
    ensures
        chart_entries(r@) == labelled(hour_labels(), counts@.map_values(|c: i64| c as int)),
{
    let ghost cs = counts@.map_values(|c: i64| c as int);
    let mut r: Vec<ChartDatum> = Vec::new();
    let mut h: usize = 0;
    while h < 24
        invariant
            h <= 24,
            counts@.len() == 24,
            cs == counts@.map_values(|c: i64| c as int),
            chart_entries(r@) == labelled(hour_labels(), cs).take(h as int),
        decreases 24 - h,
    {
        let label = two_digit_text(h as u64);
        r.push(ChartDatum { label, value: counts[h] });
        assert(labelled(hour_labels(), cs).take(h as int + 1) == labelled(hour_labels(), cs).take(h as int).push(
            (two_digits(h as nat), counts@[h as int]),
        ));
        assert(chart_entries(r@) == labelled(hour_labels(), cs).take(h as int + 1));
        h += 1;
    }
    assert(labelled(hour_labels(), cs).take(24) == labelled(hour_labels(), cs));
    r
}

/// The questions asked in each hour of the day, given the local hour of each question.
pub fn build_question_hours(hours: &[u32]) -> (r: Vec<ChartDatum>)
    requires
        forall|i: int| 0 <= i < hours@.len() ==> hours@[i] < 24,
        hours@.len() <= i64::MAX,
    ensures
        chart_entries(r@) == labelled(hour_labels(), per_bucket(hours@.map_values(|h: u32| h as int), 24)),
{
    let mut indices: Vec<usize> = Vec::new();
    let mut i: usize = 0;
    while i < hours.len()
        invariant
            i <= hours@.len(),
            forall|k: int| 0 <= k < hours@.len() ==> hours@[k] < 24,
            indices@.len() == i,
            forall|k: int| 0 <= k < i ==> indices@[k] as int == hours@[k] as int,
        decreases hours.len() - i,
    {
        indices.push(hours[i] as usize);
        i += 1;
    }
    let counts = tally(&indices, 24);
    let r = hour_chart(counts.as_slice());
    proof {
        let buckets = hours@.map_values(|h: u32| h as int);
        assert(indices@.map_values(|x: usize| x as int) =~= buckets);
        assert(counts@.map_values(|c: i64| c as int) =~= per_bucket(buckets, 24));
    }
    r
}

/// The web searches made in each hour of the day.
pub fn build_search_hours(search_hours: &[i64; 24]) -> (r: Vec<ChartDatum>)
    ensures
        chart_entries(r@) == labelled(hour_labels(), search_hours@.map_values(|c: i64| c as int)),
{
    hour_chart(search_hours.as_slice())
}

/// The share of the questions whose prompt holds code, a path, a command, and a path or a
/// command, each as a whole percentage.
pub fn build_prompt_composition(
    total_questions: i64,
    with_code: i64,
    with_path: i64,
    with_command: i64,
    with_path_or_command: i64,
) -> (r: Vec<ChartDatum>)
    requires
        0 <= with_code <= i64::MAX / 100,
        0 <= with_path <= i64::MAX / 100,
        0 <= with_command <= i64::MAX / 100,
        0 <= with_path_or_command <= i64::MAX / 100,
    ensures
        chart_entries(r@) == seq![
            ("With code"@, percent_of(with_code as int, total_questions as int) as i64),
            ("With path"@, percent_of(with_path as int, total_questions as int) as i64),
            ("With command"@, percent_of(with_command as int, total_questions as int) as i64),
            ("Path or command"@, percent_of(with_path_or_command as int, total_questions as int) as i64),
        ],
{
    let mut r: Vec<ChartDatum> = Vec::new();
    r.push(ChartDatum { label: "With code".to_owned(), value: percent(with_code, total_questions) });
    r.push(ChartDatum { label: "With path".to_owned(), value: percent(with_path, total_questions) });
    r.push(ChartDatum { label: "With command".to_owned(), value: percent(with_command, total_questions) });
    r.push(ChartDatum { label: "Path or command".to_owned(), value: percent(with_path_or_command, total_questions) });
    assert(chart_entries(r@) =~= seq![
        ("With code"@, percent_of(with_code as int, total_questions as int) as i64),
        ("With path"@, percent_of(with_path as int, total_questions as int) as i64),
        ("With command"@, percent_of(with_command as int, total_questions as int) as i64),
        ("Path or command"@, percent_of(with_path_or_command as int, total_questions as int) as i64),
    ]);
    r
}

/// The chart of transport signals: reconnects, retries and transport errors.
pub fn build_transport_signals(reconnects: i64, retries: i64, transport_errors: i64) -> (r: Vec<ChartDatum>)
    ensures
        chart_entries(r@) == seq![("Reconnect"@, reconnects), ("Retry"@, retries), ("Transport error"@, transport_errors)],
{
    let mut r: Vec<ChartDatum> = Vec::new();
    r.push(ChartDatum { label: "Reconnect".to_owned(), value: reconnects });
    r.push(ChartDatum { label: "Retry".to_owned(), value: retries });
    r.push(ChartDatum { label: "Transport error".to_owned(), value: transport_errors });
    assert(chart_entries(r@) =~= seq![("Reconnect"@, reconnects), ("Retry"@, retries), ("Transport error"@, transport_errors)]);
    r
}

/// The chart of switches between projects and between workspaces.
pub fn build_workspace_switches(project_switches: i64, workspace_switches: i64) -> (r: Vec<ChartDatum>)
    ensures
        chart_entries(r@) == seq![("Project switch"@, project_switches), ("Workspace switch"@, workspace_switches)],
{
    let mut r: Vec<ChartDatum> = Vec::new();
    r.push(ChartDatum { label: "Project switch".to_owned(), value: project_switches });
    r.push(ChartDatum { label: "Workspace switch".to_owned(), value: workspace_switches });
    assert(chart_entries(r@) =~= seq![("Project switch"@, project_switches), ("Workspace switch"@, workspace_switches)]);
    r
}


/// Counting each value's bucket is counting the values that a predicate picks, where the
/// predicate picks exactly the values of that bucket.
proof fn lemma_bucket_counts<A>(xs: Seq<A>, f: spec_fn(A) -> int, b: int, pred: spec_fn(A) -> bool)
    requires
        forall|x: A| #[trigger] pred(x) == (f(x) == b),
    ensures
        occurrences(xs.map_values(f), b) == xs.filter(pred).len(),
    decreases xs.len(),
{
    reveal(Seq::filter);
    if xs.len() > 0 {
        lemma_bucket_counts(xs.drop_last(), f, b, pred);
        assert(pred(xs.last()) == (f(xs.last()) == b));
        assert(xs.map_values(f).drop_last() =~= xs.drop_last().map_values(f));
        assert(xs.map_values(f).last() == f(xs.last()));
    }
}

/// The duration chart counts, under each label, the sessions whose duration in seconds lies in
/// the range the label names: under 5 minutes, 5 to 15, 15 to 60, one to three hours, and the
/// rest (longer, or negative).
pub proof fn lemma_duration_buckets_count_ranges(ds: Seq<i64>)
    ensures
        ({
            let c = labelled(duration_labels(), per_bucket(ds.map_values(|d: i64| duration_bucket(d as int)), 5));
            &&& c.len() == 5
            &&& c[0] == ("< 5m"@, ds.filter(|d: i64| 0 <= d < 300).len() as i64)
            &&& c[1] == ("5-15m"@, ds.filter(|d: i64| 300 <= d < 900).len() as i64)
            &&& c[2] == ("15-60m"@, ds.filter(|d: i64| 900 <= d < 3600).len() as i64)
            &&& c[3] == ("1-3h"@, ds.filter(|d: i64| 3600 <= d < 10800).len() as i64)
            &&& c[4] == ("> 3h"@, ds.filter(|d: i64| d < 0 || 10800 <= d).len() as i64)
        }),
{
    let f = |d: i64| duration_bucket(d as int);
    lemma_bucket_counts(ds, f, 0, |d: i64| 0 <= d < 300);
    lemma_bucket_counts(ds, f, 1, |d: i64| 300 <= d < 900);
    lemma_bucket_counts(ds, f, 2, |d: i64| 900 <= d < 3600);
    lemma_bucket_counts(ds, f, 3, |d: i64| 3600 <= d < 10800);
    lemma_bucket_counts(ds, f, 4, |d: i64| d < 0 || 10800 <= d);
}

/// The first-response chart counts, under each label, the turns whose seconds until the first
/// response lie in the range the label names: up to 2, 3 to 10, 11 to 30, 31 to 60, 61 to 180,
/// and the rest.
pub proof fn lemma_first_response_buckets_count_ranges(ss: Seq<i64>)
    ensures
        ({
            let c = labelled(
                first_response_labels(),
                per_bucket(ss.map_values(|s: i64| first_response_bucket(s as int)), 6),
            );
            &&& c.len() == 6
            &&& c[0] == ("< 3s"@, ss.filter(|s: i64| 0 <= s < 3).len() as i64)
            &&& c[1] == ("3-10s"@, ss.filter(|s: i64| 3 <= s <= 10).len() as i64)
            &&& c[2] == ("10-30s"@, ss.filter(|s: i64| 11 <= s <= 30).len() as i64)
            &&& c[3] == ("30-60s"@, ss.filter(|s: i64| 31 <= s <= 60).len() as i64)
            &&& c[4] == ("1-3m"@, ss.filter(|s: i64| 61 <= s <= 180).len() as i64)
            &&& c[5] == ("> 3m"@, ss.filter(|s: i64| s < 0 || 180 < s).len() as i64)
        }),
{
    let f = |s: i64| first_response_bucket(s as int);
    lemma_bucket_counts(ss, f, 0, |s: i64| 0 <= s < 3);
    lemma_bucket_counts(ss, f, 1, |s: i64| 3 <= s <= 10);
    lemma_bucket_counts(ss, f, 2, |s: i64| 11 <= s <= 30);
    lemma_bucket_counts(ss, f, 3, |s: i64| 31 <= s <= 60);
    lemma_bucket_counts(ss, f, 4, |s: i64| 61 <= s <= 180);
    lemma_bucket_counts(ss, f, 5, |s: i64| s < 0 || 180 < s);
}

/// The completion chart counts, under each label, the turns whose seconds to complete lie in
/// the range the label names: under 10, 10 to 30, 31 to 60, 61 to 180, 181 to 600, and the
/// rest.
pub proof fn lemma_completion_buckets_count_ranges(ss: Seq<i64>)
    ensures
        ({
            let c = labelled(completion_labels(), per_bucket(ss.map_values(|s: i64| completion_bucket(s as int)), 6));
            &&& c.len() == 6
            &&& c[0] == ("< 10s"@, ss.filter(|s: i64| 0 <= s < 10).len() as i64)
            &&& c[1] == ("10-30s"@, ss.filter(|s: i64| 10 <= s <= 30).len() as i64)
            &&& c[2] == ("30-60s"@, ss.filter(|s: i64| 31 <= s <= 60).len() as i64)
            &&& c[3] == ("1-3m"@, ss.filter(|s: i64| 61 <= s <= 180).len() as i64)
            &&& c[4] == ("3-10m"@, ss.filter(|s: i64| 181 <= s <= 600).len() as i64)
            &&& c[5] == ("> 10m"@, ss.filter(|s: i64| s < 0 || 600 < s).len() as i64)
        }),
{
    let f = |s: i64| completion_bucket(s as int);
    lemma_bucket_counts(ss, f, 0, |s: i64| 0 <= s < 10);
    lemma_bucket_counts(ss, f, 1, |s: i64| 10 <= s <= 30);
    lemma_bucket_counts(ss, f, 2, |s: i64| 31 <= s <= 60);
    lemma_bucket_counts(ss, f, 3, |s: i64| 61 <= s <= 180);
    lemma_bucket_counts(ss, f, 4, |s: i64| 181 <= s <= 600);
    lemma_bucket_counts(ss, f, 5, |s: i64| s < 0 || 600 < s);
}

/// The prompt-length chart counts, under each label, the prompts whose length in characters
/// lies in the range the label names: under 40, 40 to 120, 121 to 300, 301 to 800, and longer.
pub proof fn lemma_prompt_length_buckets_count_ranges(ns: Seq<usize>)
    ensures
        ({
            let c = labelled(
                prompt_length_labels(),
                per_bucket(ns.map_values(|n: usize| prompt_length_bucket(n as int)), 5),
            );
            &&& c.len() == 5
            &&& c[0] == ("< 40"@, ns.filter(|n: usize| n < 40).len() as i64)
            &&& c[1] == ("40-120"@, ns.filter(|n: usize| 40 <= n <= 120).len() as i64)
            &&& c[2] == ("120-300"@, ns.filter(|n: usize| 121 <= n <= 300).len() as i64)
            &&& c[3] == ("300-800"@, ns.filter(|n: usize| 301 <= n <= 800).len() as i64)
            &&& c[4] == ("> 800"@, ns.filter(|n: usize| 800 < n).len() as i64)
        }),
{
    let f = |n: usize| prompt_length_bucket(n as int);
    lemma_bucket_counts(ns, f, 0, |n: usize| n < 40);
    lemma_bucket_counts(ns, f, 1, |n: usize| 40 <= n <= 120);
    lemma_bucket_counts(ns, f, 2, |n: usize| 121 <= n <= 300);
    lemma_bucket_counts(ns, f, 3, |n: usize| 301 <= n <= 800);
    lemma_bucket_counts(ns, f, 4, |n: usize| 800 < n);
}

/// The question-hours chart counts, under the label of each hour `00` to `23`, the questions
/// asked in that hour.
pub proof fn lemma_question_hours_count_hours(hs: Seq<u32>, h: int)
    requires
        0 <= h < 24,
    ensures
        labelled(hour_labels(), per_bucket(hs.map_values(|x: u32| x as int), 24))[h] == (
            two_digits(h as nat),
            hs.filter(|x: u32| x == h).len() as i64,
        ),
{
    lemma_bucket_counts(hs, |x: u32| x as int, h, |x: u32| x == h);
}

} // verus!
