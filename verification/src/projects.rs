//! The project views of the dashboard: the projects to choose from, the questions per project
//! over time, and what each project's sessions and turns add up to.
use crate::boards::{turn_place, turn_project};
use crate::boards::all_kept;
use crate::counts::{
    chart_labels,
    is_top,
    lemma_top_distinct,
    lemma_top_unique,
    lemma_text_lt_total,
    lemma_text_lt_transitive,
    text_less,
    text_lt,
    top_chart_data_with_min_count,
    top_labels,
    LabelCounts,
};
use crate::event_pass::{bump_timeline, LocalStamp};
use crate::models::{opt_view, BreakdownDatum, ChartDatum, SessionSummary};
use crate::parsers::{rfc3339_millis_of, timestamp_millis};
use crate::ranking::{is_ranking, lemma_ranking_unique, rank_positions, Moment, Standing};
use crate::terms::{bounded, counted};
use crate::timeline::{build_dense_breakdown_series, bucket_counts, dense_rows, increment_breakdown, row_of, Timeline};
use crate::turn_table::TurnRecord;
use crate::turns::{completion_of, first_response_of};
use crate::timeline::count_in;
use crate::workspace::{
    normalize_workspace,
    normalized_workspace,
    project_key,
    project_key_of,
    project_label_from_cwd,
    project_label_from_option,
    project_label_of,
    project_label_of_option,
};
use vstd::prelude::*;
use vstd::seq_lib::{to_multiset_build, to_multiset_insert};
use vstd::string::StrSliceExecFns;

verus! {

/// The key under which a workspace is grouped into a project.
pub open spec fn option_key(cwd: Seq<char>) -> Seq<char> {
    project_key_of(normalized_workspace(cwd))
}

proof fn lemma_option_step(cv: Seq<Seq<char>>, i: int)
    requires
        0 <= i < cv.len(),
    ensures
        option_labels(cv.take(i + 1)) == if first_of_project(cv.take(i + 1), i) {
            option_labels(cv.take(i)).push(project_label_of(cv[i]))
        } else {
            option_labels(cv.take(i))
        },
        first_of_project(cv.take(i + 1), i) <==> (cv[i].len() > 0 && forall|j: int|
            0 <= j < i ==> (#[trigger] cv[j]).len() == 0 || option_key(cv[j]) != option_key(cv[i])),
{
    let t = cv.take(i + 1);
    assert(t.drop_last() == cv.take(i));
    assert(t.last() == cv[i]);
    assert forall|j: int| 0 <= j < i implies t[j] == cv[j] by {}
}

/// Whether the workspace at `i` is the first of its project.
pub open spec fn first_of_project(cwds: Seq<Seq<char>>, i: int) -> bool {
    &&& cwds[i].len() > 0
    &&& forall|j: int| 0 <= j < i ==> (#[trigger] cwds[j]).len() == 0 || option_key(cwds[j]) != option_key(cwds[i])
}

/// The label of the first workspace of each project, in the order the projects first appear.
pub open spec fn option_labels(cwds: Seq<Seq<char>>) -> Seq<Seq<char>>
    decreases cwds.len(),
{
    if cwds.len() == 0 {
        Seq::empty()
    } else {
        let rest = option_labels(cwds.drop_last());
        if first_of_project(cwds, cwds.len() - 1) {
            rest.push(project_label_of(cwds.last()))
        } else {
            rest
        }
    }
}

/// Texts in the order `str` values sort in.
pub open spec fn sorted_texts(s: Seq<Seq<char>>) -> bool {
    forall|i: int, j: int| 0 <= i < j < s.len() ==> !text_lt(#[trigger] s[j], #[trigger] s[i])
}

/// Inserts a text into a sorted list, after the texts that do not sort after it.
fn insert_sorted(out: &mut Vec<String>, label: String)
    requires
        sorted_texts(old(out)@.map_values(|s: String| s@)),
    ensures
        sorted_texts(final(out)@.map_values(|s: String| s@)),
        final(out)@.map_values(|s: String| s@).to_multiset() == old(out)@.map_values(|s: String| s@).to_multiset().insert(
            label@,
        ),
{
    let mut p = out.len();
    while p > 0 && text_less(label.as_str(), out[p - 1].as_str())
        invariant
            p <= out@.len(),
            forall|m: int| p <= m < out@.len() ==> text_lt(label@, (#[trigger] out@[m])@),
        decreases p,
    {
        p -= 1;
    }
    let ghost before = out@.map_values(|s: String| s@);
    let ghost l = label@;
    proof {
        lemma_text_lt_total(l, l);
        if p > 0 {
            lemma_text_lt_total(l, before[p - 1]);
        }
    }
    out.insert(p, label);
    proof {
        let after = out@.map_values(|s: String| s@);
        assert(after == before.insert(p as int, l));
        to_multiset_insert(before, p as int, l);
        assert forall|a: int, b: int| 0 <= a < b < after.len() implies !text_lt(#[trigger] after[b], #[trigger] after[a]) by {
            if a < p && b == p {
                assert(after[a] == before[a]);
                if a < p - 1 && text_lt(l, before[a]) {
                    lemma_text_lt_total(before[a], before[p - 1]);
                    if before[a] != before[p - 1] {
                        lemma_text_lt_transitive(l, before[a], before[p - 1]);
                    }
                }
            } else if a == p && b > p {
                assert(after[b] == before[b - 1]);
                lemma_text_lt_total(after[a], after[b]);
            } else if a < p && b > p {
                assert(after[a] == before[a]);
                assert(after[b] == before[b - 1]);
                lemma_text_lt_total(l, after[b]);
                if text_lt(after[b], after[a]) {
                    lemma_text_lt_total(before[a], l);
                    if text_lt(after[a], l) || after[a] == l {
                        if text_lt(after[a], l) {
                            lemma_text_lt_transitive(after[b], after[a], l);
                        }
                    }
                }
            } else if b < p {
                assert(after[a] == before[a]);
                assert(after[b] == before[b]);
            } else {
                assert(after[a] == before[a - 1]);
                assert(after[b] == before[b - 1]);
            }
        }
    }
}

/// Whether a workspace before position `i` is not empty and has the given key.
fn earlier_project(cwds: &[String], keys: &Vec<String>, i: usize) -> (r: bool)
    requires
        i < cwds@.len(),
        keys@.len() == cwds@.len(),
    ensures
        r == exists|j: int| 0 <= j < i && (#[trigger] cwds@[j])@.len() > 0 && keys@[j]@ == keys@[i as int]@,
{
    let mut j: usize = 0;
    while j < i
        invariant
            j <= i < cwds@.len(),
            keys@.len() == cwds@.len(),
            forall|m: int| 0 <= m < j ==> !((#[trigger] cwds@[m])@.len() > 0 && keys@[m]@ == keys@[i as int]@),
        decreases i - j,
    {
        if cwds[j].as_str().unicode_len() > 0 && crate::chars::str_eq(keys[j].as_str(), keys[i].as_str()) {
            return true;
        }
        j += 1;
    }
    false
}

/// The projects to choose from: the label of the first workspace seen of each project, sorted.
/// Empty workspaces are passed over.
pub fn project_options(cwds: &[String]) -> (r: Vec<String>)
    ensures
        sorted_texts(r@.map_values(|s: String| s@)),
        r@.map_values(|s: String| s@).to_multiset() == option_labels(cwds@.map_values(|s: String| s@)).to_multiset(),
{
    let ghost cv = cwds@.map_values(|s: String| s@);
    let mut keys: Vec<String> = Vec::new();
    let mut k: usize = 0;
    while k < cwds.len()
        invariant
            k <= cwds@.len(),
            cv == cwds@.map_values(|s: String| s@),
            keys@.len() == k,
            forall|j: int| 0 <= j < k ==> (#[trigger] keys@[j])@ == option_key(cv[j]),
        decreases cwds.len() - k,
    {
        keys.push(project_key(normalize_workspace(cwds[k].as_str()).as_str()));
        k += 1;
    }
    let mut out: Vec<String> = Vec::new();
    proof {
        assert(cv.take(0) =~= Seq::<Seq<char>>::empty());
        assert(out@.map_values(|s: String| s@) =~= Seq::<Seq<char>>::empty());
    }
    let mut i: usize = 0;
    while i < cwds.len()
        invariant
            i <= cwds@.len(),
            cv == cwds@.map_values(|s: String| s@),
            keys@.len() == cwds@.len(),
            forall|j: int| 0 <= j < cwds@.len() ==> (#[trigger] keys@[j])@ == option_key(cv[j]),
            sorted_texts(out@.map_values(|s: String| s@)),
            out@.map_values(|s: String| s@).to_multiset() == option_labels(cv.take(i as int)).to_multiset(),
        decreases cwds.len() - i,
    {
        let nonempty = cwds[i].as_str().unicode_len() > 0;
        let seen = earlier_project(cwds, &keys, i);
        proof {
            lemma_option_step(cv, i as int);
            assert(keys@[i as int]@ == option_key(cv[i as int]));
            if seen {
                let j = choose|j: int| 0 <= j < i && (#[trigger] cwds@[j])@.len() > 0 && keys@[j]@ == keys@[i as int]@;
                assert(keys@[j]@ == option_key(cv[j]));
                assert(cv[j] == cwds@[j]@);
            } else {
                assert forall|j: int| 0 <= j < i implies (#[trigger] cv[j]).len() == 0 || option_key(cv[j]) != option_key(
                    cv[i as int],
                ) by {
                    assert(cv[j] == cwds@[j]@);
                    assert(keys@[j]@ == option_key(cv[j]));
                }
            }
        }
        if nonempty && !seen {
            let label = project_label_from_cwd(cwds[i].as_str());
            proof {
                assert(cv[i as int] == cwds@[i as int]@);
                to_multiset_build(option_labels(cv.take(i as int)), label@);
            }
            insert_sorted(&mut out, label);
        }
        i += 1;
    }
    proof {
        assert(cv.take(cwds@.len() as int) == cv);
    }
    out
}

/// The project of each session.
pub open spec fn session_projects(sessions: Seq<SessionSummary>) -> Seq<Seq<char>> {
    sessions.map_values(|s: SessionSummary| project_label_of_option(opt_view(s.cwd)))
}

/// The number of sessions of each project.
pub open spec fn project_session_counts(sessions: Seq<SessionSummary>) -> Map<Seq<char>, i64> {
    counted(Map::empty(), session_projects(sessions))
}

proof fn lemma_counted_bounded(terms: Seq<Seq<char>>)
    ensures
        bounded(counted(Map::empty(), terms), terms.len() as int),
    decreases terms.len(),
{
    if terms.len() > 0 {
        lemma_counted_bounded(terms.drop_last());
    }
}

/// The questions of each project in each bucket, counted over the turns in the order given:
/// turns with a question and a local stamp, credited to one of the `top` projects.
pub open spec fn project_turn_map(
    turns: Seq<TurnRecord>,
    stamps: Seq<Option<LocalStamp>>,
    sessions: Seq<SessionSummary>,
    top: Seq<Seq<char>>,
) -> Map<Seq<char>, Map<Seq<char>, i64>>
    decreases turns.len(),
{
    if turns.len() == 0 {
        Map::empty()
    } else {
        let n = turns.len() - 1;
        let rest = project_turn_map(turns.drop_last(), stamps.take(n), sessions, top);
        let label = project_label_of_option(turn_place(turns[n], sessions));
        match stamps[n] {
            Some(st) => if turns[n].timing.user_ms is Some && top.contains(label) {
                bump_timeline(rest, st.bucket@, label)
            } else {
                rest
            },
            None => rest,
        }
    }
}

/// Whether every count of a timeline is at most `n`.
pub open spec fn timeline_within(m: Map<Seq<char>, Map<Seq<char>, i64>>, n: int) -> bool {
    forall|b: Seq<char>| m.contains_key(b) ==> bounded(#[trigger] m[b], n)
}

/// Whether a text is among the texts of a list.
pub fn contains_text(list: &Vec<String>, text: &str) -> (r: bool)
    ensures
        r == list@.map_values(|s: String| s@).contains(text@),
{
    let ghost lv = list@.map_values(|s: String| s@);
    let mut k: usize = 0;
    while k < list.len()
        invariant
            k <= list@.len(),
            lv == list@.map_values(|s: String| s@),
            forall|m: int| 0 <= m < k ==> lv[m] != text@,
        decreases list.len() - k,
    {
        if crate::chars::str_eq(list[k].as_str(), text) {
            assert(lv[k as int] == text@);
            return true;
        }
        k += 1;
    }
    false
}

/// The questions per bucket of the six projects with the most sessions, over the given buckets
/// whether or not anything was counted in them. Each turn with a question is counted in the
/// bucket of its local stamp, under its own workspace's project or else its session's.
pub fn build_project_timeline(
    sessions: &[SessionSummary],
    turns: &[TurnRecord],
    stamps: &[Option<LocalStamp>],
    buckets: &[String],
) -> (r: Vec<BreakdownDatum>)
    requires
        turns@.len() == stamps@.len(),
        turns@.len() < i64::MAX,
        sessions@.len() < i64::MAX,
    ensures
        exists|top: Seq<Seq<char>>|
            {
                &&& #[trigger] is_top(project_session_counts(sessions@), 6, i64::MIN, top)
                &&& r@.map_values(|d: BreakdownDatum| row_of(d)) == dense_rows(
                    project_turn_map(turns@, stamps@, sessions@, top),
                    buckets@.map_values(|s: String| s@),
                    top,
                )
            },
{
    let mut counts = LabelCounts::new();
    let mut i: usize = 0;
    while i < sessions.len()
        invariant
            i <= sessions@.len() < i64::MAX,
            counts@ == counted(Map::empty(), session_projects(sessions@.take(i as int))),
        decreases sessions.len() - i,
    {
        let s = &sessions[i];
        let place: Option<&str> = match &s.cwd {
            Some(c) => Some(c.as_str()),
            None => None,
        };
        let label = project_label_from_option(place);
        proof {
            let pre = session_projects(sessions@.take(i as int));
            let post = session_projects(sessions@.take(i as int + 1));
            assert(post.drop_last() == pre);
            assert(post.last() == label@);
            lemma_counted_bounded(pre);
        }
        counts.increment(label.as_str(), 1);
        i += 1;
    }
    proof {
        assert(sessions@.take(sessions@.len() as int) == sessions@);
    }
    let top = top_labels(&counts, 6);
    let ghost tv = top@.map_values(|s: String| s@);
    let mut timeline = Timeline::new();
    let mut j: usize = 0;
    while j < turns.len()
        invariant
            j <= turns@.len() == stamps@.len(),
            turns@.len() < i64::MAX,
            tv == top@.map_values(|s: String| s@),
            timeline.as_map() == project_turn_map(turns@.take(j as int), stamps@.take(j as int), sessions@, tv),
            timeline_within(timeline.as_map(), j as int),
        decreases turns.len() - j,
    {
        let t = &turns[j];
        let (label, _) = turn_project(t, sessions);
        let ghost before = timeline.as_map();
        proof {
            let ts = turns@.take(j as int + 1);
            assert(ts.drop_last() == turns@.take(j as int));
            assert(stamps@.take(j as int + 1).take(j as int) == stamps@.take(j as int));
            assert(ts[j as int] == turns@[j as int]);
            assert(stamps@.take(j as int + 1)[j as int] == stamps@[j as int]);
        }
        match &stamps[j] {
            Some(st) => {
                if t.timing.user_ms.is_some() && contains_text(&top, label.as_str()) {
                    proof {
                        assert(bounded(bucket_counts(before, st.bucket@), j as int));
                    }
                    increment_breakdown(&mut timeline, st.bucket.clone(), label.as_str(), 1);
                    proof {
                        let m = timeline.as_map();
                        assert forall|b: Seq<char>| m.contains_key(b) implies bounded(#[trigger] m[b], j as int + 1) by {
                            if b != st.bucket@ {
                                assert(bounded(before[b], j as int));
                            }
                        }
                    }
                }
            },
            None => {},
        }
        proof {
            let m = timeline.as_map();
            assert forall|b: Seq<char>| m.contains_key(b) implies bounded(#[trigger] m[b], j as int + 1) by {
                assert(bounded(m[b], j as int) || bounded(m[b], j as int + 1));
            }
        }
        j += 1;
    }
    proof {
        assert(turns@.take(turns@.len() as int) == turns@);
        assert(stamps@.take(stamps@.len() as int) == stamps@);
    }
    let top_slice = top.as_slice();
    let r = build_dense_breakdown_series(&timeline, top_slice, buckets);
    proof {
        assert(top_slice@ == top@);
        assert(counts@ == project_session_counts(sessions@));
        assert(is_top(project_session_counts(sessions@), 6, i64::MIN, tv));
    }
    r
}

/// The instants a session spans, in milliseconds: from its start to its last update, or else
/// to its start plus its duration (none below zero); none when its start does not parse.
pub open spec fn session_interval(s: SessionSummary) -> Option<(i128, i128)> {
    match s.started_at {
        Some(st) => match rfc3339_millis_of(st@) {
            Some(start) => {
                let fallback = (start + 1000 * if s.duration_sec < 0 { 0 } else { s.duration_sec as int }) as i128;
                Some(
                    (
                        start as i128,
                        match s.updated_at {
                            Some(u) => match rfc3339_millis_of(u@) {
                                Some(e) => e as i128,
                                None => fallback,
                            },
                            None => fallback,
                        },
                    ),
                )
            },
            None => None,
        },
        None => None,
    }
}

/// The project of a session.
pub open spec fn session_project(s: SessionSummary) -> Seq<char> {
    project_label_of_option(opt_view(s.cwd))
}

/// The opening and closing marks of the sessions of one project, in the order given: each
/// session with an interval opens at its start and closes at its end.
pub open spec fn project_markers(sessions: Seq<SessionSummary>, label: Seq<char>) -> Seq<(i128, i64)>
    decreases sessions.len(),
{
    if sessions.len() == 0 {
        Seq::empty()
    } else {
        let rest = project_markers(sessions.drop_last(), label);
        match session_interval(sessions.last()) {
            Some((a, b)) => if session_project(sessions.last()) == label {
                rest.push((a, 1i64)).push((b, -1i64))
            } else {
                rest
            },
            None => rest,
        }
    }
}

/// The ranking keys of marks: their instants.
pub open spec fn moments(ms: Seq<(i128, i64)>) -> Seq<Moment> {
    ms.map_values(|m: (i128, i64)| Moment { at: m.0 })
}

/// The number of sessions open after each mark, and the most at any point (zero at least).
pub open spec fn sweep(deltas: Seq<int>) -> (int, int)
    decreases deltas.len(),
{
    if deltas.len() == 0 {
        (0, 0)
    } else {
        let (active, peak) = sweep(deltas.drop_last());
        let now = active + deltas.last();
        (now, if now > peak { now } else { peak })
    }
}

/// The most sessions of a project open at once: the marks taken by instant, marks of the same
/// instant in the order given.
pub open spec fn project_peak(sessions: Seq<SessionSummary>, label: Seq<char>) -> int {
    let ms = project_markers(sessions, label);
    let order = choose|o: Seq<int>| is_ranking(moments(ms), all_kept(ms.len()), o);
    sweep(order.map_values(|i: int| ms[i].1 as int)).1
}

/// Whether some session of the project has an interval.
pub open spec fn has_interval(sessions: Seq<SessionSummary>, label: Seq<char>) -> bool {
    exists|j: int| 0 <= j < sessions.len() && (#[trigger] session_interval(sessions[j])) is Some && session_project(
        sessions[j],
    ) == label
}

/// The peak of each project with an interval.
pub open spec fn project_peaks(sessions: Seq<SessionSummary>) -> Map<Seq<char>, i64> {
    Map::new(|l: Seq<char>| has_interval(sessions, l), |l: Seq<char>| project_peak(sessions, l) as i64)
}

/// The interval of a session.
fn interval_of(s: &SessionSummary) -> (r: Option<(i128, i128)>)
    ensures
        r == session_interval(*s),
{
    match &s.started_at {
        Some(st) => match timestamp_millis(st.as_str()) {
            Some(start) => {
                let dur: i128 = if s.duration_sec < 0 {
                    0
                } else {
                    s.duration_sec as i128
                };
                let fallback = start as i128 + 1000 * dur;
                let end = match &s.updated_at {
                    Some(u) => match timestamp_millis(u.as_str()) {
                        Some(e) => e as i128,
                        None => fallback,
                    },
                    None => fallback,
                };
                Some((start as i128, end))
            },
            None => None,
        },
        None => None,
    }
}

proof fn lemma_markers_len(sessions: Seq<SessionSummary>, label: Seq<char>)
    ensures
        project_markers(sessions, label).len() <= 2 * sessions.len(),
    decreases sessions.len(),
{
    if sessions.len() > 0 {
        lemma_markers_len(sessions.drop_last(), label);
    }
}

proof fn lemma_sweep_bounded(deltas: Seq<int>)
    requires
        forall|i: int| 0 <= i < deltas.len() ==> -1 <= #[trigger] deltas[i] <= 1,
    ensures
        -deltas.len() <= sweep(deltas).0 <= deltas.len(),
        0 <= sweep(deltas).1 <= deltas.len(),
    decreases deltas.len(),
{
    if deltas.len() > 0 {
        let d = deltas.drop_last();
        assert forall|i: int| 0 <= i < d.len() implies -1 <= #[trigger] d[i] <= 1 by {
            assert(d[i] == deltas[i]);
        }
        lemma_sweep_bounded(d);
        assert(-1 <= deltas[deltas.len() - 1] <= 1);
    }
}

/// The most sessions of one project open at once.
fn peak_of(sessions: &[SessionSummary], intervals: &Vec<Option<(i128, i128)>>, labels: &Vec<String>, label: &str) -> (r: i64)
    requires
        intervals@.len() == sessions@.len(),
        labels@.len() == sessions@.len(),
        sessions@.len() < i64::MAX / 4,
        forall|j: int| 0 <= j < sessions@.len() ==> #[trigger] intervals@[j] == session_interval(sessions@[j]),
        forall|j: int| 0 <= j < sessions@.len() ==> (#[trigger] labels@[j])@ == session_project(sessions@[j]),
    ensures
        r as int == project_peak(sessions@, label@),
{
    let mut marks: Vec<(i128, i64)> = Vec::new();
    let mut keys: Vec<Moment> = Vec::new();
    let mut keep: Vec<bool> = Vec::new();
    let mut k: usize = 0;
    while k < sessions.len()
        invariant
            k <= sessions@.len(),
            intervals@.len() == sessions@.len(),
            labels@.len() == sessions@.len(),
            forall|j: int| 0 <= j < sessions@.len() ==> #[trigger] intervals@[j] == session_interval(sessions@[j]),
            forall|j: int| 0 <= j < sessions@.len() ==> (#[trigger] labels@[j])@ == session_project(sessions@[j]),
            marks@ == project_markers(sessions@.take(k as int), label@),
            forall|m: int| 0 <= m < marks@.len() ==> -1 <= (#[trigger] marks@[m]).1 <= 1,
            keys@ == moments(marks@),
            keep@ == all_kept(marks@.len()),
        decreases sessions.len() - k,
    {
        proof {
            assert(sessions@.take(k as int + 1).drop_last() == sessions@.take(k as int));
            assert(sessions@.take(k as int + 1).last() == sessions@[k as int]);
        }
        match intervals[k] {
            Some((a, b)) => {
                if crate::chars::str_eq(labels[k].as_str(), label) {
                    marks.push((a, 1));
                    marks.push((b, -1));
                    keys.push(Moment { at: a });
                    keys.push(Moment { at: b });
                    keep.push(true);
                    keep.push(true);
                    proof {
                        assert(keys@ == moments(marks@));
                        assert(keep@ == all_kept(marks@.len()));
                    }
                }
            },
            None => {},
        }
        k += 1;
    }
    proof {
        assert(sessions@.take(sessions@.len() as int) == sessions@);
        lemma_markers_len(sessions@, label@);
    }
    let order = rank_positions(keys.as_slice(), &keep);
    let ghost ov = order@.map_values(|i: usize| i as int);
    let ghost ms = marks@;
    proof {
        let chosen = choose|o: Seq<int>| is_ranking(moments(ms), all_kept(ms.len()), o);
        lemma_ranking_unique(moments(ms), all_kept(ms.len()), chosen, ov);
    }
    let ghost deltas = ov.map_values(|i: int| ms[i].1 as int);
    let mut active: i64 = 0;
    let mut peak: i64 = 0;
    let mut j: usize = 0;
    while j < order.len()
        invariant
            j <= order@.len(),
            order@.len() <= marks@.len() <= 2 * sessions@.len(),
            sessions@.len() < i64::MAX / 4,
            ms == marks@,
            ov == order@.map_values(|i: usize| i as int),
            is_ranking(moments(ms), all_kept(ms.len()), ov),
            deltas == ov.map_values(|i: int| ms[i].1 as int),
            forall|m: int| 0 <= m < ms.len() ==> -1 <= (#[trigger] ms[m]).1 <= 1,
            (active as int, peak as int) == sweep(deltas.take(j as int)),
        decreases order.len() - j,
    {
        proof {
            assert(deltas.take(j as int + 1).drop_last() == deltas.take(j as int));
            assert forall|m: int| 0 <= m < deltas.take(j as int).len() implies -1 <= #[trigger] deltas.take(j as int)[m] <= 1 by {
                assert(0 <= ov[m] < ms.len());
            }
            lemma_sweep_bounded(deltas.take(j as int));
            assert(0 <= ov[j as int] < ms.len());
        }
        let p = order[j];
        active = active + marks[p].1;
        if active > peak {
            peak = active;
        }
        j += 1;
    }
    proof {
        assert(deltas.take(order@.len() as int) == deltas);
    }
    peak
}

/// The most sessions of each project open at once, largest first and equal counts in label
/// order, at most `limit` of them. A session spans from its start to its last update, or its
/// duration where the update does not parse; sessions whose start does not parse are left out.
pub fn build_project_parallelism(sessions: &[SessionSummary], limit: usize) -> (r: Vec<ChartDatum>)
    requires
        sessions@.len() < i64::MAX / 4,
    ensures
        is_top(project_peaks(sessions@), limit as nat, i64::MIN, chart_labels(r@)),
        forall|i: int| 0 <= i < r@.len() ==> (#[trigger] r@[i]).value == project_peaks(sessions@)[r@[i].label@],
{
    let mut intervals: Vec<Option<(i128, i128)>> = Vec::new();
    let mut labels: Vec<String> = Vec::new();
    let mut k: usize = 0;
    while k < sessions.len()
        invariant
            k <= sessions@.len(),
            intervals@.len() == k,
            labels@.len() == k,
            forall|j: int| 0 <= j < k ==> #[trigger] intervals@[j] == session_interval(sessions@[j]),
            forall|j: int| 0 <= j < k ==> (#[trigger] labels@[j])@ == session_project(sessions@[j]),
        decreases sessions.len() - k,
    {
        let s = &sessions[k];
        intervals.push(interval_of(s));
        let place: Option<&str> = match &s.cwd {
            Some(c) => Some(c.as_str()),
            None => None,
        };
        labels.push(project_label_from_option(place));
        k += 1;
    }
    let mut counts = LabelCounts::new();
    let mut i: usize = 0;
    while i < sessions.len()
        invariant
            i <= sessions@.len() < i64::MAX / 4,
            intervals@.len() == sessions@.len(),
            labels@.len() == sessions@.len(),
            forall|j: int| 0 <= j < sessions@.len() ==> #[trigger] intervals@[j] == session_interval(sessions@[j]),
            forall|j: int| 0 <= j < sessions@.len() ==> (#[trigger] labels@[j])@ == session_project(sessions@[j]),
            forall|l: Seq<char>|
                #[trigger] counts@.contains_key(l) <==> has_interval(sessions@.take(i as int), l),
            forall|l: Seq<char>| #[trigger] counts@.contains_key(l) ==> counts@[l] as int == project_peak(sessions@, l),
        decreases sessions.len() - i,
    {
        let ghost before = counts@;
        if intervals[i].is_some() && !counts.contains(labels[i].as_str()) {
            let peak = peak_of(sessions, &intervals, &labels, labels[i].as_str());
            counts.increment(labels[i].as_str(), peak);
        }
        proof {
            let t = sessions@.take(i as int + 1);
            assert forall|l: Seq<char>| #[trigger] counts@.contains_key(l) <==> has_interval(t, l) by {
                if has_interval(t, l) {
                    let j = choose|j: int| 0 <= j < t.len() && (#[trigger] session_interval(t[j])) is Some && session_project(t[j]) == l;
                    if j < i {
                        assert(sessions@.take(i as int)[j] == t[j]);
                        assert(has_interval(sessions@.take(i as int), l));
                    } else {
                        assert(t[j] == sessions@[i as int]);
                    }
                }
                if before.contains_key(l) {
                    let j = choose|j: int| 0 <= j < i && (#[trigger] session_interval(sessions@.take(i as int)[j])) is Some
                        && session_project(sessions@.take(i as int)[j]) == l;
                    assert(t[j] == sessions@.take(i as int)[j]);
                }
                if counts@.contains_key(l) && !before.contains_key(l) {
                    assert(t[i as int] == sessions@[i as int]);
                    assert(session_interval(t[i as int]) is Some);
                }
            }
        }
        i += 1;
    }
    proof {
        assert(sessions@.take(sessions@.len() as int) == sessions@);
        assert(counts@ == project_peaks(sessions@));
    }
    top_chart_data_with_min_count(&counts, limit, i64::MIN)
}

/// What the sessions and turns of one project add up to: the averages of the project summary
/// are the totals over the samples.
#[derive(Debug)]
pub struct ProjectTally {
    pub label: String,
    pub session_count: i64,
    pub question_count: i64,
    pub total_tokens: i64,
    pub context_compactions: i64,
    pub first_response_total: i64,
    pub first_response_samples: i64,
    pub completion_total: i64,
    pub completion_samples: i64,
    pub max_parallel_windows: i64,
}

/// The project a turn is credited to.
pub open spec fn turn_project_of(t: TurnRecord, sessions: Seq<SessionSummary>) -> Seq<char> {
    project_label_of_option(turn_place(t, sessions))
}

/// The number of sessions of a project.
pub open spec fn sessions_in(sessions: Seq<SessionSummary>, label: Seq<char>) -> int
    decreases sessions.len(),
{
    if sessions.len() == 0 {
        0
    } else {
        sessions_in(sessions.drop_last(), label) + if session_project(sessions.last()) == label {
            1int
        } else {
            0
        }
    }
}

/// Over the turns with a question credited to a project: their number, their tokens, the
/// seconds to the first answer and the number of turns that have them, and the seconds to
/// completion and the number of turns that have them. Sums wrap as in a release build.
pub open spec fn question_stats(turns: Seq<TurnRecord>, sessions: Seq<SessionSummary>, label: Seq<char>) -> (
    int,
    i64,
    i64,
    int,
    i64,
    int,
)
    decreases turns.len(),
{
    if turns.len() == 0 {
        (0, 0, 0, 0, 0, 0)
    } else {
        let r = question_stats(turns.drop_last(), sessions, label);
        let t = turns.last();
        if t.timing.user_ms is Some && turn_project_of(t, sessions) == label {
            let fr = first_response_of(t.timing);
            let cp = completion_of(t.timing);
            (
                r.0 + 1,
                r.1.wrapping_add(t.usage.total_tokens),
                match fr {
                    Some(v) => r.2.wrapping_add(v as i64),
                    None => r.2,
                },
                match fr {
                    Some(_) => r.3 + 1,
                    None => r.3,
                },
                match cp {
                    Some(v) => r.4.wrapping_add(v as i64),
                    None => r.4,
                },
                match cp {
                    Some(_) => r.5 + 1,
                    None => r.5,
                },
            )
        } else {
            r
        }
    }
}

/// Whether a project has a session, a turn with a question, or a context compaction.
pub open spec fn project_present(
    sessions: Seq<SessionSummary>,
    turns: Seq<TurnRecord>,
    compactions: Map<Seq<char>, i64>,
    label: Seq<char>,
) -> bool {
    ||| exists|j: int| 0 <= j < sessions.len() && session_project(#[trigger] sessions[j]) == label
    ||| exists|j: int|
        0 <= j < turns.len() && (#[trigger] turns[j]).timing.user_ms is Some && turn_project_of(turns[j], sessions) == label
    ||| compactions.contains_key(label)
}

/// The most sessions of a project open at once, where the project is among the `limit` with
/// the most; otherwise 0.
pub open spec fn windows_of(sessions: Seq<SessionSummary>, limit: nat, label: Seq<char>) -> i64 {
    let top = choose|ls: Seq<Seq<char>>| is_top(project_peaks(sessions), limit, i64::MIN, ls);
    if top.contains(label) {
        project_peaks(sessions)[label]
    } else {
        0
    }
}

/// `t` is what the sessions and turns of its project add up to.
pub open spec fn is_tally(
    t: ProjectTally,
    sessions: Seq<SessionSummary>,
    turns: Seq<TurnRecord>,
    compactions: Map<Seq<char>, i64>,
    window_limit: nat,
) -> bool {
    let l = t.label@;
    let q = question_stats(turns, sessions, l);
    &&& t.session_count as int == sessions_in(sessions, l)
    &&& t.question_count as int == q.0
    &&& t.total_tokens == q.1
    &&& t.first_response_total == q.2
    &&& t.first_response_samples as int == q.3
    &&& t.completion_total == q.4
    &&& t.completion_samples as int == q.5
    &&& t.context_compactions == count_in(compactions, l)
    &&& t.max_parallel_windows == windows_of(sessions, window_limit, l)
}

/// The ranking keys of project tallies: tokens, then sessions, then label.
pub open spec fn tally_standings(ts: Seq<ProjectTally>) -> Seq<Standing> {
    ts.map_values(|t: ProjectTally| Standing { primary: t.total_tokens, secondary: t.session_count, id: t.label })
}

proof fn lemma_sessions_in_bounded(sessions: Seq<SessionSummary>, label: Seq<char>)
    ensures
        0 <= sessions_in(sessions, label) <= sessions.len(),
    decreases sessions.len(),
{
    if sessions.len() > 0 {
        lemma_sessions_in_bounded(sessions.drop_last(), label);
    }
}

proof fn lemma_stats_bounded(turns: Seq<TurnRecord>, sessions: Seq<SessionSummary>, label: Seq<char>)
    ensures
        0 <= question_stats(turns, sessions, label).0 <= turns.len(),
        0 <= question_stats(turns, sessions, label).3 <= turns.len(),
        0 <= question_stats(turns, sessions, label).5 <= turns.len(),
    decreases turns.len(),
{
    if turns.len() > 0 {
        lemma_stats_bounded(turns.drop_last(), sessions, label);
    }
}

/// The number of sessions of a project, given the project of each session.
fn count_sessions_in(sessions: &[SessionSummary], labels: &Vec<String>, label: &str) -> (r: i64)
    requires
        labels@.len() == sessions@.len() < i64::MAX,
        forall|j: int| 0 <= j < sessions@.len() ==> (#[trigger] labels@[j])@ == session_project(sessions@[j]),
    ensures
        r as int == sessions_in(sessions@, label@),
{
    let mut n: i64 = 0;
    let mut i: usize = 0;
    while i < labels.len()
        invariant
            i <= labels@.len() == sessions@.len() < i64::MAX,
            forall|j: int| 0 <= j < sessions@.len() ==> (#[trigger] labels@[j])@ == session_project(sessions@[j]),
            n as int == sessions_in(sessions@.take(i as int), label@),
        decreases labels.len() - i,
    {
        proof {
            assert(sessions@.take(i as int + 1).drop_last() == sessions@.take(i as int));
            lemma_sessions_in_bounded(sessions@.take(i as int), label@);
        }
        if crate::chars::str_eq(labels[i].as_str(), label) {
            n = n + 1;
        }
        i += 1;
    }
    proof {
        assert(sessions@.take(sessions@.len() as int) == sessions@);
    }
    n
}

/// The question statistics of a project, given the project of each turn with a question.
fn stats_in(turns: &[TurnRecord], sessions: &[SessionSummary], labels: &Vec<Option<String>>, label: &str) -> (r: (
    i64,
    i64,
    i64,
    i64,
    i64,
    i64,
))
    requires
        labels@.len() == turns@.len() < i64::MAX,
        forall|j: int|
            0 <= j < turns@.len() ==> opt_view(#[trigger] labels@[j]) == if turns@[j].timing.user_ms is Some {
                Some(turn_project_of(turns@[j], sessions@))
            } else {
                None::<Seq<char>>
            },
    ensures
        ({
            let q = question_stats(turns@, sessions@, label@);
            r.0 as int == q.0 && r.1 == q.1 && r.2 == q.2 && r.3 as int == q.3 && r.4 == q.4 && r.5 as int == q.5
        }),
{
    let mut r: (i64, i64, i64, i64, i64, i64) = (0, 0, 0, 0, 0, 0);
    let mut i: usize = 0;
    while i < turns.len()
        invariant
            i <= turns@.len() == labels@.len() < i64::MAX,
            forall|j: int|
                0 <= j < turns@.len() ==> opt_view(#[trigger] labels@[j]) == if turns@[j].timing.user_ms is Some {
                    Some(turn_project_of(turns@[j], sessions@))
                } else {
                    None::<Seq<char>>
                },
            ({
                let q = question_stats(turns@.take(i as int), sessions@, label@);
                r.0 as int == q.0 && r.1 == q.1 && r.2 == q.2 && r.3 as int == q.3 && r.4 == q.4 && r.5 as int == q.5
            }),
        decreases turns.len() - i,
    {
        proof {
            assert(turns@.take(i as int + 1).drop_last() == turns@.take(i as int));
            lemma_stats_bounded(turns@.take(i as int), sessions@, label@);
        }
        let counted = match &labels[i] {
            Some(l) => crate::chars::str_eq(l.as_str(), label),
            None => false,
        };
        proof {
            assert(opt_view(labels@[i as int]) == if turns@[i as int].timing.user_ms is Some {
                Some(turn_project_of(turns@[i as int], sessions@))
            } else {
                None::<Seq<char>>
            });
        }
        if counted {
            let t = &turns[i];
            let fr = t.timing.first_response_sec();
            let cp = t.timing.completion_sec();
            r = (
                r.0 + 1,
                r.1.wrapping_add(t.usage.total_tokens),
                match fr {
                    Some(v) => r.2.wrapping_add(v),
                    None => r.2,
                },
                match fr {
                    Some(_) => r.3 + 1,
                    None => r.3,
                },
                match cp {
                    Some(v) => r.4.wrapping_add(v),
                    None => r.4,
                },
                match cp {
                    Some(_) => r.5 + 1,
                    None => r.5,
                },
            );
        }
        i += 1;
    }
    proof {
        assert(turns@.take(turns@.len() as int) == turns@);
    }
    r
}

/// The texts of a list of strings.
pub open spec fn texts(list: Seq<String>) -> Seq<Seq<char>> {
    list.map_values(|s: String| s@)
}

/// Adds a label to a list unless it is there.
fn add_label(list: &mut Vec<String>, label: &str)
    ensures
        forall|k: Seq<char>| #[trigger] texts(final(list)@).contains(k) <==> (texts(old(list)@).contains(k) || k == label@),
        texts(old(list)@).no_duplicates() ==> texts(final(list)@).no_duplicates(),
{
    if !contains_text(list, label) {
        let ghost before = texts(list@);
        list.push(label.to_string());
        proof {
            let after = texts(list@);
            assert(after == before.push(label@));
            assert forall|k: Seq<char>| #[trigger] after.contains(k) <==> (before.contains(k) || k == label@) by {
                if before.contains(k) {
                    let i = choose|i: int| 0 <= i < before.len() && before[i] == k;
                    assert(after[i] == k);
                }
                if k == label@ {
                    assert(after[before.len() as int] == k);
                }
                if after.contains(k) {
                    let i = choose|i: int| 0 <= i < after.len() && after[i] == k;
                    if i < before.len() {
                        assert(before[i] == k);
                    }
                }
            }
        }
    }
}

/// The labels of some project tallies.
pub open spec fn tally_labels(ts: Seq<ProjectTally>) -> Seq<Seq<char>> {
    ts.map_values(|t: ProjectTally| t.label@)
}

/// A copy of a project tally.
fn clone_tally(t: &ProjectTally) -> (r: ProjectTally)
    ensures
        r == *t,
{
    ProjectTally {
        label: t.label.clone(),
        session_count: t.session_count,
        question_count: t.question_count,
        total_tokens: t.total_tokens,
        context_compactions: t.context_compactions,
        first_response_total: t.first_response_total,
        first_response_samples: t.first_response_samples,
        completion_total: t.completion_total,
        completion_samples: t.completion_samples,
        max_parallel_windows: t.max_parallel_windows,
    }
}

/// The value of a label in a chart, 0 where the label is not in it.
fn chart_value(chart: &Vec<ChartDatum>, label: &str) -> (r: i64)
    requires
        forall|i: int, j: int| 0 <= i < j < chart@.len() ==> (#[trigger] chart@[i]).label@ != (#[trigger] chart@[j]).label@,
    ensures
        chart_labels(chart@).contains(label@) ==> exists|i: int|
            0 <= i < chart@.len() && (#[trigger] chart@[i]).label@ == label@ && r == chart@[i].value,
        !chart_labels(chart@).contains(label@) ==> r == 0,
{
    let mut i: usize = 0;
    while i < chart.len()
        invariant
            i <= chart@.len(),
            forall|j: int| 0 <= j < i ==> (#[trigger] chart@[j]).label@ != label@,
        decreases chart.len() - i,
    {
        if crate::chars::str_eq(chart[i].label.as_str(), label) {
            assert(chart_labels(chart@)[i as int] == label@);
            return chart[i].value;
        }
        i += 1;
    }
    proof {
        if chart_labels(chart@).contains(label@) {
            let k = choose|k: int| 0 <= k < chart_labels(chart@).len() && chart_labels(chart@)[k] == label@;
            assert(chart@[k].label@ == label@);
        }
    }
    0
}

/// What the sessions and turns of each project add up to, at most `limit` projects: more
/// tokens first, then more sessions, then the label that sorts first. A project is listed
/// when it has a session, a turn with a question or a context compaction; a turn counts for its
/// own workspace's project, or else its session's; the most windows open at once are given for
/// the projects among the `2 * limit` with the most.
pub fn build_project_summaries(
    sessions: &[SessionSummary],
    turns: &[TurnRecord],
    compactions: &LabelCounts,
    limit: usize,
) -> (r: Vec<ProjectTally>)
    requires
        sessions@.len() < i64::MAX / 4,
        turns@.len() < i64::MAX,
    ensures
        exists|all: Seq<ProjectTally>, order: Seq<int>|
            {
                &&& tally_labels(all).no_duplicates()
                &&& forall|l: Seq<char>|
                    #[trigger] tally_labels(all).contains(l) <==> project_present(sessions@, turns@, compactions@, l)
                &&& forall|i: int|
                    0 <= i < all.len() ==> is_tally(
                        #[trigger] all[i],
                        sessions@,
                        turns@,
                        compactions@,
                        (if limit * 2 > usize::MAX { usize::MAX as int } else { limit * 2 }) as nat,
                    )
                &&& #[trigger] is_ranking(tally_standings(all), all_kept(all.len()), order)
                &&& r@.len() == if order.len() < limit { order.len() as int } else { limit as int }
                &&& forall|j: int| 0 <= j < r@.len() ==> #[trigger] r@[j] == all[order[j]]
            },
{
    let window_limit = match limit.checked_mul(2) {
        Some(v) => v,
        None => usize::MAX,
    };
    let ghost wl = (if limit * 2 > usize::MAX { usize::MAX as int } else { limit * 2 }) as nat;
    assert(window_limit as nat == wl);
    let mut session_labels: Vec<String> = Vec::new();
    let mut list: Vec<String> = Vec::new();
    let mut k: usize = 0;
    while k < sessions.len()
        invariant
            k <= sessions@.len(),
            session_labels@.len() == k,
            forall|j: int| 0 <= j < k ==> (#[trigger] session_labels@[j])@ == session_project(sessions@[j]),
            texts(list@).no_duplicates(),
            forall|l: Seq<char>|
                #[trigger] texts(list@).contains(l) <==> exists|j: int| 0 <= j < k && session_project(#[trigger] sessions@[j]) == l,
        decreases sessions.len() - k,
    {
        let s = &sessions[k];
        let place: Option<&str> = match &s.cwd {
            Some(c) => Some(c.as_str()),
            None => None,
        };
        let label = project_label_from_option(place);
        add_label(&mut list, label.as_str());
        session_labels.push(label);
        proof {
            assert forall|l: Seq<char>|
                #[trigger] texts(list@).contains(l) <==> exists|j: int| 0 <= j < k + 1 && session_project(#[trigger] sessions@[j]) == l by {
                if l == session_project(sessions@[k as int]) {
                    assert(0 <= k < k + 1 && session_project(sessions@[k as int]) == l);
                }
            }
        }
        k += 1;
    }
    let mut turn_labels: Vec<Option<String>> = Vec::new();
    let mut i: usize = 0;
    while i < turns.len()
        invariant
            i <= turns@.len(),
            turn_labels@.len() == i,
            forall|j: int|
                0 <= j < i ==> opt_view(#[trigger] turn_labels@[j]) == if turns@[j].timing.user_ms is Some {
                    Some(turn_project_of(turns@[j], sessions@))
                } else {
                    None::<Seq<char>>
                },
            texts(list@).no_duplicates(),
            forall|l: Seq<char>|
                #[trigger] texts(list@).contains(l) <==> ((exists|j: int|
                    0 <= j < sessions@.len() && session_project(#[trigger] sessions@[j]) == l) || (exists|j: int|
                    0 <= j < i && (#[trigger] turns@[j]).timing.user_ms is Some && turn_project_of(turns@[j], sessions@) == l)),
        decreases turns.len() - i,
    {
        let t = &turns[i];
        if t.timing.user_ms.is_some() {
            let (label, _) = turn_project(t, sessions);
            add_label(&mut list, label.as_str());
            turn_labels.push(Some(label));
        } else {
            turn_labels.push(None);
        }
        proof {
            assert forall|l: Seq<char>|
                #[trigger] texts(list@).contains(l) <==> ((exists|j: int|
                    0 <= j < sessions@.len() && session_project(#[trigger] sessions@[j]) == l) || (exists|j: int|
                    0 <= j < i + 1 && (#[trigger] turns@[j]).timing.user_ms is Some && turn_project_of(turns@[j], sessions@) == l)) by {
                if turns@[i as int].timing.user_ms is Some && l == turn_project_of(turns@[i as int], sessions@) {
                    assert(0 <= i < i + 1 && turns@[i as int].timing.user_ms is Some);
                }
            }
        }
        i += 1;
    }
    let compacted = compactions.labels();
    let mut c: usize = 0;
    while c < compacted.len()
        invariant
            c <= compacted@.len(),
            forall|k: Seq<char>| compactions@.contains_key(k) <==> exists|i: int| 0 <= i < compacted@.len() && (#[trigger] compacted@[i])@ == k,
            texts(list@).no_duplicates(),
            forall|l: Seq<char>|
                #[trigger] texts(list@).contains(l) <==> ((exists|j: int|
                    0 <= j < sessions@.len() && session_project(#[trigger] sessions@[j]) == l) || (exists|j: int|
                    0 <= j < turns@.len() && (#[trigger] turns@[j]).timing.user_ms is Some && turn_project_of(turns@[j], sessions@) == l)
                    || (exists|i: int| 0 <= i < c && (#[trigger] compacted@[i])@ == l)),
        decreases compacted.len() - c,
    {
        add_label(&mut list, compacted[c].as_str());
        proof {
            assert forall|l: Seq<char>|
                #[trigger] texts(list@).contains(l) <==> ((exists|j: int|
                    0 <= j < sessions@.len() && session_project(#[trigger] sessions@[j]) == l) || (exists|j: int|
                    0 <= j < turns@.len() && (#[trigger] turns@[j]).timing.user_ms is Some && turn_project_of(turns@[j], sessions@) == l)
                    || (exists|i: int| 0 <= i < c + 1 && (#[trigger] compacted@[i])@ == l)) by {
                if l == compacted@[c as int]@ {
                    assert(0 <= c < c + 1);
                }
            }
        }
        c += 1;
    }
    let chart = build_project_parallelism(sessions, window_limit);
    proof {
        let top = choose|ls: Seq<Seq<char>>| is_top(project_peaks(sessions@), wl, i64::MIN, ls);
        lemma_top_unique(project_peaks(sessions@), wl, i64::MIN, top, chart_labels(chart@));
        assert forall|a: int, b: int| 0 <= a < b < chart@.len() implies (#[trigger] chart@[a]).label@ != (
        #[trigger] chart@[b]).label@ by {
            lemma_top_distinct(project_peaks(sessions@), wl, i64::MIN, chart_labels(chart@), a, b);
        }
    }
    let mut all: Vec<ProjectTally> = Vec::new();
    let mut keys: Vec<Standing> = Vec::new();
    let mut keep: Vec<bool> = Vec::new();
    let mut m: usize = 0;
    while m < list.len()
        invariant
            m <= list@.len(),
            session_labels@.len() == sessions@.len() < i64::MAX / 4,
            turn_labels@.len() == turns@.len() < i64::MAX,
            forall|j: int| 0 <= j < sessions@.len() ==> (#[trigger] session_labels@[j])@ == session_project(sessions@[j]),
            forall|j: int|
                0 <= j < turns@.len() ==> opt_view(#[trigger] turn_labels@[j]) == if turns@[j].timing.user_ms is Some {
                    Some(turn_project_of(turns@[j], sessions@))
                } else {
                    None::<Seq<char>>
                },
            forall|a: int, b: int| 0 <= a < b < chart@.len() ==> (#[trigger] chart@[a]).label@ != (#[trigger] chart@[b]).label@,
            chart_labels(chart@) == choose|ls: Seq<Seq<char>>| is_top(project_peaks(sessions@), wl, i64::MIN, ls),
            forall|i: int| 0 <= i < chart@.len() ==> (#[trigger] chart@[i]).value == project_peaks(sessions@)[chart@[i].label@],
            all@.len() == m,
            tally_labels(all@) == texts(list@).take(m as int),
            forall|i: int| 0 <= i < m ==> is_tally(#[trigger] all@[i], sessions@, turns@, compactions@, wl),
            keys@ == tally_standings(all@),
            keep@ == all_kept(m as nat),
        decreases list.len() - m,
    {
        let label = list[m].as_str();
        let session_count = count_sessions_in(sessions, &session_labels, label);
        let q = stats_in(turns, sessions, &turn_labels, label);
        let windows = chart_value(&chart, label);
        let tally = ProjectTally {
            label: list[m].clone(),
            session_count,
            question_count: q.0,
            total_tokens: q.1,
            context_compactions: compactions.get(label),
            first_response_total: q.2,
            first_response_samples: q.3,
            completion_total: q.4,
            completion_samples: q.5,
            max_parallel_windows: windows,
        };
        proof {
            if chart_labels(chart@).contains(label@) {
                let i = choose|i: int| 0 <= i < chart@.len() && (#[trigger] chart@[i]).label@ == label@ && windows == chart@[i].value;
            }
            assert(is_tally(tally, sessions@, turns@, compactions@, wl));
        }
        keys.push(Standing { primary: tally.total_tokens, secondary: tally.session_count, id: tally.label.clone() });
        all.push(tally);
        keep.push(true);
        proof {
            assert(texts(list@).take(m as int + 1) == texts(list@).take(m as int).push(list@[m as int]@));
            assert(tally_labels(all@) == texts(list@).take(m as int + 1));
            assert(keys@ == tally_standings(all@));
        }
        m += 1;
    }
    proof {
        assert(texts(list@).take(list@.len() as int) == texts(list@));
    }
    let order = rank_positions(keys.as_slice(), &keep);
    let ghost ranked = order@.map_values(|i: usize| i as int);
    let n = if order.len() < limit {
        order.len()
    } else {
        limit
    };
    let mut out: Vec<ProjectTally> = Vec::new();
    let mut j: usize = 0;
    while j < n
        invariant
            j <= n,
            n <= order@.len(),
            ranked == order@.map_values(|i: usize| i as int),
            is_ranking(tally_standings(all@), all_kept(all@.len()), ranked),
            all@.len() == tally_standings(all@).len(),
            out@.len() == j,
            forall|x: int| 0 <= x < j ==> #[trigger] out@[x] == all@[ranked[x]],
        decreases n - j,
    {
        let p = order[j];
        assert(ranked[j as int] == p as int);
        out.push(clone_tally(&all[p]));
        j += 1;
    }
    proof {
        assert(tally_labels(all@) == texts(list@));
    }
    out
}

} // verus!
