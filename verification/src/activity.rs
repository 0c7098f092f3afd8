//! Activity over time: sessions and questions per day of the dashboard's range, and the same
//! added up per week, month or year. Days are numbered as chrono's `num_days_from_ce` numbers
//! them, 0001-01-01 being day 1.
use crate::filters::{granularity_name, preset_name, TimeGranularity};
use crate::models::{ActivityPoint, DashboardScope};
use crate::numbers::{average_i64, rounded_average};
use crate::turn_table::TurnRecord;
use crate::turns::{completion_of, first_response_of, ScopeDays};
use vstd::prelude::*;

verus! {

/// The Monday on or before a day, as chrono's `NaiveDate::weekday` gives it; `None` where the
/// day number is outside chrono's dates.
pub uninterp spec fn week_start_of(day: i64) -> Option<i64>;

/// The first day of a day's month, as chrono's `NaiveDate::from_ymd_opt` gives it.
pub uninterp spec fn month_start_of(day: i64) -> Option<i64>;

/// The first day of a day's year, as chrono's `NaiveDate::from_ymd_opt` gives it.
pub uninterp spec fn year_start_of(day: i64) -> Option<i64>;

/// A day written `%Y-%m-%d` by chrono.
pub uninterp spec fn day_text_of(day: i64) -> Option<Seq<char>>;

/// A day's month written `%Y-%m` by chrono.
pub uninterp spec fn month_text_of(day: i64) -> Option<Seq<char>>;

/// A day's year written `%Y` by chrono.
pub uninterp spec fn year_text_of(day: i64) -> Option<Seq<char>>;

/// chrono's `NaiveDate::from_num_days_from_ce_opt`, less its weekday's `num_days_from_monday`.
/// Day numbers count consecutive days of the proleptic Gregorian calendar, whose day 1,
/// 0001-01-01, is a Monday; so the contract says that the result, where there is one, is the
/// Monday on or before the day: six days before it at most, and a day number one more than a
/// multiple of seven. Which days chrono can represent is named, not stated.
#[verifier::external_body]
fn week_start(day: i64) -> (r: Option<i64>)
    ensures
        r == week_start_of(day),
        r matches Some(w) ==> w <= day && day - w < 7 && (w - 1) % 7 == 0,
{
    let date = chrono::NaiveDate::from_num_days_from_ce_opt(i32::try_from(day).ok()?)?;
    let back = chrono::Datelike::weekday(&date).num_days_from_monday();
    date.checked_sub_signed(chrono::Duration::days(back as i64)).map(|d| chrono::Datelike::num_days_from_ce(&d) as i64)
}

/// chrono's `NaiveDate::from_ymd_opt` of a day's year and month and the first day. The
/// contract names the result and says only that it is the day itself or one of the thirty days
/// before it, as the first of the day's month is.
#[verifier::external_body]
fn month_start(day: i64) -> (r: Option<i64>)
    ensures
        r == month_start_of(day),
        r matches Some(m) ==> m <= day && day - m < 31,
{
    let date = chrono::NaiveDate::from_num_days_from_ce_opt(i32::try_from(day).ok()?)?;
    chrono::NaiveDate::from_ymd_opt(chrono::Datelike::year(&date), chrono::Datelike::month(&date), 1).map(
        |d| chrono::Datelike::num_days_from_ce(&d) as i64,
    )
}

/// chrono's `NaiveDate::from_ymd_opt` of a day's year, January and the first day. The
/// contract names the result and says only that it is the day itself or one of the 365 days
/// before it, as the first of the day's year is.
#[verifier::external_body]
fn year_start(day: i64) -> (r: Option<i64>)
    ensures
        r == year_start_of(day),
        r matches Some(y) ==> y <= day && day - y < 366,
{
    let date = chrono::NaiveDate::from_num_days_from_ce_opt(i32::try_from(day).ok()?)?;
    chrono::NaiveDate::from_ymd_opt(chrono::Datelike::year(&date), 1, 1).map(|d| chrono::Datelike::num_days_from_ce(&d) as i64)
}

/// chrono's `NaiveDate::format` with `%Y-%m-%d`. The contract names the text and claims nothing
/// else of it.
#[verifier::external_body]
fn day_text(day: i64) -> (r: Option<String>)
    ensures
        match r {
            Some(s) => day_text_of(day) == Some(s@),
            None => day_text_of(day) is None,
        },
{
    let date = chrono::NaiveDate::from_num_days_from_ce_opt(i32::try_from(day).ok()?)?;
    Some(date.format("%Y-%m-%d").to_string())
}

/// chrono's `NaiveDate::format` with `%Y-%m`. The contract names the text and claims nothing
/// else of it.
#[verifier::external_body]
fn month_text(day: i64) -> (r: Option<String>)
    ensures
        match r {
            Some(s) => month_text_of(day) == Some(s@),
            None => month_text_of(day) is None,
        },
{
    let date = chrono::NaiveDate::from_num_days_from_ce_opt(i32::try_from(day).ok()?)?;
    Some(date.format("%Y-%m").to_string())
}

/// chrono's `NaiveDate::format` with `%Y`. The contract names the text and claims nothing else
/// of it.
#[verifier::external_body]
fn year_text(day: i64) -> (r: Option<String>)
    ensures
        match r {
            Some(s) => year_text_of(day) == Some(s@),
            None => year_text_of(day) is None,
        },
{
    let date = chrono::NaiveDate::from_num_days_from_ce_opt(i32::try_from(day).ok()?)?;
    Some(date.format("%Y").to_string())
}

/// An optional day, the given day where there is none.
pub open spec fn or_day(o: Option<i64>, day: i64) -> i64 {
    match o {
        Some(d) => d,
        None => day,
    }
}

/// The first day of the bucket a day falls in: the day itself, its week's Monday, or the first
/// day of its month or year.
pub open spec fn bucket_start_of(day: i64, g: TimeGranularity) -> i64 {
    match g {
        TimeGranularity::Day => day,
        TimeGranularity::Week => or_day(week_start_of(day), day),
        TimeGranularity::Month => or_day(month_start_of(day), day),
        TimeGranularity::Year => or_day(year_start_of(day), day),
    }
}

/// The first day of the bucket a day falls in.
pub fn bucket_start(day: i64, g: TimeGranularity) -> (r: i64)
    ensures
        r == bucket_start_of(day, g),
        g == TimeGranularity::Day ==> r == day,
        g == TimeGranularity::Week ==> r <= day && day - r < 7,
        g == TimeGranularity::Week && week_start_of(day) is Some ==> (r - 1) % 7 == 0,
        g == TimeGranularity::Month ==> r <= day && day - r < 31,
        g == TimeGranularity::Year ==> r <= day && day - r < 366,
{
    match g {
        TimeGranularity::Day => day,
        TimeGranularity::Week => match week_start(day) {
            Some(d) => d,
            None => day,
        },
        TimeGranularity::Month => match month_start(day) {
            Some(d) => d,
            None => day,
        },
        TimeGranularity::Year => match year_start(day) {
            Some(d) => d,
            None => day,
        },
    }
}

/// An optional text, empty where there is none.
pub open spec fn or_empty(o: Option<Seq<char>>) -> Seq<char> {
    match o {
        Some(s) => s,
        None => Seq::empty(),
    }
}

/// The label of the bucket that starts on a day: the day, `Wk ` and the day, the month, or the
/// year.
pub open spec fn bucket_label_of(start: i64, g: TimeGranularity) -> Seq<char> {
    match g {
        TimeGranularity::Day => or_empty(day_text_of(start)),
        TimeGranularity::Week => seq!['W', 'k', ' '] + or_empty(day_text_of(start)),
        TimeGranularity::Month => or_empty(month_text_of(start)),
        TimeGranularity::Year => or_empty(year_text_of(start)),
    }
}

fn text_or_empty(o: Option<String>) -> (r: String)
    ensures
        r@ == or_empty(opt_text(o)),
{
    match o {
        Some(s) => s,
        None => String::new(),
    }
}

/// An optional string, seen as text.
pub open spec fn opt_text(o: Option<String>) -> Option<Seq<char>> {
    match o {
        Some(s) => Some(s@),
        None => None,
    }
}

/// The label of the bucket that starts on a day.
pub fn bucket_label(start: i64, g: TimeGranularity) -> (r: String)
    ensures
        r@ == bucket_label_of(start, g),
{
    match g {
        TimeGranularity::Day => text_or_empty(day_text(start)),
        TimeGranularity::Week => {
            let day = text_or_empty(day_text(start));
            let mut label = String::from_str("Wk ");
            proof {
                reveal_strlit("Wk ");
            }
            label.append(day.as_str());
            label
        },
        TimeGranularity::Month => text_or_empty(month_text(start)),
        TimeGranularity::Year => text_or_empty(year_text(start)),
    }
}

/// What a day or bucket adds up to: its sessions and questions, and the seconds to the first
/// answer and to completion summed over the questions that have them, with their numbers.
#[derive(Debug, Clone, Copy)]
pub struct ActivityTally {
    pub day: i64,
    pub sessions: i64,
    pub questions: i64,
    pub first_response_total: i64,
    pub first_response_samples: i64,
    pub completion_total: i64,
    pub completion_samples: i64,
}

/// The number of sessions dated on a day.
pub open spec fn day_sessions(days: Seq<i64>, day: i64) -> int
    decreases days.len(),
{
    if days.len() == 0 {
        0
    } else {
        day_sessions(days.drop_last(), day) + if days.last() == day {
            1int
        } else {
            0
        }
    }
}

/// Over the turns with a question dated on a day: their number, the seconds to the first answer
/// and the number of turns that have them, and the seconds to completion and the number of
/// turns that have them. Sums wrap as in a release build.
pub open spec fn day_stats(turns: Seq<TurnRecord>, days: Seq<Option<i64>>, day: i64) -> (int, i64, int, i64, int)
    decreases turns.len(),
{
    if turns.len() == 0 {
        (0, 0, 0, 0, 0)
    } else {
        let n = turns.len() - 1;
        let r = day_stats(turns.drop_last(), days.take(n), day);
        let t = turns[n];
        if t.timing.user_ms is Some && days[n] == Some(day) {
            let fr = first_response_of(t.timing);
            let cp = completion_of(t.timing);
            (
                r.0 + 1,
                match fr {
                    Some(v) => r.1.wrapping_add(v as i64),
                    None => r.1,
                },
                match fr {
                    Some(_) => r.2 + 1,
                    None => r.2,
                },
                match cp {
                    Some(v) => r.3.wrapping_add(v as i64),
                    None => r.3,
                },
                match cp {
                    Some(_) => r.4 + 1,
                    None => r.4,
                },
            )
        } else {
            r
        }
    }
}

/// `t` is what its day adds up to.
pub open spec fn is_daily(t: ActivityTally, session_days: Seq<i64>, turns: Seq<TurnRecord>, turn_days: Seq<Option<i64>>) -> bool {
    let q = day_stats(turns, turn_days, t.day);
    &&& t.sessions as int == day_sessions(session_days, t.day)
    &&& t.questions as int == q.0
    &&& t.first_response_total == q.1
    &&& t.first_response_samples as int == q.2
    &&& t.completion_total == q.3
    &&& t.completion_samples as int == q.4
}

proof fn lemma_day_sessions_bounded(days: Seq<i64>, day: i64)
    ensures
        0 <= day_sessions(days, day) <= days.len(),
    decreases days.len(),
{
    if days.len() > 0 {
        lemma_day_sessions_bounded(days.drop_last(), day);
    }
}

proof fn lemma_day_stats_bounded(turns: Seq<TurnRecord>, days: Seq<Option<i64>>, day: i64)
    ensures
        0 <= day_stats(turns, days, day).0 <= turns.len(),
        0 <= day_stats(turns, days, day).2 <= turns.len(),
        0 <= day_stats(turns, days, day).4 <= turns.len(),
    decreases turns.len(),
{
    if turns.len() > 0 {
        lemma_day_stats_bounded(turns.drop_last(), days.take(turns.len() - 1), day);
    }
}

/// The activity of each day from `start` to `end`, earlier first: the sessions dated on it and
/// the turns with a question whose local day it is.
pub fn build_daily_activity(
    start: i64,
    end: i64,
    session_days: &[i64],
    turns: &[TurnRecord],
    turn_days: &[Option<i64>],
) -> (r: Vec<ActivityTally>)
    requires
        crate::turns::day_in_range(start),
        crate::turns::day_in_range(end),
        turns@.len() == turn_days@.len(),
        turns@.len() < i64::MAX,
        session_days@.len() < i64::MAX,
    ensures
        r@.len() == if start <= end { end - start + 1 } else { 0 },
        forall|k: int|
            0 <= k < r@.len() ==> (#[trigger] r@[k]).day == start + k && is_daily(r@[k], session_days@, turns@, turn_days@),
{
    let mut tallies: Vec<ActivityTally> = Vec::new();
    if start > end {
        return tallies;
    }
    let count = (end - start + 1) as usize;
    let mut k: usize = 0;
    while k < count
        invariant
            start <= end,
            crate::turns::day_in_range(start),
            crate::turns::day_in_range(end),
            count == end - start + 1,
            k <= count,
            tallies@.len() == k,
            forall|m: int| 0 <= m < k ==> (#[trigger] tallies@[m]) == (ActivityTally {
                day: (start + m) as i64,
                sessions: 0,
                questions: 0,
                first_response_total: 0,
                first_response_samples: 0,
                completion_total: 0,
                completion_samples: 0,
            }),
        decreases count - k,
    {
        tallies.push(
            ActivityTally {
                day: start + k as i64,
                sessions: 0,
                questions: 0,
                first_response_total: 0,
                first_response_samples: 0,
                completion_total: 0,
                completion_samples: 0,
            },
        );
        k += 1;
    }
    let mut i: usize = 0;
    while i < session_days.len()
        invariant
            start <= end,
            crate::turns::day_in_range(start),
            crate::turns::day_in_range(end),
            count == end - start + 1,
            tallies@.len() == count,
            i <= session_days@.len() < i64::MAX,
            forall|m: int| 0 <= m < count ==> (#[trigger] tallies@[m]).day == start + m,
            forall|m: int|
                0 <= m < count ==> (#[trigger] tallies@[m]).sessions as int == day_sessions(
                    session_days@.take(i as int),
                    tallies@[m].day,
                ),
            forall|m: int|
                0 <= m < count ==> (#[trigger] tallies@[m]).questions == 0 && tallies@[m].first_response_total == 0
                    && tallies@[m].first_response_samples == 0 && tallies@[m].completion_total == 0
                    && tallies@[m].completion_samples == 0,
        decreases session_days.len() - i,
    {
        let d = session_days[i];
        proof {
            assert(session_days@.take(i as int + 1).drop_last() == session_days@.take(i as int));
            assert forall|m: int| 0 <= m < count implies day_sessions(session_days@.take(i as int), #[trigger] tallies@[m].day) <= i by {
                lemma_day_sessions_bounded(session_days@.take(i as int), tallies@[m].day);
            }
        }
        if d >= start && d <= end {
            let idx = (d - start) as usize;
            let mut t = tallies[idx];
            t.sessions = t.sessions + 1;
            tallies.set(idx, t);
        }
        i += 1;
    }
    proof {
        assert(session_days@.take(session_days@.len() as int) == session_days@);
        assert(turns@.take(0) =~= Seq::<TurnRecord>::empty());
    }
    let mut j: usize = 0;
    while j < turns.len()
        invariant
            start <= end,
            crate::turns::day_in_range(start),
            crate::turns::day_in_range(end),
            count == end - start + 1,
            tallies@.len() == count,
            j <= turns@.len() == turn_days@.len(),
            turns@.len() < i64::MAX,
            forall|m: int| 0 <= m < count ==> (#[trigger] tallies@[m]).day == start + m,
            forall|m: int|
                0 <= m < count ==> (#[trigger] tallies@[m]).sessions as int == day_sessions(session_days@, tallies@[m].day),
            forall|m: int|
                0 <= m < count ==> {
                    let q = day_stats(turns@.take(j as int), turn_days@.take(j as int), (#[trigger] tallies@[m]).day);
                    tallies@[m].questions as int == q.0 && tallies@[m].first_response_total == q.1
                        && tallies@[m].first_response_samples as int == q.2 && tallies@[m].completion_total == q.3
                        && tallies@[m].completion_samples as int == q.4
                },
        decreases turns.len() - j,
    {
        let ghost ts = turns@.take(j as int + 1);
        let ghost ds = turn_days@.take(j as int + 1);
        proof {
            assert(ts.drop_last() == turns@.take(j as int));
            assert(ds.take(j as int) == turn_days@.take(j as int));
            assert(ts[j as int] == turns@[j as int]);
            assert(ds[j as int] == turn_days@[j as int]);
            assert forall|m: int| 0 <= m < count implies day_stats(turns@.take(j as int), turn_days@.take(j as int), #[trigger] tallies@[m].day).0 <= j
                && day_stats(turns@.take(j as int), turn_days@.take(j as int), tallies@[m].day).2 <= j
                && day_stats(turns@.take(j as int), turn_days@.take(j as int), tallies@[m].day).4 <= j by {
                lemma_day_stats_bounded(turns@.take(j as int), turn_days@.take(j as int), tallies@[m].day);
            }
        }
        let t = &turns[j];
        if t.timing.user_ms.is_some() {
            match turn_days[j] {
                Some(d) => {
                    if d >= start && d <= end {
                        let idx = (d - start) as usize;
                        let mut a = tallies[idx];
                        let fr = t.timing.first_response_sec();
                        let cp = t.timing.completion_sec();
                        a.questions = a.questions + 1;
                        match fr {
                            Some(v) => {
                                a.first_response_total = a.first_response_total.wrapping_add(v);
                                a.first_response_samples = a.first_response_samples + 1;
                            },
                            None => {},
                        }
                        match cp {
                            Some(v) => {
                                a.completion_total = a.completion_total.wrapping_add(v);
                                a.completion_samples = a.completion_samples + 1;
                            },
                            None => {},
                        }
                        tallies.set(idx, a);
                    }
                },
                None => {},
            }
        }
        j += 1;
    }
    proof {
        assert(turns@.take(turns@.len() as int) == turns@);
        assert(turn_days@.take(turn_days@.len() as int) == turn_days@);
    }
    tallies
}

/// `p` shows tally `t` under `label`, its averages rounded to whole seconds.
pub open spec fn shows(p: ActivityPoint, t: ActivityTally, label: Seq<char>) -> bool {
    &&& p.date@ == label
    &&& p.sessions == t.sessions
    &&& p.questions == t.questions
    &&& p.avg_first_response_sec as int == rounded_average(t.first_response_total as int, t.first_response_samples as int)
    &&& p.avg_turn_completion_sec as int == rounded_average(t.completion_total as int, t.completion_samples as int)
}

fn point_of(t: &ActivityTally, label: String) -> (r: ActivityPoint)
    ensures
        shows(r, *t, label@),
{
    ActivityPoint {
        date: label,
        sessions: t.sessions,
        questions: t.questions,
        avg_first_response_sec: average_i64(t.first_response_total, t.first_response_samples),
        avg_turn_completion_sec: average_i64(t.completion_total, t.completion_samples),
    }
}

/// The points of daily tallies, each under its day written `%Y-%m-%d`.
pub fn activity_points(tallies: &[ActivityTally]) -> (r: Vec<ActivityPoint>)
    ensures
        r@.len() == tallies@.len(),
        forall|k: int|
            0 <= k < r@.len() ==> shows(#[trigger] r@[k], tallies@[k], bucket_label_of(tallies@[k].day, TimeGranularity::Day)),
{
    let mut out: Vec<ActivityPoint> = Vec::new();
    let mut k: usize = 0;
    while k < tallies.len()
        invariant
            k <= tallies@.len(),
            out@.len() == k,
            forall|m: int|
                0 <= m < k ==> shows(#[trigger] out@[m], tallies@[m], bucket_label_of(tallies@[m].day, TimeGranularity::Day)),
        decreases tallies.len() - k,
    {
        let t = &tallies[k];
        out.push(point_of(t, bucket_label(t.day, TimeGranularity::Day)));
        k += 1;
    }
    out
}

/// Two tallies added up, under the first one's day; sums wrap as in a release build.
pub open spec fn merged(a: ActivityTally, b: ActivityTally) -> ActivityTally {
    ActivityTally {
        day: a.day,
        sessions: a.sessions.wrapping_add(b.sessions),
        questions: a.questions.wrapping_add(b.questions),
        first_response_total: a.first_response_total.wrapping_add(b.first_response_total),
        first_response_samples: a.first_response_samples.wrapping_add(b.first_response_samples),
        completion_total: a.completion_total.wrapping_add(b.completion_total),
        completion_samples: a.completion_samples.wrapping_add(b.completion_samples),
    }
}

/// Consecutive tallies whose days fall in the same bucket, added up under the first day of
/// that bucket.
pub open spec fn grouped(tallies: Seq<ActivityTally>, g: TimeGranularity) -> Seq<ActivityTally>
    decreases tallies.len(),
{
    if tallies.len() == 0 {
        Seq::empty()
    } else {
        let rest = grouped(tallies.drop_last(), g);
        let t = tallies.last();
        let s = bucket_start_of(t.day, g);
        if rest.len() > 0 && rest.last().day == s {
            rest.update(rest.len() - 1, merged(rest.last(), t))
        } else {
            rest.push(ActivityTally { day: s, ..t })
        }
    }
}

/// Activity per bucket of the granularity over consecutive days, earlier buckets first, each
/// under its label; by day, the daily points themselves.
pub fn aggregate_activity(tallies: &[ActivityTally], g: TimeGranularity) -> (r: Vec<ActivityPoint>)
    ensures
        ({
            let gs = if g == TimeGranularity::Day { tallies@ } else { grouped(tallies@, g) };
            &&& r@.len() == gs.len()
            &&& forall|k: int| 0 <= k < r@.len() ==> shows(#[trigger] r@[k], gs[k], bucket_label_of(gs[k].day, g))
        }),
{
    if let TimeGranularity::Day = g {
        return activity_points(tallies);
    }
    let mut groups: Vec<ActivityTally> = Vec::new();
    let mut k: usize = 0;
    while k < tallies.len()
        invariant
            k <= tallies@.len(),
            groups@ == grouped(tallies@.take(k as int), g),
        decreases tallies.len() - k,
    {
        let t = tallies[k];
        let s = bucket_start(t.day, g);
        proof {
            assert(tallies@.take(k as int + 1).drop_last() == tallies@.take(k as int));
        }
        let n = groups.len();
        if n > 0 && groups[n - 1].day == s {
            let a = groups[n - 1];
            let m = ActivityTally {
                day: a.day,
                sessions: a.sessions.wrapping_add(t.sessions),
                questions: a.questions.wrapping_add(t.questions),
                first_response_total: a.first_response_total.wrapping_add(t.first_response_total),
                first_response_samples: a.first_response_samples.wrapping_add(t.first_response_samples),
                completion_total: a.completion_total.wrapping_add(t.completion_total),
                completion_samples: a.completion_samples.wrapping_add(t.completion_samples),
            };
            groups.set(n - 1, m);
        } else {
            groups.push(ActivityTally { day: s, ..t });
        }
        k += 1;
    }
    proof {
        assert(tallies@.take(tallies@.len() as int) == tallies@);
    }
    let mut out: Vec<ActivityPoint> = Vec::new();
    let mut j: usize = 0;
    while j < groups.len()
        invariant
            j <= groups@.len(),
            out@.len() == j,
            forall|m: int| 0 <= m < j ==> shows(#[trigger] out@[m], groups@[m], bucket_label_of(groups@[m].day, g)),
        decreases groups.len() - j,
    {
        let t = &groups[j];
        out.push(point_of(t, bucket_label(t.day, g)));
        j += 1;
    }
    out
}

/// The whole-number figures of the dashboard overview; the averages over sessions and turns are
/// taken from the same sessions and turns.
#[derive(Debug, Clone, Copy)]
pub struct OverviewCounts {
    pub total_sessions: i64,
    pub total_questions: i64,
    pub active_days: i64,
    pub sessions_last_7_days: i64,
    pub sessions_last_30_days: i64,
    pub total_tool_calls: i64,
}

/// The number of different days among some days.
pub open spec fn distinct_days(days: Seq<i64>) -> int
    decreases days.len(),
{
    if days.len() == 0 {
        0
    } else {
        distinct_days(days.drop_last()) + if days.drop_last().contains(days.last()) {
            0int
        } else {
            1
        }
    }
}

/// The latest of some days, or `today` when there are none.
pub open spec fn last_day(days: Seq<i64>, today: i64) -> i64
    decreases days.len(),
{
    if days.len() == 0 {
        today
    } else if days.len() == 1 {
        days[0]
    } else {
        let rest = last_day(days.drop_last(), today);
        if days.last() > rest {
            days.last()
        } else {
            rest
        }
    }
}

/// The number of days on or after `from`.
pub open spec fn days_since(days: Seq<i64>, from: int) -> int
    decreases days.len(),
{
    if days.len() == 0 {
        0
    } else {
        days_since(days.drop_last(), from) + if days.last() >= from {
            1int
        } else {
            0
        }
    }
}

/// The number of turns with a question.
pub open spec fn question_count(turns: Seq<TurnRecord>) -> int
    decreases turns.len(),
{
    if turns.len() == 0 {
        0
    } else {
        question_count(turns.drop_last()) + if turns.last().timing.user_ms is Some {
            1int
        } else {
            0
        }
    }
}

/// The tool calls of some sessions, summed with wrapping as in a release build.
pub open spec fn tool_call_total(counts: Seq<i64>) -> i64
    decreases counts.len(),
{
    if counts.len() == 0 {
        0
    } else {
        tool_call_total(counts.drop_last()).wrapping_add(counts.last())
    }
}

proof fn lemma_counts_bounded(days: Seq<i64>, from: int, turns: Seq<TurnRecord>)
    ensures
        0 <= distinct_days(days) <= days.len(),
        0 <= days_since(days, from) <= days.len(),
        0 <= question_count(turns) <= turns.len(),
    decreases days.len() + turns.len(),
{
    if days.len() > 0 {
        lemma_counts_bounded(days.drop_last(), from, turns);
    } else if turns.len() > 0 {
        lemma_counts_bounded(days, from, turns.drop_last());
    }
}

/// The overview's counts of sessions, dated by `session_days`, and of turns: the sessions; the
/// days with a session; the sessions of the last 7 and 30 days up to the latest session's day
/// (or today when there is none); the turns with a question; and the tool calls of the sessions.
pub fn overview_counts(session_days: &[i64], tool_calls: &[i64], turns: &[TurnRecord], today: i64) -> (r: OverviewCounts)
    requires
        session_days@.len() < i64::MAX,
        turns@.len() < i64::MAX,
        crate::turns::day_in_range(today),
        forall|i: int| 0 <= i < session_days@.len() ==> crate::turns::day_in_range(#[trigger] session_days@[i]),
    ensures
        r.total_sessions as int == session_days@.len(),
        r.active_days as int == distinct_days(session_days@),
        r.sessions_last_7_days as int == days_since(session_days@, last_day(session_days@, today) - 6),
        r.sessions_last_30_days as int == days_since(session_days@, last_day(session_days@, today) - 29),
        r.total_questions as int == question_count(turns@),
        r.total_tool_calls == tool_call_total(tool_calls@),
{
    let mut last: i64 = today;
    let mut distinct: i64 = 0;
    let mut i: usize = 0;
    while i < session_days.len()
        invariant
            i <= session_days@.len() < i64::MAX,
            crate::turns::day_in_range(today),
            forall|m: int| 0 <= m < session_days@.len() ==> crate::turns::day_in_range(#[trigger] session_days@[m]),
            last == last_day(session_days@.take(i as int), today),
            distinct as int == distinct_days(session_days@.take(i as int)),
            crate::turns::day_in_range(last),
        decreases session_days.len() - i,
    {
        let d = session_days[i];
        let ghost pre = session_days@.take(i as int);
        proof {
            assert(session_days@.take(i as int + 1).drop_last() == pre);
            lemma_counts_bounded(pre, 0, Seq::empty());
        }
        let mut seen = false;
        let mut j: usize = 0;
        while j < i
            invariant
                j <= i < session_days@.len(),
                pre == session_days@.take(i as int),
                seen == exists|m: int| 0 <= m < j && session_days@[m] == d,
            decreases i - j,
        {
            if session_days[j] == d {
                seen = true;
            }
            j += 1;
        }
        proof {
            if seen {
                let m = choose|m: int| 0 <= m < i && session_days@[m] == d;
                assert(pre[m] == d);
            } else {
                assert forall|m: int| 0 <= m < pre.len() implies pre[m] != d by {
                    assert(pre[m] == session_days@[m]);
                }
            }
        }
        if !seen {
            distinct = distinct + 1;
        }
        if i == 0 || d > last {
            last = d;
        }
        i += 1;
    }
    proof {
        assert(session_days@.take(session_days@.len() as int) == session_days@);
    }
    let mut week: i64 = 0;
    let mut month: i64 = 0;
    let mut k: usize = 0;
    while k < session_days.len()
        invariant
            k <= session_days@.len() < i64::MAX,
            crate::turns::day_in_range(last),
            week as int == days_since(session_days@.take(k as int), last - 6),
            month as int == days_since(session_days@.take(k as int), last - 29),
        decreases session_days.len() - k,
    {
        proof {
            assert(session_days@.take(k as int + 1).drop_last() == session_days@.take(k as int));
            lemma_counts_bounded(session_days@.take(k as int), last - 6, Seq::empty());
            lemma_counts_bounded(session_days@.take(k as int), last - 29, Seq::empty());
        }
        if session_days[k] >= last - 6 {
            week = week + 1;
        }
        if session_days[k] >= last - 29 {
            month = month + 1;
        }
        k += 1;
    }
    proof {
        assert(session_days@.take(session_days@.len() as int) == session_days@);
    }
    let mut questions: i64 = 0;
    let mut t: usize = 0;
    while t < turns.len()
        invariant
            t <= turns@.len() < i64::MAX,
            questions as int == question_count(turns@.take(t as int)),
        decreases turns.len() - t,
    {
        proof {
            assert(turns@.take(t as int + 1).drop_last() == turns@.take(t as int));
            lemma_counts_bounded(Seq::empty(), 0, turns@.take(t as int));
        }
        if turns[t].timing.user_ms.is_some() {
            questions = questions + 1;
        }
        t += 1;
    }
    proof {
        assert(turns@.take(turns@.len() as int) == turns@);
    }
    let mut tools: i64 = 0;
    let mut c: usize = 0;
    while c < tool_calls.len()
        invariant
            c <= tool_calls@.len(),
            tools == tool_call_total(tool_calls@.take(c as int)),
        decreases tool_calls.len() - c,
    {
        proof {
            assert(tool_calls@.take(c as int + 1).drop_last() == tool_calls@.take(c as int));
        }
        tools = tools.wrapping_add(tool_calls[c]);
        c += 1;
    }
    proof {
        assert(tool_calls@.take(tool_calls@.len() as int) == tool_calls@);
    }
    OverviewCounts {
        total_sessions: session_days.len() as i64,
        total_questions: questions,
        active_days: distinct,
        sessions_last_7_days: week,
        sessions_last_30_days: month,
        total_tool_calls: tools,
    }
}

/// The first days of the buckets that the `count` days from `start` fall in, each once, in
/// order.
pub open spec fn bucket_starts(start: int, count: nat, g: TimeGranularity) -> Seq<i64>
    decreases count,
{
    if count == 0 {
        Seq::empty()
    } else {
        let rest = bucket_starts(start, (count - 1) as nat, g);
        let s = bucket_start_of((start + count - 1) as i64, g);
        if rest.len() > 0 && rest.last() == s {
            rest
        } else {
            rest.push(s)
        }
    }
}

/// The labels of the buckets that the days from `start` to `end` fall in, in order.
pub open spec fn scope_bucket_labels(start: i64, end: i64, g: TimeGranularity) -> Seq<Seq<char>> {
    let count: nat = if start <= end { (end - start + 1) as nat } else { 0 };
    bucket_starts(start as int, count, g).map_values(|d: i64| bucket_label_of(d, g))
}

/// The labels of the buckets of the dashboard's range, each once, in order.
pub fn bucket_labels_in_scope(start: i64, end: i64, g: TimeGranularity) -> (r: Vec<String>)
    requires
        crate::turns::day_in_range(start),
        crate::turns::day_in_range(end),
    ensures
        r@.map_values(|s: String| s@) == scope_bucket_labels(start, end, g),
{
    let mut starts: Vec<i64> = Vec::new();
    if start <= end {
        let mut d: i64 = start;
        while d <= end
            invariant
                start <= d <= end + 1,
                crate::turns::day_in_range(start),
                crate::turns::day_in_range(end),
                starts@ == bucket_starts(start as int, (d - start) as nat, g),
            decreases end + 1 - d,
        {
            let s = bucket_start(d, g);
            let n = starts.len();
            if !(n > 0 && starts[n - 1] == s) {
                starts.push(s);
            }
            d += 1;
        }
    }
    let mut out: Vec<String> = Vec::new();
    let mut k: usize = 0;
    while k < starts.len()
        invariant
            k <= starts@.len(),
            out@.len() == k,
            forall|i: int| 0 <= i < k ==> (#[trigger] out@[i])@ == bucket_label_of(starts@[i], g),
        decreases starts.len() - k,
    {
        out.push(bucket_label(starts[k], g));
        k += 1;
    }
    proof {
        assert(out@.map_values(|s: String| s@) =~= starts@.map_values(|d: i64| bucket_label_of(d, g)));
    }
    out
}

/// The day that a `%Y-%m-%d` text names, as chrono's `NaiveDate::parse_from_str` reads it.
pub uninterp spec fn day_of_text(text: Seq<char>) -> Option<i64>;

/// chrono's `NaiveDate::parse_from_str` with `%Y-%m-%d`, as a day number. The contract names
/// the day and claims nothing else of it.
#[verifier::external_body]
fn parse_day(text: &str) -> (r: Option<i64>)
    ensures
        r == day_of_text(text@),
{
    chrono::NaiveDate::parse_from_str(text, "%Y-%m-%d").ok().map(|d| chrono::Datelike::num_days_from_ce(&d) as i64)
}

/// The day that a date filter names, where it names one.
pub fn parse_naive_date(value: &str) -> (r: Option<i64>)
    ensures
        r == day_of_text(value@),
{
    parse_day(value)
}

/// The range of a dashboard as it is shown: the names of its preset and granularity, its first
/// and last days and those holding sessions written `%Y-%m-%d`, and its number of days.
pub fn scope_to_api(scope: &ScopeDays) -> (r: DashboardScope)
    requires
        crate::turns::day_in_range(scope.start),
        crate::turns::day_in_range(scope.end),
    ensures
        r.preset@ == preset_name(scope.preset),
        r.granularity@ == granularity_name(scope.granularity),
        r.date_from@ == bucket_label_of(scope.start, TimeGranularity::Day),
        r.date_to@ == bucket_label_of(scope.end, TimeGranularity::Day),
        opt_text(r.available_from) == match scope.available_start {
            Some(d) => Some(bucket_label_of(d, TimeGranularity::Day)),
            None => None,
        },
        opt_text(r.available_to) == match scope.available_end {
            Some(d) => Some(bucket_label_of(d, TimeGranularity::Day)),
            None => None,
        },
        r.total_days == scope.end - scope.start + 1,
{
    DashboardScope {
        preset: scope.preset.as_str().to_owned(),
        granularity: scope.granularity.as_str().to_owned(),
        date_from: bucket_label(scope.start, TimeGranularity::Day),
        date_to: bucket_label(scope.end, TimeGranularity::Day),
        available_from: match scope.available_start {
            Some(d) => Some(bucket_label(d, TimeGranularity::Day)),
            None => None,
        },
        available_to: match scope.available_end {
            Some(d) => Some(bucket_label(d, TimeGranularity::Day)),
            None => None,
        },
        total_days: scope.end - scope.start + 1,
    }
}

} // verus!
