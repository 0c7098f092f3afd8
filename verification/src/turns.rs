//! The timing of turns, the date range of the dashboard, and the sums over sessions and turns.
//!
//! Instants are milliseconds since the Unix epoch; dates are day numbers, one per calendar
//! day, so that the day after `d` is `d + 1`.
use crate::counts::{is_top, chart_labels, top_chart_data, LabelCounts};
use crate::filters::{preset_days, RangePreset, TimeGranularity};
use crate::models::{ChartDatum, TokenUsageSummary};
use crate::timeline::count_in;
use vstd::prelude::*;

verus! {

/// The whole seconds from `start` to `end`, in milliseconds, counting no time as 0 and time
/// that runs backwards as 0.
pub open spec fn whole_seconds(start: int, end: int) -> int {
    if end - start <= 0 {
        0
    } else {
        (end - start) / 1000
    }
}

fn seconds_between(start: i64, end: i64) -> (r: i64)
    ensures
        r == whole_seconds(start as int, end as int),
{
    let d = end as i128 - start as i128;
    if d <= 0 {
        0
    } else {
        (d / 1000) as i64
    }
}

/// The instants of a turn: when its task started, when the user asked, when the assistant
/// first answered and when the task completed, and the duration the task reported.
#[derive(Debug, Default, Clone, Copy)]
pub struct TurnTiming {
    pub started_ms: Option<i64>,
    pub user_ms: Option<i64>,
    pub first_assistant_ms: Option<i64>,
    pub completed_ms: Option<i64>,
    pub task_duration_ms: Option<i64>,
}

/// The seconds from the question to the first answer, when the turn has both.
pub open spec fn first_response_of(t: TurnTiming) -> Option<int> {
    match (t.user_ms, t.first_assistant_ms) {
        (Some(s), Some(e)) => Some(whole_seconds(s as int, e as int)),
        _ => None,
    }
}

/// The seconds the turn took: the duration it reported, else the time from the question (or
/// the start of the task) to its completion.
pub open spec fn completion_of(t: TurnTiming) -> Option<int> {
    match t.task_duration_ms {
        Some(ms) => Some(if ms <= 0 { 0 } else { ms / 1000 }),
        None => {
            let start = match t.user_ms {
                Some(u) => Some(u),
                None => t.started_ms,
            };
            match (start, t.completed_ms) {
                (Some(s), Some(e)) => Some(whole_seconds(s as int, e as int)),
                _ => None,
            }
        },
    }
}

/// The instant a turn is dated by: the question, else the start, the completion or the
/// first answer.
pub open spec fn anchor_of(t: TurnTiming) -> Option<i64> {
    match t.user_ms {
        Some(u) => Some(u),
        None => match t.started_ms {
            Some(s) => Some(s),
            None => match t.completed_ms {
                Some(c) => Some(c),
                None => t.first_assistant_ms,
            },
        },
    }
}

impl TurnTiming {
    /// The seconds from the question to the first answer.
    pub fn first_response_sec(&self) -> (r: Option<i64>)
        ensures
            match r {
                Some(v) => first_response_of(*self) == Some(v as int),
                None => first_response_of(*self) is None,
            },
    {
        match (self.user_ms, self.first_assistant_ms) {
            (Some(s), Some(e)) => Some(seconds_between(s, e)),
            _ => None,
        }
    }

    /// The seconds the turn took.
    pub fn completion_sec(&self) -> (r: Option<i64>)
        ensures
            match r {
                Some(v) => completion_of(*self) == Some(v as int),
                None => completion_of(*self) is None,
            },
    {
        match self.task_duration_ms {
            Some(ms) => Some(if ms <= 0 {
                0
            } else {
                ms / 1000
            }),
            None => {
                let start = match self.user_ms {
                    Some(u) => Some(u),
                    None => self.started_ms,
                };
                match (start, self.completed_ms) {
                    (Some(s), Some(e)) => Some(seconds_between(s, e)),
                    _ => None,
                }
            },
        }
    }

    /// The instant the turn is dated by.
    pub fn anchor_ms(&self) -> (r: Option<i64>)
        ensures
            r == anchor_of(*self),
    {
        match self.user_ms {
            Some(u) => Some(u),
            None => match self.started_ms {
                Some(s) => Some(s),
                None => match self.completed_ms {
                    Some(c) => Some(c),
                    None => self.first_assistant_ms,
                },
            },
        }
    }
}

/// The token totals over some usages: input, output, cached input, reasoning output, total.
pub open spec fn usage_sums(us: Seq<TokenUsageSummary>) -> (int, int, int, int, int)
    decreases us.len(),
{
    if us.len() == 0 {
        (0, 0, 0, 0, 0)
    } else {
        let (a, b, c, d, e) = usage_sums(us.drop_last());
        let u = us.last();
        (
            a + u.input_tokens,
            b + u.output_tokens,
            c + u.cached_input_tokens,
            d + u.reasoning_output_tokens,
            e + u.total_tokens,
        )
    }
}

/// Whether a total fits in `i64`.
pub open spec fn fits(v: int) -> bool {
    i64::MIN <= v <= i64::MAX
}

/// Whether every running total over the usages stays within `i64`.
pub open spec fn sums_fit(us: Seq<TokenUsageSummary>) -> bool {
    forall|n: int|
        0 <= n <= us.len() ==> {
            let t = #[trigger] usage_sums(us.take(n));
            fits(t.0) && fits(t.1) && fits(t.2) && fits(t.3) && fits(t.4)
        }
}

/// The token totals over some turns.
pub fn build_token_usage_summary(usages: &[TokenUsageSummary]) -> (r: TokenUsageSummary)
    requires
        sums_fit(usages@),
    ensures
        (r.input_tokens as int, r.output_tokens as int, r.cached_input_tokens as int, r.reasoning_output_tokens as int, r.total_tokens as int)
            == usage_sums(usages@),
{
    let mut r = TokenUsageSummary {
        input_tokens: 0,
        output_tokens: 0,
        cached_input_tokens: 0,
        reasoning_output_tokens: 0,
        total_tokens: 0,
    };
    let mut i: usize = 0;
    assert(usages@.take(0) =~= Seq::<TokenUsageSummary>::empty());
    while i < usages.len()
        invariant
            i <= usages@.len(),
            sums_fit(usages@),
            (r.input_tokens as int, r.output_tokens as int, r.cached_input_tokens as int, r.reasoning_output_tokens as int, r.total_tokens as int)
                == usage_sums(usages@.take(i as int)),
        decreases usages.len() - i,
    {
        let u = &usages[i];
        let ghost t = usages@.take(i as int + 1);
        assert(t.drop_last() == usages@.take(i as int));
        assert(t.last() == *u);
        let ghost sums = usage_sums(t);
        assert(fits(sums.0) && fits(sums.1) && fits(sums.2) && fits(sums.3) && fits(sums.4));
        r.input_tokens = r.input_tokens + u.input_tokens;
        r.output_tokens = r.output_tokens + u.output_tokens;
        r.cached_input_tokens = r.cached_input_tokens + u.cached_input_tokens;
        r.reasoning_output_tokens = r.reasoning_output_tokens + u.reasoning_output_tokens;
        r.total_tokens = r.total_tokens + u.total_tokens;
        i += 1;
    }
    assert(usages@.take(usages@.len() as int) == usages@);
    r
}

/// The label a session is counted under in a chart of sessions: the chosen text when it is
/// not blank, else `Unknown`.
pub open spec fn session_label(value: Option<Seq<char>>) -> Seq<char> {
    match value {
        Some(v) => if crate::chars::is_blank(v) {
            "Unknown"@
        } else {
            v
        },
        None => "Unknown"@,
    }
}

/// The number of sessions counted under each label.
pub open spec fn label_tally(values: Seq<Option<Seq<char>>>) -> Map<Seq<char>, i64>
    decreases values.len(),
{
    if values.len() == 0 {
        Map::empty()
    } else {
        let before = label_tally(values.drop_last());
        let l = session_label(values.last());
        before.insert(l, (count_in(before, l) + 1) as i64)
    }
}

proof fn lemma_label_tally_bounded(values: Seq<Option<Seq<char>>>)
    requires
        values.len() <= i64::MAX,
    ensures
        forall|k: Seq<char>| label_tally(values).contains_key(k) ==> 0 < label_tally(values)[k] <= values.len(),
    decreases values.len(),
{
    if values.len() > 0 {
        lemma_label_tally_bounded(values.drop_last());
        let before = label_tally(values.drop_last());
        let l = session_label(values.last());
        assert(0 <= count_in(before, l) <= values.len() - 1);
    }
}

/// The labels that most sessions are counted under, with their counts: the chosen text of
/// each session, `Unknown` where it is blank or missing, at most `limit` of them.
pub fn top_metrics_from_sessions(values: &[Option<String>], limit: usize) -> (r: Vec<ChartDatum>)
    requires
        values@.len() <= i64::MAX,
    ensures
        is_top(
            label_tally(values@.map_values(|v: Option<String>| crate::models::opt_view(v))),
            limit as nat,
            1,
            chart_labels(r@),
        ),
        forall|i: int|
            0 <= i < r@.len() ==> (#[trigger] r@[i]).value == label_tally(
                values@.map_values(|v: Option<String>| crate::models::opt_view(v)),
            )[r@[i].label@],
{
    let ghost vs = values@.map_values(|v: Option<String>| crate::models::opt_view(v));
    let mut counts = LabelCounts::new();
    let mut i: usize = 0;
    while i < values.len()
        invariant
            i <= values@.len(),
            values@.len() <= i64::MAX,
            vs == values@.map_values(|v: Option<String>| crate::models::opt_view(v)),
            counts@ == label_tally(vs.take(i as int)),
        decreases values.len() - i,
    {
        let ghost t = vs.take(i as int + 1);
        assert(t.drop_last() == vs.take(i as int));
        proof {
            lemma_label_tally_bounded(vs.take(i as int));
        }
        let label = match &values[i] {
            Some(v) => if crate::chars::is_blank_str(v.as_str()) {
                "Unknown".to_owned()
            } else {
                v.clone()
            },
            None => "Unknown".to_owned(),
        };
        assert(label@ == session_label(t.last()));
        counts.increment(label.as_str(), 1);
        i += 1;
    }
    assert(vs.take(values@.len() as int) == vs);
    top_chart_data(&counts, limit)
}

/// The days a dashboard covers, and the days that hold sessions.
#[derive(Debug, Clone, Copy)]
pub struct ScopeDays {
    pub preset: RangePreset,
    pub granularity: TimeGranularity,
    pub start: i64,
    pub end: i64,
    pub available_start: Option<i64>,
    pub available_end: Option<i64>,
}

/// The bounds that chrono's dates stay within, as day numbers.
pub open spec fn day_in_range(d: i64) -> bool {
    -100_000_000 <= d <= 100_000_000
}

/// The first and last of some days; none when there are none.
pub open spec fn day_span(days: Seq<i64>) -> Option<(i64, i64)>
    decreases days.len(),
{
    if days.len() == 0 {
        None
    } else {
        let d = days.last();
        match day_span(days.drop_last()) {
            Some((a, b)) => Some((if d < a { d } else { a }, if d > b { d } else { b })),
            None => Some((d, d)),
        }
    }
}

/// The first and last of the days that hold sessions.
pub fn available_span(days: &[i64]) -> (r: Option<(i64, i64)>)
    ensures
        r == day_span(days@),
{
    let mut r: Option<(i64, i64)> = None;
    let mut i: usize = 0;
    while i < days.len()
        invariant
            i <= days@.len(),
            r == day_span(days@.take(i as int)),
        decreases days.len() - i,
    {
        let d = days[i];
        assert(days@.take(i as int + 1).drop_last() == days@.take(i as int));
        r = match r {
            Some((a, b)) => Some((if d < a { d } else { a }, if d > b { d } else { b })),
            None => Some((d, d)),
        };
        i += 1;
    }
    assert(days@.take(days@.len() as int) == days@);
    r
}

/// The range a preset covers: the last days up to today; all the days that hold sessions; or
/// the days asked for, falling back on those that hold sessions and then on today; earlier
/// day first.
pub open spec fn scope_bounds(
    preset: RangePreset,
    date_from: Option<i64>,
    date_to: Option<i64>,
    available: Option<(i64, i64)>,
    today: i64,
) -> (int, int) {
    let (s, e) = match preset_days(preset) {
        Some(n) => (today - n, today as int),
        None => {
            let avail_start = match available {
                Some((a, _)) => a as int,
                None => today as int,
            };
            let avail_end = match available {
                Some((_, b)) => b as int,
                None => today as int,
            };
            if preset == RangePreset::Custom {
                (
                    match date_from {
                        Some(d) => d as int,
                        None => avail_start,
                    },
                    match date_to {
                        Some(d) => d as int,
                        None => avail_end,
                    },
                )
            } else {
                (avail_start, avail_end)
            }
        },
    };
    if s > e {
        (e, s)
    } else {
        (s, e)
    }
}

/// A dashboard's range never runs backwards: its first day comes on or before its last; and
/// a preset of the last seven, 30, 90 or 365 days ends today and covers exactly that many days.
pub proof fn lemma_scope_ordered(
    preset: RangePreset,
    date_from: Option<i64>,
    date_to: Option<i64>,
    available: Option<(i64, i64)>,
    today: i64,
)
    ensures
        scope_bounds(preset, date_from, date_to, available, today).0 <= scope_bounds(
            preset,
            date_from,
            date_to,
            available,
            today,
        ).1,
        preset_days(preset) matches Some(n) ==> scope_bounds(preset, date_from, date_to, available, today)
            == (today - n, today as int) && n + 1 == match preset {
            RangePreset::Days7 => 7int,
            RangePreset::Days30 => 30int,
            RangePreset::Days90 => 90int,
            _ => 365int,
        },
{
}

/// The days a dashboard covers, given the preset and granularity asked for, the dates given,
/// the days that hold sessions and today.
pub fn resolve_scope(
    preset: RangePreset,
    granularity: TimeGranularity,
    date_from: Option<i64>,
    date_to: Option<i64>,
    available: Option<(i64, i64)>,
    today: i64,
) -> (r: ScopeDays)
    requires
        day_in_range(today),
    ensures
        (r.start as int, r.end as int) == scope_bounds(preset, date_from, date_to, available, today),
        r.preset == preset,
        r.granularity == granularity,
        r.available_start == (match available {
            Some((a, _)) => Some(a),
            None => None,
        }),
        r.available_end == (match available {
            Some((_, b)) => Some(b),
            None => None,
        }),
{
    let (avail_start, avail_end) = match available {
        Some((a, b)) => (Some(a), Some(b)),
        None => (None, None),
    };
    let (s, e) = match preset.days_back() {
        Some(n) => (today - n, today),
        None => {
            let a = match avail_start {
                Some(a) => a,
                None => today,
            };
            let b = match avail_end {
                Some(b) => b,
                None => today,
            };
            if preset == RangePreset::Custom {
                (
                    match date_from {
                        Some(d) => d,
                        None => a,
                    },
                    match date_to {
                        Some(d) => d,
                        None => b,
                    },
                )
            } else {
                (a, b)
            }
        },
    };
    let (start, end) = if s > e {
        (e, s)
    } else {
        (s, e)
    };
    ScopeDays { preset, granularity, start, end, available_start: avail_start, available_end: avail_end }
}

impl ScopeDays {
    /// Whether a day lies in the range.
    pub fn contains_date(&self, day: i64) -> (r: bool)
        ensures
            r == (self.start <= day && day <= self.end),
    {
        day >= self.start && day <= self.end
    }

    /// The number of days in the range.
    pub fn total_days(&self) -> (r: i64)
        requires
            day_in_range(self.start),
            day_in_range(self.end),
        ensures
            r == self.end - self.start + 1,
    {
        self.end - self.start + 1
    }
}

/// The range of the activity heatmap: from 370 days before the last day that holds sessions
/// (but not after today), or from the first day that holds sessions where that is later, to
/// that last day; by day.
pub open spec fn heatmap_bounds(scope: ScopeDays, today: i64) -> (int, int) {
    let last = match scope.available_end {
        Some(b) => b as int,
        None => scope.end as int,
    };
    let end = if last < today { last } else { today as int };
    let candidate = end - 370;
    let start = match scope.available_start {
        Some(a) => if a > candidate { a as int } else { candidate },
        None => candidate,
    };
    (start, end)
}

/// The range of the activity heatmap.
pub fn build_heatmap_scope(scope: &ScopeDays, today: i64) -> (r: ScopeDays)
    requires
        day_in_range(today),
        day_in_range(scope.end),
        scope.available_end matches Some(b) ==> day_in_range(b),
    ensures
        (r.start as int, r.end as int) == heatmap_bounds(*scope, today),
        r.preset == RangePreset::Custom,
        r.granularity == TimeGranularity::Day,
        r.available_start == scope.available_start,
        r.available_end == Some(r.end),
{
    let last = match scope.available_end {
        Some(b) => b,
        None => scope.end,
    };
    let end = if last < today {
        last
    } else {
        today
    };
    let candidate = end - 370;
    let start = match scope.available_start {
        Some(a) => if a > candidate {
            a
        } else {
            candidate
        },
        None => candidate,
    };
    ScopeDays {
        preset: RangePreset::Custom,
        granularity: TimeGranularity::Day,
        start,
        end,
        available_start: scope.available_start,
        available_end: Some(end),
    }
}

} // verus!
