//! The filters of the dashboard and of the session list: the time granularity, the range
//! preset and the section asked for, and the query that lists sessions.
use crate::chars::{ascii_lower, is_blank, is_blank_str, lower_str, str_eq, trim, trim_str};
use crate::json::{join_strings, joined};
use crate::models::{opt_view, SessionListFilters};
use vstd::prelude::*;

verus! {

/// A filter value as the dashboard reads it: the given value or the default, trimmed and in
/// ASCII lower case.
pub open spec fn filter_key(value: Option<Seq<char>>, default: Seq<char>) -> Seq<char> {
    ascii_lower(
        trim(
            match value {
                Some(v) => v,
                None => default,
            },
        ),
    )
}

fn filter_key_of(value: Option<&str>, default: &str) -> (r: String)
    ensures
        r@ == filter_key(
            match value {
                Some(v) => Some(v@),
                None => None,
            },
            default@,
        ),
{
    let v = match value {
        Some(v) => v,
        None => default,
    };
    let t = trim_str(v);
    lower_str(t.as_str())
}

/// How the dashboard groups dates.
#[derive(Debug, Clone, Copy, PartialEq, Eq, Structural)]
pub enum TimeGranularity {
    Day,
    Week,
    Month,
    Year,
}

/// The granularity a filter value names: `week`, `month` or `year`, anything else a day.
pub open spec fn granularity_of(value: Option<Seq<char>>) -> TimeGranularity {
    let k = filter_key(value, "day"@);
    if k == "week"@ {
        TimeGranularity::Week
    } else if k == "month"@ {
        TimeGranularity::Month
    } else if k == "year"@ {
        TimeGranularity::Year
    } else {
        TimeGranularity::Day
    }
}

/// The name of a granularity.
pub open spec fn granularity_name(g: TimeGranularity) -> Seq<char> {
    match g {
        TimeGranularity::Day => "day"@,
        TimeGranularity::Week => "week"@,
        TimeGranularity::Month => "month"@,
        TimeGranularity::Year => "year"@,
    }
}

impl TimeGranularity {
    /// The granularity a filter value names.
    pub fn from_filter(value: Option<&str>) -> (r: Self)
        ensures
            r == granularity_of(
                match value {
                    Some(v) => Some(v@),
                    None => None,
                },
            ),
    {
        let k = filter_key_of(value, "day");
        if str_eq(k.as_str(), "week") {
            TimeGranularity::Week
        } else if str_eq(k.as_str(), "month") {
            TimeGranularity::Month
        } else if str_eq(k.as_str(), "year") {
            TimeGranularity::Year
        } else {
            TimeGranularity::Day
        }
    }

    /// The name of the granularity.
    pub fn as_str(self) -> (r: &'static str)
        ensures
            r@ == granularity_name(self),
    {
        match self {
            TimeGranularity::Day => "day",
            TimeGranularity::Week => "week",
            TimeGranularity::Month => "month",
            TimeGranularity::Year => "year",
        }
    }
}

/// The date range the dashboard covers.
#[derive(Debug, Clone, Copy, PartialEq, Eq, Structural)]
pub enum RangePreset {
    Days7,
    Days30,
    Days90,
    Days365,
    All,
    Custom,
}

/// The preset a filter value names: `7d`, `90d`, `365d`, `all` or `custom`, anything else
/// thirty days.
pub open spec fn preset_of(value: Option<Seq<char>>) -> RangePreset {
    let k = filter_key(value, "30d"@);
    if k == "7d"@ {
        RangePreset::Days7
    } else if k == "90d"@ {
        RangePreset::Days90
    } else if k == "365d"@ {
        RangePreset::Days365
    } else if k == "all"@ {
        RangePreset::All
    } else if k == "custom"@ {
        RangePreset::Custom
    } else {
        RangePreset::Days30
    }
}

/// The name of a preset.
pub open spec fn preset_name(p: RangePreset) -> Seq<char> {
    match p {
        RangePreset::Days7 => "7d"@,
        RangePreset::Days30 => "30d"@,
        RangePreset::Days90 => "90d"@,
        RangePreset::Days365 => "365d"@,
        RangePreset::All => "all"@,
        RangePreset::Custom => "custom"@,
    }
}

/// The days before today that a preset reaches back, for the presets that count days.
pub open spec fn preset_days(p: RangePreset) -> Option<int> {
    match p {
        RangePreset::Days7 => Some(6),
        RangePreset::Days30 => Some(29),
        RangePreset::Days90 => Some(89),
        RangePreset::Days365 => Some(364),
        _ => None,
    }
}

impl RangePreset {
    /// The preset a filter value names.
    pub fn from_filter(value: Option<&str>) -> (r: Self)
        ensures
            r == preset_of(
                match value {
                    Some(v) => Some(v@),
                    None => None,
                },
            ),
    {
        let k = filter_key_of(value, "30d");
        if str_eq(k.as_str(), "7d") {
            RangePreset::Days7
        } else if str_eq(k.as_str(), "90d") {
            RangePreset::Days90
        } else if str_eq(k.as_str(), "365d") {
            RangePreset::Days365
        } else if str_eq(k.as_str(), "all") {
            RangePreset::All
        } else if str_eq(k.as_str(), "custom") {
            RangePreset::Custom
        } else {
            RangePreset::Days30
        }
    }

    /// The name of the preset.
    pub fn as_str(self) -> (r: &'static str)
        ensures
            r@ == preset_name(self),
    {
        match self {
            RangePreset::Days7 => "7d",
            RangePreset::Days30 => "30d",
            RangePreset::Days90 => "90d",
            RangePreset::Days365 => "365d",
            RangePreset::All => "all",
            RangePreset::Custom => "custom",
        }
    }

    /// How many days before today the range starts, for the presets that count days.
    pub fn days_back(self) -> (r: Option<i64>)
        ensures
            match r {
                Some(d) => preset_days(self) == Some(d as int),
                None => preset_days(self) is None,
            },
    {
        match self {
            RangePreset::Days7 => Some(6),
            RangePreset::Days30 => Some(29),
            RangePreset::Days90 => Some(89),
            RangePreset::Days365 => Some(364),
            _ => None,
        }
    }
}

/// The part of the dashboard that is asked for.
#[derive(Debug, Clone, Copy, PartialEq, Eq, Structural)]
pub enum SummarySection {
    All,
    Overview,
    Performance,
    Workflow,
    Search,
    Projects,
    Correlations,
}

/// The section a filter value names; anything unknown asks for all of them.
pub open spec fn section_of(value: Option<Seq<char>>) -> SummarySection {
    let k = filter_key(value, "all"@);
    if k == "overview"@ {
        SummarySection::Overview
    } else if k == "performance"@ {
        SummarySection::Performance
    } else if k == "workflow"@ {
        SummarySection::Workflow
    } else if k == "search"@ {
        SummarySection::Search
    } else if k == "projects"@ {
        SummarySection::Projects
    } else if k == "correlations"@ {
        SummarySection::Correlations
    } else {
        SummarySection::All
    }
}

impl SummarySection {
    /// The section a filter value names.
    pub fn from_filter(value: Option<&str>) -> (r: Self)
        ensures
            r == section_of(
                match value {
                    Some(v) => Some(v@),
                    None => None,
                },
            ),
    {
        let k = filter_key_of(value, "all");
        if str_eq(k.as_str(), "overview") {
            SummarySection::Overview
        } else if str_eq(k.as_str(), "performance") {
            SummarySection::Performance
        } else if str_eq(k.as_str(), "workflow") {
            SummarySection::Workflow
        } else if str_eq(k.as_str(), "search") {
            SummarySection::Search
        } else if str_eq(k.as_str(), "projects") {
            SummarySection::Projects
        } else if str_eq(k.as_str(), "correlations") {
            SummarySection::Correlations
        } else {
            SummarySection::All
        }
    }

    /// Whether the overview is asked for.
    pub fn includes_overview(self) -> (r: bool)
        ensures
            r == (self == SummarySection::All || self == SummarySection::Overview),
    {
        matches!(self, SummarySection::All | SummarySection::Overview)
    }

    /// Whether the performance charts are asked for.
    pub fn includes_performance(self) -> (r: bool)
        ensures
            r == (self == SummarySection::All || self == SummarySection::Performance),
    {
        matches!(self, SummarySection::All | SummarySection::Performance)
    }

    /// Whether the workflow charts are asked for.
    pub fn includes_workflow(self) -> (r: bool)
        ensures
            r == (self == SummarySection::All || self == SummarySection::Workflow),
    {
        matches!(self, SummarySection::All | SummarySection::Workflow)
    }

    /// Whether the search charts are asked for.
    pub fn includes_search(self) -> (r: bool)
        ensures
            r == (self == SummarySection::All || self == SummarySection::Search),
    {
        matches!(self, SummarySection::All | SummarySection::Search)
    }

    /// Whether the project charts are asked for.
    pub fn includes_projects(self) -> (r: bool)
        ensures
            r == (self == SummarySection::All || self == SummarySection::Projects),
    {
        matches!(self, SummarySection::All | SummarySection::Projects)
    }

    /// Whether the correlation charts are asked for.
    pub fn includes_correlations(self) -> (r: bool)
        ensures
            r == (self == SummarySection::All || self == SummarySection::Correlations),
    {
        matches!(self, SummarySection::All | SummarySection::Correlations)
    }
}

/// The date of a session, in SQL: the first ten characters of its last or first timestamp.
pub open spec fn session_date_sql() -> Seq<char> {
    "substr(COALESCE(updated_at, started_at, ''), 1, 10)"@
}

/// The conditions and parameters that the session list adds for its filters, after the
/// condition that always holds.
pub open spec fn session_conditions(f: SessionListFilters) -> (Seq<Seq<char>>, Seq<Seq<char>>) {
    let base = (seq!["1 = 1"@], Seq::<Seq<char>>::empty());
    let q = match opt_view(f.query) {
        Some(v) if !is_blank(v) => {
            let like = "%"@ + trim(v) + "%"@;
            (
                base.0.push("(thread_title LIKE ? OR cwd LIKE ? OR first_user_message LIKE ?)"@),
                base.1.push(like).push(like).push(like),
            )
        },
        _ => base,
    };
    let c = match opt_view(f.cwd) {
        Some(v) if !is_blank(v) => (q.0.push("cwd LIKE ?"@), q.1.push("%"@ + trim(v) + "%"@)),
        _ => q,
    };
    let s = match opt_view(f.source) {
        Some(v) if !is_blank(v) => (c.0.push("source LIKE ?"@), c.1.push("%"@ + trim(v) + "%"@)),
        _ => c,
    };
    let from = match opt_view(f.date_from) {
        Some(v) if !is_blank(v) => (s.0.push(session_date_sql() + " >= ?"@), s.1.push(v)),
        _ => s,
    };
    match opt_view(f.date_to) {
        Some(v) if !is_blank(v) => (from.0.push(session_date_sql() + " <= ?"@), from.1.push(v)),
        _ => from,
    }
}

/// The date bounds of the session list are inclusive: a date filter adds the condition that the
/// session's date (the first ten characters of its last or first timestamp) is on or after
/// `date_from` and on or before `date_to`, never strictly, with the filter's value as the
/// condition's parameter; the `date_to` condition comes last.
pub proof fn lemma_date_bounds_inclusive(f: SessionListFilters)
    ensures
        match opt_view(f.date_to) {
            Some(v) => !is_blank(v) ==> {
                &&& session_conditions(f).0.last() == "substr(COALESCE(updated_at, started_at, ''), 1, 10) <= ?"@
                &&& session_conditions(f).1.last() == v
                &&& session_where(f) == joined(session_conditions(f).0.drop_last(), " AND "@) + " AND "@
                    + "substr(COALESCE(updated_at, started_at, ''), 1, 10) <= ?"@
            },
            None => true,
        },
        match opt_view(f.date_from) {
            Some(v) => !is_blank(v) ==> {
                let c = session_conditions(f);
                let k = match opt_view(f.date_to) {
                    Some(w) => if !is_blank(w) { 2int } else { 1int },
                    None => 1int,
                };
                &&& c.0[c.0.len() - k] == "substr(COALESCE(updated_at, started_at, ''), 1, 10) >= ?"@
                &&& c.1[c.1.len() - k] == v
            },
            None => true,
        },
{
    reveal_strlit("substr(COALESCE(updated_at, started_at, ''), 1, 10)");
    reveal_strlit(" <= ?");
    reveal_strlit(" >= ?");
    reveal_strlit("substr(COALESCE(updated_at, started_at, ''), 1, 10) <= ?");
    reveal_strlit("substr(COALESCE(updated_at, started_at, ''), 1, 10) >= ?");
    assert(session_date_sql() + " <= ?"@ =~= "substr(COALESCE(updated_at, started_at, ''), 1, 10) <= ?"@);
    assert(session_date_sql() + " >= ?"@ =~= "substr(COALESCE(updated_at, started_at, ''), 1, 10) >= ?"@);
}

/// The statements and parameters that list sessions.
#[derive(Debug)]
pub struct SessionListQuery {
    /// Counts the sessions that pass the filters.
    pub count_sql: String,
    /// Lists one page of them, the latest first; its parameters are `values`, then `limit`
    /// and `offset`.
    pub list_sql: String,
    /// The parameters of the conditions, in order.
    pub values: Vec<String>,
    /// The most rows a page holds.
    pub limit: i64,
    /// How many rows come before the page.
    pub offset: i64,
}

/// The condition clause of the session list.
pub open spec fn session_where(f: SessionListFilters) -> Seq<char> {
    joined(session_conditions(f).0, " AND "@)
}

fn push_like(clauses: &mut Vec<String>, values: &mut Vec<String>, clause: &str, value: &str, times: usize)
    ensures
        final(clauses)@.map_values(|s: String| s@) == old(clauses)@.map_values(|s: String| s@).push(clause@),
        final(values)@.map_values(|s: String| s@) == old(values)@.map_values(|s: String| s@) + Seq::new(
            times as nat,
            |i: int| "%"@ + trim(value@) + "%"@,
        ),
{
    clauses.push(clause.to_owned());
    assert(clauses@.map_values(|s: String| s@) =~= old(clauses)@.map_values(|s: String| s@).push(clause@));
    let t = trim_str(value);
    let mut like = String::new();
    like.append("%");
    like.append(t.as_str());
    like.append("%");
    let ghost start = values@.map_values(|s: String| s@);
    let mut k: usize = 0;
    while k < times
        invariant
            k <= times,
            like@ == "%"@ + trim(value@) + "%"@,
            values@.map_values(|s: String| s@) == start + Seq::new(k as nat, |i: int| "%"@ + trim(value@) + "%"@),
        decreases times - k,
    {
        let ghost before = values@;
        let item = like.clone();
        values.push(item);
        assert(values@.map_values(|s: String| s@) =~= before.map_values(|s: String| s@).push(like@));
        assert(values@.map_values(|s: String| s@) =~= start + Seq::new(
            (k + 1) as nat,
            |i: int| "%"@ + trim(value@) + "%"@,
        ));
        k += 1;
    }
}

fn push_exact(clauses: &mut Vec<String>, values: &mut Vec<String>, clause: String, value: &String)
    ensures
        final(clauses)@.map_values(|s: String| s@) == old(clauses)@.map_values(|s: String| s@).push(clause@),
        final(values)@.map_values(|s: String| s@) == old(values)@.map_values(|s: String| s@).push(value@),
{
    let ghost c = clause@;
    clauses.push(clause);
    assert(clauses@.map_values(|s: String| s@) =~= old(clauses)@.map_values(|s: String| s@).push(c));
    values.push(value.clone());
    assert(values@.map_values(|s: String| s@) =~= old(values)@.map_values(|s: String| s@).push(value@));
}

fn filled(value: &Option<String>) -> (r: bool)
    ensures
        r == (opt_view(*value) matches Some(v) && !is_blank(v)),
{
    match value {
        Some(v) => !is_blank_str(v.as_str()),
        None => false,
    }
}

/// The statements that count and list the sessions that pass the filters: the query, the
/// working directory and the source match anywhere (trimmed), the dates bound the session's
/// date, blank filters are left out; a page holds 25 rows from the first unless the filters say
/// otherwise.
pub fn session_list_query(filters: &SessionListFilters) -> (r: SessionListQuery)
    ensures
        r.values@.map_values(|s: String| s@) == session_conditions(*filters).1,
        r.count_sql@ == "SELECT COUNT(*) FROM sessions WHERE "@ + session_where(*filters),
        r.list_sql@ == "SELECT id, thread_title, cwd, source, updated_at, started_at, duration_sec, user_message_count,\n                assistant_message_count, tool_call_count, turn_count, warning_count, first_user_message\n         FROM sessions\n         WHERE "@
            + session_where(*filters) + "\n         ORDER BY COALESCE(updated_at, started_at) DESC\n         LIMIT ? OFFSET ?"@,
        r.limit == match filters.limit {
            Some(l) => l as i64,
            None => 25,
        },
        r.offset == match filters.offset {
            Some(o) => o as i64,
            None => 0,
        },
{
    let mut clauses: Vec<String> = Vec::new();
    let mut values: Vec<String> = Vec::new();
    clauses.push("1 = 1".to_owned());
    assert(clauses@.map_values(|s: String| s@) =~= seq!["1 = 1"@]);
    assert(values@.map_values(|s: String| s@) =~= Seq::<Seq<char>>::empty());
    if filled(&filters.query) {
        let q = filters.query.as_ref().unwrap();
        push_like(&mut clauses, &mut values, "(thread_title LIKE ? OR cwd LIKE ? OR first_user_message LIKE ?)", q.as_str(), 3);
    }
    let ghost after_query = (clauses@.map_values(|s: String| s@), values@.map_values(|s: String| s@));
    if filled(&filters.cwd) {
        let c = filters.cwd.as_ref().unwrap();
        push_like(&mut clauses, &mut values, "cwd LIKE ?", c.as_str(), 1);
    }
    if filled(&filters.source) {
        let s = filters.source.as_ref().unwrap();
        push_like(&mut clauses, &mut values, "source LIKE ?", s.as_str(), 1);
    }
    if filled(&filters.date_from) {
        let d = filters.date_from.as_ref().unwrap();
        let mut clause = "substr(COALESCE(updated_at, started_at, ''), 1, 10)".to_owned();
        clause.append(" >= ?");
        push_exact(&mut clauses, &mut values, clause, d);
    }
    if filled(&filters.date_to) {
        let d = filters.date_to.as_ref().unwrap();
        let mut clause = "substr(COALESCE(updated_at, started_at, ''), 1, 10)".to_owned();
        clause.append(" <= ?");
        push_exact(&mut clauses, &mut values, clause, d);
    }
    assert(clauses@.map_values(|s: String| s@) =~= session_conditions(*filters).0);
    assert(values@.map_values(|s: String| s@) =~= session_conditions(*filters).1);
    let where_sql = join_strings(&clauses, " AND ");
    let mut count_sql = "SELECT COUNT(*) FROM sessions WHERE ".to_owned();
    count_sql.append(where_sql.as_str());
    let mut list_sql = "SELECT id, thread_title, cwd, source, updated_at, started_at, duration_sec, user_message_count,\n                assistant_message_count, tool_call_count, turn_count, warning_count, first_user_message\n         FROM sessions\n         WHERE ".to_owned();
    list_sql.append(where_sql.as_str());
    list_sql.append("\n         ORDER BY COALESCE(updated_at, started_at) DESC\n         LIMIT ? OFFSET ?");
    let limit: i64 = match filters.limit {
        Some(l) => l as i64,
        None => 25,
    };
    let offset: i64 = match filters.offset {
        Some(o) => o as i64,
        None => 0,
    };
    SessionListQuery { count_sql, list_sql, values, limit, offset }
}

} // verus!
