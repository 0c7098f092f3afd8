//! Ranked lists for the dashboard: the heaviest or slowest turns, the busiest session windows,
//! and the most recently active sessions.
use crate::models::{opt_view, ProjectWindowRecord, RankedTurnRecord, SessionSummary};
use crate::parsers::{clone_opt, iso_from_millis, utc_rfc3339_of};
use crate::ranking::{is_ranking, rank_positions, Recency, Standing};
use crate::turn_table::TurnRecord;
use crate::turns::{completion_of, first_response_of, TurnTiming};
use crate::workspace::{project_label_from_option, project_label_of_option};
use vstd::prelude::*;

verus! {

/// What turns are ranked by.
#[derive(Clone, Copy, Debug)]
pub enum RankedTurnMode {
    ByTokens,
    ByCompletionLatency,
}

/// An optional count, widened.
pub open spec fn widened(o: Option<i64>) -> Option<int> {
    match o {
        Some(v) => Some(v as int),
        None => None,
    }
}

/// The seconds a turn took, or zero when that is unknown.
pub open spec fn completion_score(t: TurnTiming) -> i64 {
    match completion_of(t) {
        Some(v) => v as i64,
        None => 0,
    }
}

/// The score a turn is ranked by.
pub open spec fn turn_score(t: TurnRecord, mode: RankedTurnMode) -> i64 {
    match mode {
        RankedTurnMode::ByTokens => t.usage.total_tokens,
        RankedTurnMode::ByCompletionLatency => completion_score(t.timing),
    }
}

/// The ranking key of a turn: its score, then its total tokens, then its session id.
pub open spec fn turn_standing(t: TurnRecord, mode: RankedTurnMode) -> Standing {
    Standing { primary: turn_score(t, mode), secondary: t.usage.total_tokens, id: t.session_id }
}

/// The ranking keys of the turns.
pub open spec fn turn_standings(turns: Seq<TurnRecord>, mode: RankedTurnMode) -> Seq<Standing> {
    turns.map_values(|t: TurnRecord| turn_standing(t, mode))
}

/// Which turns take part in a ranking: those with a question and a positive score.
pub open spec fn turn_flags(turns: Seq<TurnRecord>, mode: RankedTurnMode) -> Seq<bool> {
    turns.map_values(|t: TurnRecord| t.timing.user_ms is Some && turn_score(t, mode) > 0)
}

/// Whether `k` is the last session with the given id.
pub open spec fn is_last_session(sessions: Seq<SessionSummary>, id: Seq<char>, k: int) -> bool {
    &&& 0 <= k < sessions.len()
    &&& sessions[k].id@ == id
    &&& forall|j: int| k < j < sessions.len() ==> (#[trigger] sessions[j]).id@ != id
}

/// The last session with the given id, if any: the one a lookup by id finds.
pub open spec fn session_meta(sessions: Seq<SessionSummary>, id: Seq<char>) -> Option<SessionSummary> {
    if exists|k: int| is_last_session(sessions, id, k) {
        Some(sessions[choose|k: int| is_last_session(sessions, id, k)])
    } else {
        None
    }
}

/// The position of the last session with the given id.
pub fn find_session(sessions: &[SessionSummary], id: &str) -> (r: Option<usize>)
    ensures
        match r {
            Some(k) => is_last_session(sessions@, id@, k as int),
            None => forall|j: int| 0 <= j < sessions@.len() ==> (#[trigger] sessions@[j]).id@ != id@,
        },
{
    let mut i = sessions.len();
    while i > 0
        invariant
            i <= sessions@.len(),
            forall|j: int| i <= j < sessions@.len() ==> (#[trigger] sessions@[j]).id@ != id@,
        decreases i,
    {
        if crate::chars::str_eq(sessions[i - 1].id.as_str(), id) {
            return Some(i - 1);
        }
        i -= 1;
    }
    None
}

proof fn lemma_meta_found(sessions: Seq<SessionSummary>, id: Seq<char>, k: int)
    requires
        is_last_session(sessions, id, k),
    ensures
        session_meta(sessions, id) == Some(sessions[k]),
{
    let c = choose|k: int| is_last_session(sessions, id, k);
    if c < k {
        assert(sessions[k].id@ != id);
    } else if k < c {
        assert(sessions[c].id@ != id);
    }
}

/// The workspace a turn is credited to: its own, else that of its session.
pub open spec fn turn_place(t: TurnRecord, sessions: Seq<SessionSummary>) -> Option<Seq<char>> {
    match t.cwd {
        Some(c) => Some(c@),
        None => match session_meta(sessions, t.session_id@) {
            Some(m) => opt_view(m.cwd),
            None => None,
        },
    }
}

/// The instant a ranked turn is shown with: its question, else the start of its task.
pub open spec fn turn_stamp(t: Option<i64>) -> Option<Seq<char>> {
    match t {
        Some(ms) => utc_rfc3339_of(ms),
        None => None,
    }
}

/// The instant of a turn's question, else of the start of its task.
pub open spec fn question_or_start(t: TurnTiming) -> Option<i64> {
    match t.user_ms {
        Some(u) => Some(u),
        None => t.started_ms,
    }
}

/// `r` is the ranked-turn record of turn `t`, given the sessions.
pub open spec fn describes_turn(r: RankedTurnRecord, t: TurnRecord, sessions: Seq<SessionSummary>) -> bool {
    &&& r.session_id@ == t.session_id@
    &&& r.project@ == project_label_of_option(turn_place(t, sessions))
    &&& r.thread_title == match session_meta(sessions, t.session_id@) {
        Some(m) => m.thread_title,
        None => None,
    }
    &&& r.prompt_preview == t.user_text
    &&& r.total_tokens == t.usage.total_tokens
    &&& r.input_tokens == t.usage.input_tokens
    &&& r.output_tokens == t.usage.output_tokens
    &&& r.cached_input_tokens == t.usage.cached_input_tokens
    &&& r.reasoning_output_tokens == t.usage.reasoning_output_tokens
    &&& widened(r.first_response_sec) == first_response_of(t.timing)
    &&& widened(r.completion_sec) == completion_of(t.timing)
    &&& opt_view(r.timestamp) == turn_stamp(question_or_start(t.timing))
}

/// The project a turn is credited to, and the last session with the turn's id.
pub fn turn_project(t: &TurnRecord, sessions: &[SessionSummary]) -> (r: (String, Option<usize>))
    ensures
        r.0@ == project_label_of_option(turn_place(*t, sessions@)),
        match r.1 {
            Some(k) => k < sessions@.len() && session_meta(sessions@, t.session_id@) == Some(sessions@[k as int]),
            None => session_meta(sessions@, t.session_id@) is None,
        },
{
    let meta = find_session(sessions, t.session_id.as_str());
    proof {
        if let Some(k) = meta {
            lemma_meta_found(sessions@, t.session_id@, k as int);
        }
    }
    let place: Option<&str> = match &t.cwd {
        Some(c) => Some(c.as_str()),
        None => match meta {
            Some(k) => match &sessions[k].cwd {
                Some(c) => Some(c.as_str()),
                None => None,
            },
            None => None,
        },
    };
    (project_label_from_option(place), meta)
}

/// The ranked-turn record of one turn.
fn ranked_record(t: &TurnRecord, sessions: &[SessionSummary]) -> (r: RankedTurnRecord)
    ensures
        describes_turn(r, *t, sessions@),
{
    let (project, meta) = turn_project(t, sessions);
    let thread_title = match meta {
        Some(k) => clone_opt(&sessions[k].thread_title),
        None => None,
    };
    let timestamp = match t.timing.user_ms {
        Some(u) => iso_from_millis(u),
        None => match t.timing.started_ms {
            Some(s) => iso_from_millis(s),
            None => None,
        },
    };
    RankedTurnRecord {
        session_id: t.session_id.clone(),
        project,
        thread_title,
        prompt_preview: clone_opt(&t.user_text),
        total_tokens: t.usage.total_tokens,
        input_tokens: t.usage.input_tokens,
        output_tokens: t.usage.output_tokens,
        cached_input_tokens: t.usage.cached_input_tokens,
        reasoning_output_tokens: t.usage.reasoning_output_tokens,
        first_response_sec: t.timing.first_response_sec(),
        completion_sec: t.timing.completion_sec(),
        timestamp,
    }
}

/// The turns with the largest score (total tokens, or seconds to completion), at most `limit`
/// of them: larger scores first, then more tokens, then the session id that sorts first, and
/// turns that tie on all three in the order given. Only turns with a question and a positive
/// score take part.
pub fn build_ranked_turns(
    turns: &[TurnRecord],
    sessions: &[SessionSummary],
    mode: RankedTurnMode,
    limit: usize,
) -> (r: Vec<RankedTurnRecord>)
    ensures
        exists|order: Seq<int>|
            {
                &&& #[trigger] is_ranking(
                    turn_standings(turns@, mode),
                    turn_flags(turns@, mode),
                    order,
                )
                &&& r@.len() == if order.len() < limit { order.len() as int } else { limit as int }
                &&& forall|j: int|
                    0 <= j < r@.len() ==> describes_turn(#[trigger] r@[j], turns@[order[j]], sessions@)
            },
{
    let mut keys: Vec<Standing> = Vec::new();
    let mut keep: Vec<bool> = Vec::new();
    let mut i: usize = 0;
    while i < turns.len()
        invariant
            i <= turns@.len(),
            keys@ == turn_standings(turns@.take(i as int), mode),
            keep@ == turn_flags(turns@.take(i as int), mode),
        decreases turns.len() - i,
    {
        let t = &turns[i];
        let score = match mode {
            RankedTurnMode::ByTokens => t.usage.total_tokens,
            RankedTurnMode::ByCompletionLatency => match t.timing.completion_sec() {
                Some(v) => v,
                None => 0,
            },
        };
        keys.push(Standing { primary: score, secondary: t.usage.total_tokens, id: t.session_id.clone() });
        keep.push(t.timing.user_ms.is_some() && score > 0);
        proof {
            assert(turns@.take(i as int + 1) == turns@.take(i as int).push(turns@[i as int]));
        }
        i += 1;
    }
    proof {
        assert(turns@.take(turns@.len() as int) == turns@);
    }
    let order = rank_positions(keys.as_slice(), &keep);
    let ghost ranked = order@.map_values(|i: usize| i as int);
    proof {
        assert(keys@ == turn_standings(turns@, mode));
        assert(keep@ == turn_flags(turns@, mode));
    }
    let n = if order.len() < limit {
        order.len()
    } else {
        limit
    };
    let mut out: Vec<RankedTurnRecord> = Vec::new();
    let mut j: usize = 0;
    while j < n
        invariant
            j <= n,
            n <= order@.len(),
            ranked == order@.map_values(|i: usize| i as int),
            is_ranking(turn_standings(turns@, mode), turn_flags(turns@, mode), ranked),
            turns@.len() == turn_standings(turns@, mode).len(),
            out@.len() == j,
            forall|m: int| 0 <= m < j ==> describes_turn(#[trigger] out@[m], turns@[ranked[m]], sessions@),
        decreases n - j,
    {
        let p = order[j];
        assert(ranked[j as int] == p as int);
        let rec = ranked_record(&turns[p], sessions);
        out.push(rec);
        j += 1;
    }
    out
}

/// The tokens (summed with wrapping, as in a release build) and the number of the questions
/// among the turns of one session.
pub open spec fn session_totals(turns: Seq<TurnRecord>, id: Seq<char>) -> (i64, int)
    decreases turns.len(),
{
    if turns.len() == 0 {
        (0, 0)
    } else {
        let rest = session_totals(turns.drop_last(), id);
        let t = turns.last();
        if t.timing.user_ms is Some && t.session_id@ == id {
            (rest.0.wrapping_add(t.usage.total_tokens), rest.1 + 1)
        } else {
            rest
        }
    }
}

/// The tokens and the number of questions of the turns of one session.
fn totals_of(turns: &[TurnRecord], id: &str) -> (r: (i64, i64))
    requires
        turns@.len() <= i64::MAX,
    ensures
        r.0 == session_totals(turns@, id@).0,
        r.1 as int == session_totals(turns@, id@).1,
{
    let mut tokens: i64 = 0;
    let mut count: i64 = 0;
    let mut i: usize = 0;
    while i < turns.len()
        invariant
            i <= turns@.len() <= i64::MAX,
            tokens == session_totals(turns@.take(i as int), id@).0,
            count as int == session_totals(turns@.take(i as int), id@).1,
            0 <= count <= i,
        decreases turns.len() - i,
    {
        proof {
            assert(turns@.take(i as int + 1).drop_last() == turns@.take(i as int));
            lemma_totals_bounded(turns@.take(i as int), id@);
        }
        let t = &turns[i];
        if t.timing.user_ms.is_some() && crate::chars::str_eq(t.session_id.as_str(), id) {
            tokens = tokens.wrapping_add(t.usage.total_tokens);
            count = count + 1;
        }
        i += 1;
    }
    proof {
        assert(turns@.take(turns@.len() as int) == turns@);
    }
    (tokens, count)
}

proof fn lemma_totals_bounded(turns: Seq<TurnRecord>, id: Seq<char>)
    ensures
        0 <= session_totals(turns, id).1 <= turns.len(),
    decreases turns.len(),
{
    if turns.len() > 0 {
        lemma_totals_bounded(turns.drop_last(), id);
    }
}

/// The ranking key of a session window: its tokens, then its duration, then its id.
pub open spec fn window_standing(s: SessionSummary, turns: Seq<TurnRecord>) -> Standing {
    Standing { primary: session_totals(turns, s.id@).0, secondary: s.duration_sec, id: s.id }
}

/// The ranking keys of the session windows.
pub open spec fn window_standings(sessions: Seq<SessionSummary>, turns: Seq<TurnRecord>) -> Seq<Standing> {
    sessions.map_values(|s: SessionSummary| window_standing(s, turns))
}

/// Every one of `n` records taking part.
pub open spec fn all_kept(n: nat) -> Seq<bool> {
    Seq::new(n, |i: int| true)
}

/// `r` is the window record of session `s`, given the turns.
pub open spec fn describes_window(r: ProjectWindowRecord, s: SessionSummary, turns: Seq<TurnRecord>) -> bool {
    &&& r.session_id == s.id
    &&& r.project@ == project_label_of_option(opt_view(s.cwd))
    &&& r.thread_title == s.thread_title
    &&& r.started_at == s.started_at
    &&& r.updated_at == s.updated_at
    &&& r.duration_sec == s.duration_sec
    &&& r.turn_count == s.turn_count
    &&& r.total_tokens == session_totals(turns, s.id@).0
    &&& r.question_count as int == session_totals(turns, s.id@).1
    &&& r.tool_call_count == s.tool_call_count
}

/// The session windows with the most tokens, at most `limit` of them: more tokens first, then
/// the longer session, then the id that sorts first, and ties in the order given.
pub fn build_project_windows(sessions: &[SessionSummary], turns: &[TurnRecord], limit: usize) -> (r: Vec<
    ProjectWindowRecord,
>)
    requires
        turns@.len() <= i64::MAX,
    ensures
        exists|order: Seq<int>|
            {
                &&& #[trigger] is_ranking(window_standings(sessions@, turns@), all_kept(sessions@.len()), order)
                &&& r@.len() == if order.len() < limit { order.len() as int } else { limit as int }
                &&& forall|j: int|
                    0 <= j < r@.len() ==> describes_window(#[trigger] r@[j], sessions@[order[j]], turns@)
            },
{
    let mut keys: Vec<Standing> = Vec::new();
    let mut totals: Vec<(i64, i64)> = Vec::new();
    let mut keep: Vec<bool> = Vec::new();
    let mut i: usize = 0;
    while i < sessions.len()
        invariant
            i <= sessions@.len(),
            turns@.len() <= i64::MAX,
            keys@ == window_standings(sessions@.take(i as int), turns@),
            keep@ == all_kept(i as nat),
            totals@.len() == i,
            forall|k: int|
                0 <= k < i ==> (#[trigger] totals@[k]).0 == session_totals(turns@, sessions@[k].id@).0
                    && totals@[k].1 as int == session_totals(turns@, sessions@[k].id@).1,
        decreases sessions.len() - i,
    {
        let s = &sessions[i];
        let t = totals_of(turns, s.id.as_str());
        keys.push(Standing { primary: t.0, secondary: s.duration_sec, id: s.id.clone() });
        totals.push(t);
        keep.push(true);
        proof {
            assert(sessions@.take(i as int + 1) == sessions@.take(i as int).push(sessions@[i as int]));
        }
        i += 1;
    }
    proof {
        assert(sessions@.take(sessions@.len() as int) == sessions@);
    }
    let order = rank_positions(keys.as_slice(), &keep);
    let ghost ranked = order@.map_values(|i: usize| i as int);
    let n = if order.len() < limit {
        order.len()
    } else {
        limit
    };
    let mut out: Vec<ProjectWindowRecord> = Vec::new();
    let mut j: usize = 0;
    while j < n
        invariant
            j <= n,
            n <= order@.len(),
            ranked == order@.map_values(|i: usize| i as int),
            is_ranking(window_standings(sessions@, turns@), all_kept(sessions@.len()), ranked),
            sessions@.len() == window_standings(sessions@, turns@).len(),
            totals@.len() == sessions@.len(),
            forall|k: int|
                0 <= k < sessions@.len() ==> (#[trigger] totals@[k]).0 == session_totals(turns@, sessions@[k].id@).0
                    && totals@[k].1 as int == session_totals(turns@, sessions@[k].id@).1,
            out@.len() == j,
            forall|m: int| 0 <= m < j ==> describes_window(#[trigger] out@[m], sessions@[ranked[m]], turns@),
        decreases n - j,
    {
        let p = order[j];
        assert(ranked[j as int] == p as int);
        let s = &sessions[p];
        let place: Option<&str> = match &s.cwd {
            Some(c) => Some(c.as_str()),
            None => None,
        };
        out.push(
            ProjectWindowRecord {
                session_id: s.id.clone(),
                project: project_label_from_option(place),
                thread_title: clone_opt(&s.thread_title),
                started_at: clone_opt(&s.started_at),
                updated_at: clone_opt(&s.updated_at),
                duration_sec: s.duration_sec,
                turn_count: s.turn_count,
                total_tokens: totals[p].0,
                question_count: totals[p].1,
                tool_call_count: s.tool_call_count,
            },
        );
        j += 1;
    }
    out
}

/// The instant a session was last active: its last update, else its start.
pub open spec fn recency_of(s: SessionSummary) -> Recency {
    Recency {
        stamp: match s.updated_at {
            Some(u) => Some(u),
            None => s.started_at,
        },
    }
}

/// The recency keys of the sessions.
pub open spec fn recencies(sessions: Seq<SessionSummary>) -> Seq<Recency> {
    sessions.map_values(|s: SessionSummary| recency_of(s))
}

/// A copy of a session summary.
pub fn clone_summary(s: &SessionSummary) -> (r: SessionSummary)
    ensures
        r == *s,
{
    SessionSummary {
        id: s.id.clone(),
        thread_title: clone_opt(&s.thread_title),
        cwd: clone_opt(&s.cwd),
        source: clone_opt(&s.source),
        updated_at: clone_opt(&s.updated_at),
        started_at: clone_opt(&s.started_at),
        duration_sec: s.duration_sec,
        user_message_count: s.user_message_count,
        assistant_message_count: s.assistant_message_count,
        tool_call_count: s.tool_call_count,
        turn_count: s.turn_count,
        warning_count: s.warning_count,
        first_user_message: clone_opt(&s.first_user_message),
    }
}

/// The sessions most recently active, at most `limit` of them: later activity first (the texts
/// of the instants compared), sessions without any instant last, and ties in the order given.
pub fn recent_sessions(sessions: &[SessionSummary], limit: usize) -> (r: Vec<SessionSummary>)
    ensures
        exists|order: Seq<int>|
            {
                &&& #[trigger] is_ranking(recencies(sessions@), all_kept(sessions@.len()), order)
                &&& r@.len() == if order.len() < limit { order.len() as int } else { limit as int }
                &&& forall|j: int| 0 <= j < r@.len() ==> #[trigger] r@[j] == sessions@[order[j]]
            },
{
    let mut keys: Vec<Recency> = Vec::new();
    let mut keep: Vec<bool> = Vec::new();
    let mut i: usize = 0;
    while i < sessions.len()
        invariant
            i <= sessions@.len(),
            keys@ == recencies(sessions@.take(i as int)),
            keep@ == all_kept(i as nat),
        decreases sessions.len() - i,
    {
        let s = &sessions[i];
        let stamp = match &s.updated_at {
            Some(u) => Some(u.clone()),
            None => clone_opt(&s.started_at),
        };
        keys.push(Recency { stamp });
        keep.push(true);
        proof {
            assert(sessions@.take(i as int + 1) == sessions@.take(i as int).push(sessions@[i as int]));
        }
        i += 1;
    }
    proof {
        assert(sessions@.take(sessions@.len() as int) == sessions@);
    }
    let order = rank_positions(keys.as_slice(), &keep);
    let ghost ranked = order@.map_values(|i: usize| i as int);
    let n = if order.len() < limit {
        order.len()
    } else {
        limit
    };
    let mut out: Vec<SessionSummary> = Vec::new();
    let mut j: usize = 0;
    while j < n
        invariant
            j <= n,
            n <= order@.len(),
            ranked == order@.map_values(|i: usize| i as int),
            is_ranking(recencies(sessions@), all_kept(sessions@.len()), ranked),
            sessions@.len() == recencies(sessions@).len(),
            out@.len() == j,
            forall|m: int| 0 <= m < j ==> #[trigger] out@[m] == sessions@[ranked[m]],
        decreases n - j,
    {
        let p = order[j];
        assert(ranked[j as int] == p as int);
        out.push(clone_summary(&sessions[p]));
        j += 1;
    }
    out
}

} // verus!
