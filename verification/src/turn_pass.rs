//! The second pass of the turn analytics: the turns that fall in the dashboard's range and
//! project, in the order they happened, counted into model, effort, prompt and workspace
//! statistics.
//!
//! The local day and bucket of each turn's instant depend on the machine's time zone; the
//! caller works them out and hands them in beside the turns.
use crate::chars::is_blank;
use crate::counts::LabelCounts;
use crate::event_pass::{cwds_view, either, session_cwd, LocalStamp};
use crate::models::opt_view;
use crate::terms::{bounded, counted, prompt_terms, unicode_lowercase, update_prompt_terms};
use crate::text::{code_hint, command_hint, contains_code_hint, contains_command_hint, contains_path_hint, path_hint};
use crate::timeline::{bucket_counts, count_in, increment_breakdown, Timeline};
use crate::turn_table::{TurnRecord, TurnView};
use crate::turns::{anchor_of, ScopeDays};
use crate::workspace::{normalized_workspace, project_key_of, project_matches};
use vstd::prelude::*;

verus! {

/// A copy of a turn.
pub fn clone_turn(t: &TurnRecord) -> (r: TurnRecord)
    ensures
        r@ == t@,
{
    TurnRecord {
        session_id: t.session_id.clone(),
        timing: t.timing,
        model: crate::parsers::clone_opt(&t.model),
        effort: crate::parsers::clone_opt(&t.effort),
        cwd: crate::parsers::clone_opt(&t.cwd),
        user_text: crate::parsers::clone_opt(&t.user_text),
        turn_context_count: t.turn_context_count,
        aborted: t.aborted,
        tool_call_count: t.tool_call_count,
        usage: crate::models::TokenUsageSummary {
            input_tokens: t.usage.input_tokens,
            output_tokens: t.usage.output_tokens,
            cached_input_tokens: t.usage.cached_input_tokens,
            reasoning_output_tokens: t.usage.reasoning_output_tokens,
            total_tokens: t.usage.total_tokens,
        },
        last_token_signature: crate::parsers::clone_opt(&t.last_token_signature),
    }
}

/// The working directory a turn counts under: its own, else its session's.
pub open spec fn turn_cwd(t: TurnView, cwds: Seq<(Seq<char>, Option<Seq<char>>)>) -> Option<Seq<char>> {
    either(t.cwd, session_cwd(cwds, t.session_id))
}

/// Whether a turn is counted: it has an instant, its local day lies in the scope, and its
/// working directory belongs to the selected project.
pub open spec fn kept(
    t: TurnView,
    stamp: Option<LocalStamp>,
    scope: ScopeDays,
    selected: Option<Seq<char>>,
    cwds: Seq<(Seq<char>, Option<Seq<char>>)>,
) -> bool {
    &&& stamp matches Some(l) && scope.start <= l.day <= scope.end
    &&& anchor_of(t.timing) is Some
    &&& project_matches(turn_cwd(t, cwds), selected)
}

/// Whether turn `a` comes before turn `b`: the earlier instant first, and of equal instants
/// the one given first.
pub open spec fn turn_before(turns: Seq<TurnView>, a: int, b: int) -> bool {
    let ka = anchor_of(turns[a].timing)->Some_0;
    let kb = anchor_of(turns[b].timing)->Some_0;
    ka < kb || (ka == kb && a < b)
}

/// The turns, by position, that `summarize_turns` counts, in the order it counts them.
pub open spec fn is_turn_order(
    turns: Seq<TurnView>,
    stamps: Seq<Option<LocalStamp>>,
    scope: ScopeDays,
    selected: Option<Seq<char>>,
    cwds: Seq<(Seq<char>, Option<Seq<char>>)>,
    r: Seq<int>,
) -> bool {
    &&& forall|j: int|
        0 <= j < r.len() ==> 0 <= #[trigger] r[j] < turns.len() && kept(turns[r[j]], stamps[r[j]], scope, selected, cwds)
    &&& forall|j: int, k: int| 0 <= j < k < r.len() ==> turn_before(turns, #[trigger] r[j], #[trigger] r[k])
    &&& forall|i: int|
        0 <= i < turns.len() && kept(turns[i], stamps[i], scope, selected, cwds) ==> #[trigger] r.contains(i)
}

/// The positions of the counted turns, in the order they are counted.
fn turn_order(
    turns: &[TurnRecord],
    stamps: &[Option<LocalStamp>],
    scope: &ScopeDays,
    selected: Option<&str>,
    cwds: &[(String, Option<String>)],
) -> (r: Vec<usize>)
    requires
        turns@.len() == stamps@.len(),
    ensures
        is_turn_order(
            turns@.map_values(|t: TurnRecord| t@),
            stamps@,
            *scope,
            match selected {
                Some(s) => Some(s@),
                None => None,
            },
            cwds_view(cwds@),
            r@.map_values(|i: usize| i as int),
        ),
        r@.len() <= turns@.len(),
{
    let ghost tv = turns@.map_values(|t: TurnRecord| t@);
    let ghost sel = match selected {
        Some(s) => Some(s@),
        None => None,
    };
    let ghost cv = cwds_view(cwds@);
    let mut order: Vec<usize> = Vec::new();
    let mut i: usize = 0;
    while i < turns.len()
        invariant
            i <= turns@.len(),
            turns@.len() == stamps@.len(),
            tv == turns@.map_values(|t: TurnRecord| t@),
            cv == cwds_view(cwds@),
            sel == (match selected {
                Some(s) => Some(s@),
                None => None,
            }),
            order@.len() <= i,
            forall|j: int|
                0 <= j < order@.len() ==> (#[trigger] order@[j]) < i && kept(
                    tv[order@[j] as int],
                    stamps@[order@[j] as int],
                    *scope,
                    sel,
                    cv,
                ),
            forall|j: int, k: int|
                0 <= j < k < order@.len() ==> turn_before(tv, #[trigger] order@[j] as int, #[trigger] order@[k] as int),
            forall|m: int|
                0 <= m < i && kept(tv[m], stamps@[m], *scope, sel, cv) ==> exists|j: int|
                    0 <= j < order@.len() && #[trigger] order@[j] as int == m,
        decreases turns.len() - i,
    {
        let t = &turns[i];
        let in_scope = match &stamps[i] {
            Some(l) => scope.contains_date(l.day),
            None => false,
        };
        let anchor = t.timing.anchor_ms();
        let cwd = match &t.cwd {
            Some(c) => Some(c.clone()),
            None => crate::event_pass::session_cwd_exec(cwds, &t.session_id),
        };
        let cwd_ref: Option<&str> = match &cwd {
            Some(c) => Some(c.as_str()),
            None => None,
        };
        let matches = crate::workspace::matches_project_filter(cwd_ref, selected);
        if in_scope && anchor.is_some() && matches {
            let key = anchor.unwrap();
            let mut p = order.len();
            while p > 0 && turns[order[p - 1]].timing.anchor_ms().unwrap() > key
                invariant
                    p <= order@.len(),
                    forall|j: int| 0 <= j < order@.len() ==> (#[trigger] order@[j]) < i && kept(
                        tv[order@[j] as int],
                        stamps@[order@[j] as int],
                        *scope,
                        sel,
                        cv,
                    ),
                    i < turns@.len(),
                    tv == turns@.map_values(|t: TurnRecord| t@),
                    anchor_of(tv[i as int].timing) == Some(key),
                    forall|j: int| p <= j < order@.len() ==> anchor_of(tv[#[trigger] order@[j] as int].timing)->Some_0 > key,
                decreases p,
            {
                p -= 1;
            }
            let ghost before = order@;
            order.insert(p, i);
            proof {
                assert forall|j: int, k: int| 0 <= j < k < order@.len() implies turn_before(
                    tv,
                    #[trigger] order@[j] as int,
                    #[trigger] order@[k] as int,
                ) by {
                    if j < p && k == p {
                        if p > 0 {
                            assert(turn_before(tv, before[j] as int, before[p - 1] as int) || j == p - 1);
                        }
                        assert(anchor_of(tv[before[p - 1] as int].timing)->Some_0 <= key || p == 0);
                        assert(before[j] < i);
                        if j < p - 1 {
                            assert(turn_before(tv, before[j] as int, before[p - 1] as int));
                        }
                    } else if j == p && k > p {
                        assert(order@[k] == before[k - 1]);
                        assert(anchor_of(tv[before[k - 1] as int].timing)->Some_0 > key);
                    } else if j < p && k > p {
                        assert(order@[j] == before[j]);
                        assert(order@[k] == before[k - 1]);
                    } else if k < p {
                        assert(order@[j] == before[j]);
                        assert(order@[k] == before[k]);
                    } else {
                        assert(order@[j] == before[j - 1]);
                        assert(order@[k] == before[k - 1]);
                    }
                }
                assert forall|m: int| 0 <= m < i + 1 && kept(tv[m], stamps@[m], *scope, sel, cv) implies exists|j: int|
                    0 <= j < order@.len() && #[trigger] order@[j] as int == m by {
                    if m == i {
                        assert(order@[p as int] as int == m);
                    } else {
                        let j = choose|j: int| 0 <= j < before.len() && #[trigger] before[j] as int == m;
                        if j < p {
                            assert(order@[j] == before[j]);
                        } else {
                            assert(order@[j + 1] == before[j]);
                        }
                    }
                }
            }
        }
        i += 1;
    }
    proof {
        let r = order@.map_values(|i: usize| i as int);
        assert forall|m: int| 0 <= m < tv.len() && kept(tv[m], stamps@[m], *scope, sel, cv) implies #[trigger] r.contains(m) by {
            let j = choose|j: int| 0 <= j < order@.len() && #[trigger] order@[j] as int == m;
            assert(r[j] == m);
        }
    }
    order
}

/// The statistics of the counted turns, seen as plain values, with the working directory and
/// project of the last turn that had one.
pub struct SummaryView {
    pub turns: Seq<TurnView>,
    pub repeated_turn_contexts: i64,
    pub aborted_turns: int,
    pub models: Map<Seq<char>, i64>,
    pub efforts: Map<Seq<char>, i64>,
    pub model_timeline: Map<Seq<char>, Map<Seq<char>, i64>>,
    pub effort_timeline: Map<Seq<char>, Map<Seq<char>, i64>>,
    pub prompt_terms: Map<Seq<char>, i64>,
    pub prompt_lengths: Seq<usize>,
    pub prompts_with_code: int,
    pub prompts_with_path: int,
    pub prompts_with_command: int,
    pub prompts_with_path_or_command: int,
    pub project_switches: int,
    pub workspace_switches: int,
    pub workspace_timeline: Map<Seq<char>, Map<Seq<char>, i64>>,
    pub previous_cwd: Option<Seq<char>>,
    pub previous_project: Option<Seq<char>>,
}

/// The statistics before any turn.
pub open spec fn empty_summary() -> SummaryView {
    SummaryView {
        turns: Seq::empty(),
        repeated_turn_contexts: 0,
        aborted_turns: 0,
        models: Map::empty(),
        efforts: Map::empty(),
        model_timeline: Map::empty(),
        effort_timeline: Map::empty(),
        prompt_terms: Map::empty(),
        prompt_lengths: Seq::empty(),
        prompts_with_code: 0,
        prompts_with_path: 0,
        prompts_with_command: 0,
        prompts_with_path_or_command: 0,
        project_switches: 0,
        workspace_switches: 0,
        workspace_timeline: Map::empty(),
        previous_cwd: None,
        previous_project: None,
    }
}

/// A text where it is not blank.
pub open spec fn non_blank(o: Option<Seq<char>>) -> Option<Seq<char>> {
    match o {
        Some(v) => if is_blank(v) {
            None
        } else {
            Some(v)
        },
        None => None,
    }
}

/// A timeline count one higher.
pub open spec fn bump_in(
    m: Map<Seq<char>, Map<Seq<char>, i64>>,
    bucket: Seq<char>,
    category: Seq<char>,
) -> Map<Seq<char>, Map<Seq<char>, i64>> {
    crate::event_pass::bump_timeline(m, bucket, category)
}

/// The prompt terms after one more prompt was counted, where none of the counts could pass
/// `i64::MAX`.
pub open spec fn terms_after(m: Map<Seq<char>, i64>, text: Seq<char>) -> Map<Seq<char>, i64> {
    let q = unicode_lowercase(text);
    if q.len() <= i64::MAX && bounded(m, i64::MAX - q.len()) {
        counted(m, prompt_terms(q))
    } else {
        m
    }
}

/// A count one higher where `b` holds.
pub open spec fn plus_if(n: int, b: bool) -> int {
    if b {
        n + 1
    } else {
        n
    }
}

/// The repeated contexts and aborts after one more turn.
pub open spec fn with_turn_counts(a: SummaryView, t: TurnView) -> SummaryView {
    SummaryView {
        repeated_turn_contexts: if t.turn_context_count > 1 {
            a.repeated_turn_contexts.wrapping_add((t.turn_context_count - 1) as i64)
        } else {
            a.repeated_turn_contexts
        },
        aborted_turns: plus_if(a.aborted_turns, t.aborted),
        ..a
    }
}

/// The models and efforts after one more turn, where it names them.
pub open spec fn with_model(a: SummaryView, t: TurnView, bucket: Seq<char>) -> SummaryView {
    let (models, model_timeline) = match non_blank(t.model) {
        Some(m) => (crate::event_pass::bump(a.models, m), bump_in(a.model_timeline, bucket, m)),
        None => (a.models, a.model_timeline),
    };
    let (efforts, effort_timeline) = match non_blank(t.effort) {
        Some(e) => (crate::event_pass::bump(a.efforts, e), bump_in(a.effort_timeline, bucket, e)),
        None => (a.efforts, a.effort_timeline),
    };
    SummaryView { models, model_timeline, efforts, effort_timeline, ..a }
}

/// The prompt statistics after one more turn's prompt: its terms, its length, and the hints it
/// holds.
pub open spec fn with_prompt(a: SummaryView, t: TurnView) -> SummaryView {
    match t.user_text {
        Some(text) => SummaryView {
            prompt_terms: terms_after(a.prompt_terms, text),
            prompt_lengths: a.prompt_lengths.push(text.len() as usize),
            prompts_with_code: plus_if(a.prompts_with_code, code_hint(text)),
            prompts_with_path: plus_if(a.prompts_with_path, path_hint(text)),
            prompts_with_command: plus_if(a.prompts_with_command, command_hint(text)),
            prompts_with_path_or_command: plus_if(a.prompts_with_path_or_command, path_hint(text) || command_hint(text)),
            ..a
        },
        None => a,
    }
}

/// The switches after one more turn: where it has a working directory, a workspace switch when
/// the normalised directory differs from the last one, and a project switch when its project
/// does.
pub open spec fn with_place(a: SummaryView, t: TurnView, bucket: Seq<char>, session_cwd: Option<Seq<char>>) -> SummaryView {
    match non_blank(either(t.cwd, session_cwd)) {
        Some(c) => {
            let norm = normalized_workspace(c);
            let key = project_key_of(norm);
            let ws = a.previous_cwd matches Some(p) && p != norm;
            let ps = a.previous_project matches Some(p) && p != key;
            let t1 = if ws {
                bump_in(a.workspace_timeline, bucket, "Workspace switch"@)
            } else {
                a.workspace_timeline
            };
            SummaryView {
                workspace_switches: plus_if(a.workspace_switches, ws),
                project_switches: plus_if(a.project_switches, ps),
                workspace_timeline: if ps {
                    bump_in(t1, bucket, "Project switch"@)
                } else {
                    t1
                },
                previous_cwd: Some(norm),
                previous_project: Some(key),
                ..a
            }
        },
        None => a,
    }
}

/// The statistics after one more turn, in the bucket of its local day, given its session's
/// working directory: repeated contexts, aborts, its model and effort, its prompt's terms,
/// length and hints, and a switch wherever its working directory or project differs from the
/// last turn's.
pub open spec fn summary_step(a: SummaryView, t: TurnView, bucket: Seq<char>, session_cwd: Option<Seq<char>>) -> SummaryView {
    let b = with_place(with_prompt(with_model(with_turn_counts(a, t), t, bucket), t), t, bucket, session_cwd);
    SummaryView { turns: b.turns.push(t), ..b }
}

/// The statistics after the turns at the given positions, in that order.
pub open spec fn summary_folded(
    turns: Seq<TurnView>,
    stamps: Seq<Option<LocalStamp>>,
    cwds: Seq<(Seq<char>, Option<Seq<char>>)>,
    order: Seq<int>,
) -> SummaryView
    decreases order.len(),
{
    if order.len() == 0 {
        empty_summary()
    } else {
        let i = order.last();
        summary_step(
            summary_folded(turns, stamps, cwds, order.drop_last()),
            turns[i],
            stamps[i]->Some_0.bucket@,
            session_cwd(cwds, turns[i].session_id),
        )
    }
}

/// Whether every count of the statistics is at most `n`.
pub open spec fn summary_within(a: SummaryView, n: int) -> bool {
    &&& 0 <= n
    &&& 0 <= a.aborted_turns <= n
    &&& 0 <= a.prompts_with_code <= n
    &&& 0 <= a.prompts_with_path <= n
    &&& 0 <= a.prompts_with_command <= n
    &&& 0 <= a.prompts_with_path_or_command <= n
    &&& 0 <= a.project_switches <= n
    &&& 0 <= a.workspace_switches <= n
    &&& bounded(a.models, n)
    &&& bounded(a.efforts, n)
    &&& forall|b: Seq<char>| a.model_timeline.contains_key(b) ==> bounded(#[trigger] a.model_timeline[b], n)
    &&& forall|b: Seq<char>| a.effort_timeline.contains_key(b) ==> bounded(#[trigger] a.effort_timeline[b], n)
    &&& forall|b: Seq<char>| a.workspace_timeline.contains_key(b) ==> bounded(#[trigger] a.workspace_timeline[b], n)
}

/// The statistics of the counted turns.
pub struct TurnSummary {
    /// The counted turns, in the order they happened.
    pub turns: Vec<TurnRecord>,
    /// The turn contexts beyond the first of each turn, summed with wrapping.
    pub repeated_turn_contexts: i64,
    pub aborted_turns: i64,
    pub models: LabelCounts,
    pub efforts: LabelCounts,
    pub model_timeline: Timeline,
    pub effort_timeline: Timeline,
    pub prompt_terms: LabelCounts,
    /// The length of each prompt, in characters.
    pub prompt_lengths: Vec<usize>,
    pub prompts_with_code: i64,
    pub prompts_with_path: i64,
    pub prompts_with_command: i64,
    pub prompts_with_path_or_command: i64,
    pub project_switches: i64,
    pub workspace_switches: i64,
    /// Project and workspace switches per bucket.
    pub workspace_timeline: Timeline,
    previous_cwd: Option<String>,
    previous_project: Option<String>,
}

impl TurnSummary {
    /// The statistics as plain values.
    pub closed spec fn view(&self) -> SummaryView {
        SummaryView {
            turns: self.turns@.map_values(|t: TurnRecord| t@),
            repeated_turn_contexts: self.repeated_turn_contexts,
            aborted_turns: self.aborted_turns as int,
            models: self.models@,
            efforts: self.efforts@,
            model_timeline: self.model_timeline.as_map(),
            effort_timeline: self.effort_timeline.as_map(),
            prompt_terms: self.prompt_terms@,
            prompt_lengths: self.prompt_lengths@,
            prompts_with_code: self.prompts_with_code as int,
            prompts_with_path: self.prompts_with_path as int,
            prompts_with_command: self.prompts_with_command as int,
            prompts_with_path_or_command: self.prompts_with_path_or_command as int,
            project_switches: self.project_switches as int,
            workspace_switches: self.workspace_switches as int,
            workspace_timeline: self.workspace_timeline.as_map(),
            previous_cwd: opt_view(self.previous_cwd),
            previous_project: opt_view(self.previous_project),
        }
    }
}

fn bump_timeline_exec(timeline: &mut Timeline, bucket: &String, category: &str, Ghost(n): Ghost<int>)
    requires
        forall|b: Seq<char>| old(timeline).as_map().contains_key(b) ==> bounded(#[trigger] old(timeline).as_map()[b], n + 1),
        count_in(bucket_counts(old(timeline).as_map(), bucket@), category@) <= n,
        0 <= n < i64::MAX,
    ensures
        final(timeline).as_map() == crate::event_pass::bump_timeline(old(timeline).as_map(), bucket@, category@),
        forall|b: Seq<char>| final(timeline).as_map().contains_key(b) ==> bounded(#[trigger] final(timeline).as_map()[b], n + 1),
{
    let ghost m = timeline.as_map();
    proof {
        if m.contains_key(bucket@) {
            assert(bounded(m[bucket@], n + 1));
        }
        assert(bounded(bucket_counts(m, bucket@), n + 1));
    }
    increment_breakdown(timeline, bucket.clone(), category, 1);
    proof {
        assert forall|b: Seq<char>| timeline.as_map().contains_key(b) implies bounded(#[trigger] timeline.as_map()[b], n + 1) by {
            if b != bucket@ {
                assert(bounded(m[b], n + 1));
            }
        }
    }
}

fn bump_counts(counts: &mut LabelCounts, label: &str, Ghost(n): Ghost<int>)
    requires
        bounded(old(counts)@, n),
        0 <= n < i64::MAX,
    ensures
        final(counts)@ == crate::event_pass::bump(old(counts)@, label@),
        bounded(final(counts)@, n + 1),
{
    counts.increment(label, 1);
}

fn non_blank_exec(o: &Option<String>) -> (r: Option<String>)
    ensures
        opt_view(r) == non_blank(opt_view(*o)),
{
    match o {
        Some(v) => if crate::chars::is_blank_str(v.as_str()) {
            None
        } else {
            Some(v.clone())
        },
        None => None,
    }
}

proof fn lemma_timeline_grows(m: Map<Seq<char>, Map<Seq<char>, i64>>, n: int)
    requires
        forall|b: Seq<char>| m.contains_key(b) ==> bounded(#[trigger] m[b], n),
    ensures
        forall|b: Seq<char>| m.contains_key(b) ==> bounded(#[trigger] m[b], n + 1),
{
    assert forall|b: Seq<char>| m.contains_key(b) implies bounded(#[trigger] m[b], n + 1) by {
        assert(bounded(m[b], n));
    }
}

proof fn lemma_summary_grows(a: SummaryView, n: int)
    requires
        summary_within(a, n),
    ensures
        summary_within(a, n + 1),
{
    lemma_timeline_grows(a.model_timeline, n);
    lemma_timeline_grows(a.effort_timeline, n);
    lemma_timeline_grows(a.workspace_timeline, n);
}

impl TurnSummary {
    fn new() -> (r: Self)
        ensures
            r@ == empty_summary(),
            summary_within(r@, 0),
    {
        let r = TurnSummary {
            turns: Vec::new(),
            repeated_turn_contexts: 0,
            aborted_turns: 0,
            models: LabelCounts::new(),
            efforts: LabelCounts::new(),
            model_timeline: Timeline::new(),
            effort_timeline: Timeline::new(),
            prompt_terms: LabelCounts::new(),
            prompt_lengths: Vec::new(),
            prompts_with_code: 0,
            prompts_with_path: 0,
            prompts_with_command: 0,
            prompts_with_path_or_command: 0,
            project_switches: 0,
            workspace_switches: 0,
            workspace_timeline: Timeline::new(),
            previous_cwd: None,
            previous_project: None,
        };
        assert(r@.turns =~= Seq::<TurnView>::empty());
        assert(r@.model_timeline =~= Map::<Seq<char>, Map<Seq<char>, i64>>::empty());
        assert(r@.effort_timeline =~= Map::<Seq<char>, Map<Seq<char>, i64>>::empty());
        assert(r@.workspace_timeline =~= Map::<Seq<char>, Map<Seq<char>, i64>>::empty());
        r
    }

    fn count_model(&mut self, t: &TurnRecord, bucket: &String, Ghost(n): Ghost<int>)
        requires
            summary_within(old(self)@, n + 1),
            bounded(old(self)@.models, n),
            bounded(old(self)@.efforts, n),
            forall|b: Seq<char>| old(self)@.model_timeline.contains_key(b) ==> bounded(#[trigger] old(self)@.model_timeline[b], n),
            forall|b: Seq<char>| old(self)@.effort_timeline.contains_key(b) ==> bounded(#[trigger] old(self)@.effort_timeline[b], n),
            0 <= n < i64::MAX,
        ensures
            final(self)@ == with_model(old(self)@, t@, bucket@),
            summary_within(final(self)@, n + 1),
    {
        let ghost a = self@;
        proof {
            lemma_timeline_grows(a.model_timeline, n);
            lemma_timeline_grows(a.effort_timeline, n);
        }
        match non_blank_exec(&t.model) {
            Some(m) => {
                proof {
                    if a.model_timeline.contains_key(bucket@) {
                        assert(bounded(a.model_timeline[bucket@], n));
                    }
                }
                bump_counts(&mut self.models, m.as_str(), Ghost(n));
                bump_timeline_exec(&mut self.model_timeline, bucket, m.as_str(), Ghost(n));
            },
            None => {},
        }
        match non_blank_exec(&t.effort) {
            Some(e) => {
                proof {
                    if a.effort_timeline.contains_key(bucket@) {
                        assert(bounded(a.effort_timeline[bucket@], n));
                    }
                }
                bump_counts(&mut self.efforts, e.as_str(), Ghost(n));
                bump_timeline_exec(&mut self.effort_timeline, bucket, e.as_str(), Ghost(n));
            },
            None => {},
        }
    }

    fn count_prompt(&mut self, t: &TurnRecord, Ghost(n): Ghost<int>)
        requires
            summary_within(old(self)@, n + 1),
            0 <= old(self)@.prompts_with_code <= n,
            0 <= old(self)@.prompts_with_path <= n,
            0 <= old(self)@.prompts_with_command <= n,
            0 <= old(self)@.prompts_with_path_or_command <= n,
            0 <= n < i64::MAX,
        ensures
            final(self)@ == with_prompt(old(self)@, t@),
            summary_within(final(self)@, n + 1),
    {
        match &t.user_text {
            Some(text) => {
                let _ = update_prompt_terms(&mut self.prompt_terms, text.as_str());
                let length = crate::chars::chars_of(text.as_str()).len();
                self.prompt_lengths.push(length);
                let has_code = contains_code_hint(text.as_str());
                let has_path = contains_path_hint(text.as_str());
                let has_command = contains_command_hint(text.as_str());
                if has_code {
                    self.prompts_with_code = self.prompts_with_code + 1;
                }
                if has_path {
                    self.prompts_with_path = self.prompts_with_path + 1;
                }
                if has_command {
                    self.prompts_with_command = self.prompts_with_command + 1;
                }
                if has_path || has_command {
                    self.prompts_with_path_or_command = self.prompts_with_path_or_command + 1;
                }
            },
            None => {},
        }
    }

    fn count_place(&mut self, t: &TurnRecord, bucket: &String, session_cwd: Option<String>, Ghost(n): Ghost<int>)
        requires
            summary_within(old(self)@, n + 1),
            0 <= old(self)@.project_switches <= n,
            0 <= old(self)@.workspace_switches <= n,
            forall|b: Seq<char>| old(self)@.workspace_timeline.contains_key(b) ==> bounded(#[trigger] old(self)@.workspace_timeline[b], n),
            0 <= n < i64::MAX,
        ensures
            final(self)@ == with_place(old(self)@, t@, bucket@, opt_view(session_cwd)),
            summary_within(final(self)@, n + 1),
    {
        let ghost a = self@;
        let cwd = match &t.cwd {
            Some(c) => Some(c.clone()),
            None => session_cwd,
        };
        match non_blank_exec(&cwd) {
            Some(c) => {
                let norm = crate::workspace::normalize_workspace(c.as_str());
                let key = crate::workspace::project_key(norm.as_str());
                let ws = match &self.previous_cwd {
                    Some(p) => !crate::chars::str_eq(p.as_str(), norm.as_str()),
                    None => false,
                };
                let ps = match &self.previous_project {
                    Some(p) => !crate::chars::str_eq(p.as_str(), key.as_str()),
                    None => false,
                };
                proof {
                    if a.workspace_timeline.contains_key(bucket@) {
                        assert(bounded(a.workspace_timeline[bucket@], n));
                    }
                    reveal_strlit("Workspace switch");
                    reveal_strlit("Project switch");
                    assert("Workspace switch"@.len() != "Project switch"@.len());
                }
                if ws {
                    self.workspace_switches = self.workspace_switches + 1;
                    bump_timeline_exec(&mut self.workspace_timeline, bucket, "Workspace switch", Ghost(n));
                }
                if ps {
                    self.project_switches = self.project_switches + 1;
                    bump_timeline_exec(&mut self.workspace_timeline, bucket, "Project switch", Ghost(n));
                }
                self.previous_cwd = Some(norm);
                self.previous_project = Some(key);
            },
            None => {},
        }
    }

    fn count_turn(&mut self, t: &TurnRecord, bucket: &String, session_cwd: Option<String>, Ghost(n): Ghost<int>)
        requires
            summary_within(old(self)@, n),
            n < i64::MAX,
        ensures
            final(self)@ == summary_step(old(self)@, t@, bucket@, opt_view(session_cwd)),
            summary_within(final(self)@, n + 1),
    {
        let ghost a = self@;
        proof {
            lemma_summary_grows(a, n);
        }
        if t.turn_context_count > 1 {
            self.repeated_turn_contexts = self.repeated_turn_contexts.wrapping_add(t.turn_context_count - 1);
        }
        if t.aborted {
            self.aborted_turns = self.aborted_turns + 1;
        }
        assert(self@ == with_turn_counts(a, t@));
        self.count_model(t, bucket, Ghost(n));
        self.count_prompt(t, Ghost(n));
        self.count_place(t, bucket, session_cwd, Ghost(n));
        let ghost before_push = self.turns@;
        self.turns.push(clone_turn(t));
        assert(self.turns@.map_values(|x: TurnRecord| x@) =~= before_push.map_values(|x: TurnRecord| x@).push(t@));
    }
}

/// Turns, seen as plain values.
pub open spec fn turn_views(turns: Seq<TurnRecord>) -> Seq<TurnView> {
    turns.map_values(|t: TurnRecord| t@)
}

/// An optional text slice, seen as an optional text.
pub open spec fn str_view(s: Option<&str>) -> Option<Seq<char>> {
    match s {
        Some(v) => Some(v@),
        None => None,
    }
}

/// The statistics of the turns that fall in the dashboard's range and belong to the selected
/// project, counted in the order they happened: by instant, turns of the same instant in the
/// order given. `stamps` holds the local day and bucket of each turn's instant.
pub fn summarize_turns(
    turns: &[TurnRecord],
    stamps: &[Option<LocalStamp>],
    scope: &ScopeDays,
    selected: Option<&str>,
    cwds: &[(String, Option<String>)],
) -> (r: TurnSummary)
    requires
        turns@.len() == stamps@.len(),
        turns@.len() < i64::MAX,
    ensures
        exists|order: Seq<int>|
            #[trigger] is_turn_order(turn_views(turns@), stamps@, *scope, str_view(selected), cwds_view(cwds@), order)
                && r@ == summary_folded(turn_views(turns@), stamps@, cwds_view(cwds@), order),
{
    let ghost tv = turn_views(turns@);
    let ghost cv = cwds_view(cwds@);
    let ghost sel = str_view(selected);
    let order = turn_order(turns, stamps, scope, selected, cwds);
    let ghost ov = order@.map_values(|i: usize| i as int);
    let mut summary = TurnSummary::new();
    let mut j: usize = 0;
    while j < order.len()
        invariant
            j <= order@.len(),
            turns@.len() == stamps@.len(),
            turns@.len() < i64::MAX,
            tv == turn_views(turns@),
            cv == cwds_view(cwds@),
            ov == order@.map_values(|i: usize| i as int),
            is_turn_order(tv, stamps@, *scope, sel, cv, ov),
            order@.len() <= turns@.len(),
            summary_within(summary@, j as int),
            summary@ == summary_folded(tv, stamps@, cv, ov.take(j as int)),
        decreases order.len() - j,
    {
        let i = order[j];
        assert(ov[j as int] == i as int);
        let t = &turns[i];
        let bucket = &stamps[i].as_ref().unwrap().bucket;
        let scwd = crate::event_pass::session_cwd_exec(cwds, &t.session_id);
        assert(ov.take(j as int + 1).drop_last() == ov.take(j as int));
        assert(ov.take(j as int + 1).last() == i as int);
        summary.count_turn(t, bucket, scwd, Ghost(j as int));
        j += 1;
    }
    assert(ov.take(ov.len() as int) == ov);
    assert(is_turn_order(tv, stamps@, *scope, sel, cv, ov) && summary@ == summary_folded(tv, stamps@, cv, ov));
    summary
}

proof fn lemma_turn_order_distinct(
    turns: Seq<TurnView>,
    stamps: Seq<Option<LocalStamp>>,
    scope: ScopeDays,
    selected: Option<Seq<char>>,
    cwds: Seq<(Seq<char>, Option<Seq<char>>)>,
    r: Seq<int>,
    j: int,
    k: int,
)
    requires
        is_turn_order(turns, stamps, scope, selected, cwds, r),
        0 <= j < k < r.len(),
    ensures
        r[j] != r[k],
{
    assert(turn_before(turns, r[j], r[k]));
}

proof fn lemma_turn_order_agrees(
    turns: Seq<TurnView>,
    stamps: Seq<Option<LocalStamp>>,
    scope: ScopeDays,
    selected: Option<Seq<char>>,
    cwds: Seq<(Seq<char>, Option<Seq<char>>)>,
    a: Seq<int>,
    b: Seq<int>,
    j: int,
)
    requires
        is_turn_order(turns, stamps, scope, selected, cwds, a),
        is_turn_order(turns, stamps, scope, selected, cwds, b),
        0 <= j < a.len(),
        0 <= j < b.len(),
    ensures
        a[j] == b[j],
    decreases j,
{
    assert forall|i: int| 0 <= i < j implies a[i] == b[i] by {
        lemma_turn_order_agrees(turns, stamps, scope, selected, cwds, a, b, i);
    }
    if a[j] != b[j] {
        assert(a.contains(b[j]));
        let k = choose|k: int| 0 <= k < a.len() && a[k] == b[j];
        if k < j {
            lemma_turn_order_distinct(turns, stamps, scope, selected, cwds, b, k, j);
        }
        assert(b.contains(a[j]));
        let m = choose|m: int| 0 <= m < b.len() && b[m] == a[j];
        if m < j {
            lemma_turn_order_distinct(turns, stamps, scope, selected, cwds, a, m, j);
        }
        assert(turn_before(turns, a[j], a[k]));
        assert(turn_before(turns, b[j], b[m]));
    }
}

proof fn lemma_turn_order_no_longer(
    turns: Seq<TurnView>,
    stamps: Seq<Option<LocalStamp>>,
    scope: ScopeDays,
    selected: Option<Seq<char>>,
    cwds: Seq<(Seq<char>, Option<Seq<char>>)>,
    a: Seq<int>,
    b: Seq<int>,
)
    requires
        is_turn_order(turns, stamps, scope, selected, cwds, a),
        is_turn_order(turns, stamps, scope, selected, cwds, b),
    ensures
        a.len() >= b.len(),
{
    if a.len() < b.len() {
        let x = b[a.len() as int];
        assert(a.contains(x));
        let k = choose|k: int| 0 <= k < a.len() && a[k] == x;
        lemma_turn_order_agrees(turns, stamps, scope, selected, cwds, a, b, k);
        lemma_turn_order_distinct(turns, stamps, scope, selected, cwds, b, k, a.len() as int);
    }
}

/// The order in which turns are counted is fully determined by the turns: whatever order the
/// first pass finished them in among turns of different instants, the statistics come out the
/// same.
pub proof fn lemma_turn_order_unique(
    turns: Seq<TurnView>,
    stamps: Seq<Option<LocalStamp>>,
    scope: ScopeDays,
    selected: Option<Seq<char>>,
    cwds: Seq<(Seq<char>, Option<Seq<char>>)>,
    a: Seq<int>,
    b: Seq<int>,
)
    requires
        is_turn_order(turns, stamps, scope, selected, cwds, a),
        is_turn_order(turns, stamps, scope, selected, cwds, b),
    ensures
        a == b,
{
    lemma_turn_order_no_longer(turns, stamps, scope, selected, cwds, a, b);
    lemma_turn_order_no_longer(turns, stamps, scope, selected, cwds, b, a);
    assert forall|j: int| 0 <= j < a.len() implies a[j] == b[j] by {
        lemma_turn_order_agrees(turns, stamps, scope, selected, cwds, a, b, j);
    }
    assert(a =~= b);
}

} // verus!
