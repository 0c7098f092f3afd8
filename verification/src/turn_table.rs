//! The turns that the analytics rebuild from stored events, and the small keyed tables they
//! keep while doing so.
use crate::models::{opt_view, TokenUsageSummary};
use crate::turns::TurnTiming;
use vstd::prelude::*;

verus! {

/// A turn as the analytics rebuild it from its events.
#[derive(Debug, Default)]
pub struct TurnRecord {
    pub session_id: String,
    pub timing: TurnTiming,
    pub model: Option<String>,
    pub effort: Option<String>,
    pub cwd: Option<String>,
    pub user_text: Option<String>,
    pub turn_context_count: i64,
    pub aborted: bool,
    pub tool_call_count: i64,
    pub usage: TokenUsageSummary,
    pub last_token_signature: Option<String>,
}

/// A turn, seen as plain values.
pub struct TurnView {
    pub session_id: Seq<char>,
    pub timing: TurnTiming,
    pub model: Option<Seq<char>>,
    pub effort: Option<Seq<char>>,
    pub cwd: Option<Seq<char>>,
    pub user_text: Option<Seq<char>>,
    pub turn_context_count: i64,
    pub aborted: bool,
    pub tool_call_count: i64,
    pub usage: (i64, i64, i64, i64, i64),
    pub last_token_signature: Option<Seq<char>>,
}

impl TurnRecord {
    /// The turn as plain values.
    pub open spec fn view(&self) -> TurnView {
        TurnView {
            session_id: self.session_id@,
            timing: self.timing,
            model: opt_view(self.model),
            effort: opt_view(self.effort),
            cwd: opt_view(self.cwd),
            user_text: opt_view(self.user_text),
            turn_context_count: self.turn_context_count,
            aborted: self.aborted,
            tool_call_count: self.tool_call_count,
            usage: crate::events::usage_counts(self.usage),
            last_token_signature: opt_view(self.last_token_signature),
        }
    }
}

impl TurnRecord {
    /// The length of the turn's question, in characters; 0 without one.
    pub fn prompt_length(&self) -> (r: usize)
        ensures
            r == match self.user_text {
                Some(t) => t@.len(),
                None => 0,
            },
    {
        match &self.user_text {
            Some(t) => crate::chars::chars_of(t.as_str()).len(),
            None => 0,
        }
    }
}

/// A turn that nothing is known of yet.
pub open spec fn fresh_turn() -> TurnView {
    TurnView {
        session_id: Seq::empty(),
        timing: TurnTiming {
            started_ms: None,
            user_ms: None,
            first_assistant_ms: None,
            completed_ms: None,
            task_duration_ms: None,
        },
        model: None,
        effort: None,
        cwd: None,
        user_text: None,
        turn_context_count: 0,
        aborted: false,
        tool_call_count: 0,
        usage: (0, 0, 0, 0, 0),
        last_token_signature: None,
    }
}

/// A turn that nothing is known of yet.
pub fn new_turn() -> (r: TurnRecord)
    ensures
        r@ == fresh_turn(),
{
    TurnRecord {
        session_id: String::new(),
        timing: TurnTiming {
            started_ms: None,
            user_ms: None,
            first_assistant_ms: None,
            completed_ms: None,
            task_duration_ms: None,
        },
        model: None,
        effort: None,
        cwd: None,
        user_text: None,
        turn_context_count: 0,
        aborted: false,
        tool_call_count: 0,
        usage: TokenUsageSummary {
            input_tokens: 0,
            output_tokens: 0,
            cached_input_tokens: 0,
            reasoning_output_tokens: 0,
            total_tokens: 0,
        },
        last_token_signature: None,
    }
}

/// An open turn with its id.
pub struct TurnSlot {
    pub id: String,
    pub turn: TurnRecord,
}

/// The open turns, seen as ids with turns.
pub open spec fn slots_view(s: Seq<TurnSlot>) -> Seq<(Seq<char>, TurnView)> {
    s.map_values(|t: TurnSlot| (t.id@, t.turn@))
}

/// The position of the first turn with this id.
pub open spec fn find_turn(open: Seq<(Seq<char>, TurnView)>, id: Seq<char>) -> Option<int>
    decreases open.len(),
{
    if open.len() == 0 {
        None
    } else {
        match find_turn(open.drop_last(), id) {
            Some(i) => Some(i),
            None => if open.last().0 == id {
                Some(open.len() - 1)
            } else {
                None
            },
        }
    }
}

/// Where `find_turn` finds a turn, the turn has the id; where it finds none, no turn has it.
pub proof fn lemma_find_turn(open: Seq<(Seq<char>, TurnView)>, id: Seq<char>)
    ensures
        find_turn(open, id) matches Some(i) ==> 0 <= i < open.len() && open[i].0 == id,
        find_turn(open, id) is None ==> forall|j: int| 0 <= j < open.len() ==> (#[trigger] open[j]).0 != id,
    decreases open.len(),
{
    if open.len() > 0 {
        lemma_find_turn(open.drop_last(), id);
        assert forall|j: int| 0 <= j < open.len() - 1 implies open.drop_last()[j] == open[j] by {}
    }
}

proof fn lemma_find_turn_prefix(open: Seq<(Seq<char>, TurnView)>, id: Seq<char>, n: int)
    requires
        0 <= n <= open.len(),
        find_turn(open.take(n), id) is Some,
    ensures
        find_turn(open, id) == find_turn(open.take(n), id),
    decreases open.len() - n,
{
    if n < open.len() {
        assert(open.take(open.len() - 1) == open.drop_last());
        assert(open.drop_last().take(n) == open.take(n));
        lemma_find_turn_prefix(open.drop_last(), id, n);
    } else {
        assert(open.take(n) == open);
    }
}

/// The open turns once the turn `id` is open: as they were when it is, else with a new turn
/// for it at the end; and where it is.
pub open spec fn opened(open: Seq<(Seq<char>, TurnView)>, id: Seq<char>) -> (Seq<(Seq<char>, TurnView)>, int) {
    match find_turn(open, id) {
        Some(i) => (open, i),
        None => (open.push((id, fresh_turn())), open.len() as int),
    }
}

/// A turn that names its session: the given one where it named none.
pub open spec fn with_session(t: TurnView, session: Seq<char>) -> TurnView {
    if t.session_id.len() == 0 {
        TurnView { session_id: session, ..t }
    } else {
        t
    }
}

/// Opens the turn `id` when it is not open yet, and gives the place where it is.
pub fn open_turn(open: &mut Vec<TurnSlot>, id: &str) -> (r: usize)
    ensures
        slots_view(final(open)@) == opened(slots_view(old(open)@), id@).0,
        r == opened(slots_view(old(open)@), id@).1,
        r < final(open)@.len(),
{
    let ghost v = slots_view(open@);
    let mut i: usize = 0;
    while i < open.len()
        invariant
            i <= open@.len(),
            v == slots_view(open@),
            find_turn(v.take(i as int), id@) is None,
        decreases open.len() - i,
    {
        let ghost t = v.take(i as int + 1);
        assert(t.drop_last() == v.take(i as int));
        if crate::chars::str_eq(open[i].id.as_str(), id) {
            proof {
                assert(t.last() == v[i as int]);
                assert(find_turn(t, id@) == Some(i as int));
                lemma_find_turn_prefix(v, id@, i as int + 1);
            }
            return i;
        }
        i += 1;
    }
    assert(v.take(v.len() as int) == v);
    let slot = TurnSlot { id: id.to_owned(), turn: new_turn() };
    open.push(slot);
    assert(slots_view(open@) =~= v.push((id@, fresh_turn())));
    open.len() - 1
}

/// A text per key, as a `HashMap<String, String>` keeps it: no key twice.
pub struct TextMap {
    entries: Vec<(String, String)>,
}

/// The map that a list of pairs stands for, the first pair of a key winning.
pub open spec fn text_pairs_map(s: Seq<(Seq<char>, Seq<char>)>) -> Map<Seq<char>, Seq<char>>
    decreases s.len(),
{
    if s.len() == 0 {
        Map::empty()
    } else {
        text_pairs_map(s.drop_first()).insert(s[0].0, s[0].1)
    }
}

/// Whether no key occurs twice.
pub open spec fn distinct_keys(s: Seq<(Seq<char>, Seq<char>)>) -> bool {
    forall|i: int, j: int| 0 <= i < j < s.len() ==> (#[trigger] s[i]).0 != (#[trigger] s[j]).0
}

proof fn lemma_text_pairs_key(s: Seq<(Seq<char>, Seq<char>)>, k: Seq<char>)
    ensures
        text_pairs_map(s).contains_key(k) <==> exists|i: int| 0 <= i < s.len() && (#[trigger] s[i]).0 == k,
    decreases s.len(),
{
    if s.len() > 0 {
        lemma_text_pairs_key(s.drop_first(), k);
        if exists|i: int| 0 <= i < s.len() && (#[trigger] s[i]).0 == k {
            let i = choose|i: int| 0 <= i < s.len() && (#[trigger] s[i]).0 == k;
            if i > 0 {
                assert(s.drop_first()[i - 1] == s[i]);
            }
        }
        if exists|i: int| 0 <= i < s.drop_first().len() && (#[trigger] s.drop_first()[i]).0 == k {
            let i = choose|i: int| 0 <= i < s.drop_first().len() && (#[trigger] s.drop_first()[i]).0 == k;
            assert(s[i + 1] == s.drop_first()[i]);
        }
    }
}

proof fn lemma_text_pairs_value(s: Seq<(Seq<char>, Seq<char>)>, i: int)
    requires
        distinct_keys(s),
        0 <= i < s.len(),
    ensures
        text_pairs_map(s).contains_key(s[i].0),
        text_pairs_map(s)[s[i].0] == s[i].1,
    decreases s.len(),
{
    if i > 0 {
        assert(s.drop_first()[i - 1] == s[i]);
        assert(distinct_keys(s.drop_first()));
        lemma_text_pairs_value(s.drop_first(), i - 1);
        assert(s[0].0 != s[i].0);
    }
}

proof fn lemma_text_pairs_remove(s: Seq<(Seq<char>, Seq<char>)>, i: int)
    requires
        distinct_keys(s),
        0 <= i < s.len(),
    ensures
        text_pairs_map(s.remove(i)) == text_pairs_map(s).remove(s[i].0),
        distinct_keys(s.remove(i)),
    decreases s.len(),
{
    let t = s.remove(i);
    if i == 0 {
        assert(t == s.drop_first());
        if text_pairs_map(s.drop_first()).contains_key(s[0].0) {
            lemma_text_pairs_key(s.drop_first(), s[0].0);
            let j = choose|j: int| 0 <= j < s.drop_first().len() && (#[trigger] s.drop_first()[j]).0 == s[0].0;
            assert(s[j + 1] == s.drop_first()[j]);
        }
        assert(text_pairs_map(t) =~= text_pairs_map(s).remove(s[0].0));
    } else {
        assert(t.drop_first() == s.drop_first().remove(i - 1));
        assert(distinct_keys(s.drop_first()));
        lemma_text_pairs_remove(s.drop_first(), i - 1);
        assert(t[0] == s[0]);
        assert(s[0].0 != s[i].0);
        assert(text_pairs_map(t) =~= text_pairs_map(s).remove(s[i].0));
    }
}

impl TextMap {
    #[verifier::type_invariant]
    spec fn keys_distinct(self) -> bool {
        distinct_keys(self.entries@.map_values(|e: (String, String)| (e.0@, e.1@)))
    }

    /// The text of each key.
    pub closed spec fn view(&self) -> Map<Seq<char>, Seq<char>> {
        text_pairs_map(self.entries@.map_values(|e: (String, String)| (e.0@, e.1@)))
    }

    /// No keys.
    pub fn new() -> (r: Self)
        ensures
            r@ == Map::<Seq<char>, Seq<char>>::empty(),
    {
        let r = TextMap { entries: Vec::new() };
        assert(r.entries@.map_values(|e: (String, String)| (e.0@, e.1@)) =~= Seq::<(Seq<char>, Seq<char>)>::empty());
        r
    }

    /// Gives `key` the text `value`, in place of any it had.
    pub fn insert(&mut self, key: String, value: String)
        ensures
            final(self)@ == old(self)@.insert(key@, value@),
    {
        let _ = self.remove(key.as_str());
        proof {
            use_type_invariant(&*self);
        }
        let mut entries: Vec<(String, String)> = Vec::new();
        std::mem::swap(&mut entries, &mut self.entries);
        let ghost before = entries@.map_values(|e: (String, String)| (e.0@, e.1@));
        proof {
            assert(self.entries@.map_values(|e: (String, String)| (e.0@, e.1@)) =~= Seq::<(Seq<char>, Seq<char>)>::empty());
        }
        let ghost k = key@;
        let ghost val = value@;
        entries.insert(0, (key, value));
        proof {
            assert(!text_pairs_map(before).contains_key(k));
            lemma_text_pairs_key(before, k);
            assert(forall|j: int| 0 <= j < before.len() ==> (#[trigger] before[j]).0 != k);
            let after = entries@.map_values(|e: (String, String)| (e.0@, e.1@));
            assert(after.drop_first() =~= before);
            assert(after[0] == (k, val));
            assert forall|i: int, j: int| 0 <= i < j < after.len() implies (#[trigger] after[i]).0 != (#[trigger] after[j]).0 by {
                if i == 0 {
                    assert(after[j] == before[j - 1]);
                } else {
                    assert(after[i] == before[i - 1]);
                    assert(after[j] == before[j - 1]);
                }
            }
            assert(text_pairs_map(after) == text_pairs_map(before).insert(k, val));
        }
        self.entries = entries;
    }

    /// Takes the text of `key` out, if it has one.
    pub fn remove(&mut self, key: &str) -> (r: Option<String>)
        ensures
            final(self)@ == old(self)@.remove(key@),
            match r {
                Some(v) => old(self)@.contains_key(key@) && old(self)@[key@] == v@,
                None => !old(self)@.contains_key(key@),
            },
    {
        proof {
            use_type_invariant(&*self);
        }
        let ghost v = self.entries@.map_values(|e: (String, String)| (e.0@, e.1@));
        let mut i: usize = 0;
        while i < self.entries.len()
            invariant
                i <= self.entries@.len(),
                v == self.entries@.map_values(|e: (String, String)| (e.0@, e.1@)),
                *self == *old(self),
                distinct_keys(v),
                forall|j: int| 0 <= j < i ==> (#[trigger] v[j]).0 != key@,
            decreases self.entries.len() - i,
        {
            if crate::chars::str_eq(self.entries[i].0.as_str(), key) {
                let mut entries: Vec<(String, String)> = Vec::new();
                std::mem::swap(&mut entries, &mut self.entries);
                proof {
                    assert(self.entries@.map_values(|e: (String, String)| (e.0@, e.1@)) =~= Seq::<
                        (Seq<char>, Seq<char>),
                    >::empty());
                    lemma_text_pairs_value(v, i as int);
                    lemma_text_pairs_remove(v, i as int);
                }
                let ghost old_entry = entries@[i as int];
                let (_, value) = entries.remove(i);
                assert(value@ == v[i as int].1);
                assert(v[i as int].0 == key@);
                assert(entries@.map_values(|e: (String, String)| (e.0@, e.1@)) =~= v.remove(i as int));
                self.entries = entries;
                return Some(value);
            }
            i += 1;
        }
        proof {
            if text_pairs_map(v).contains_key(key@) {
                lemma_text_pairs_key(v, key@);
            }
            assert(text_pairs_map(v).remove(key@) =~= text_pairs_map(v));
        }
        None
    }
}

} // verus!
