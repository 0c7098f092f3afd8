//! Counts per label, and the charts made of them: the labels with the largest counts, larger
//! counts first and equal counts in label order.
use crate::models::ChartDatum;
use vstd::prelude::*;

verus! {

/// `a` sorts before `b` as `str` values compare: character by character, by code point, a
/// proper prefix first.
pub open spec fn text_lt(a: Seq<char>, b: Seq<char>) -> bool
    decreases a.len(),
{
    if a.len() == 0 {
        b.len() > 0
    } else if b.len() == 0 {
        false
    } else if a[0] != b[0] {
        (a[0] as u32) < (b[0] as u32)
    } else {
        text_lt(a.drop_first(), b.drop_first())
    }
}

/// No text sorts before itself.
pub proof fn lemma_text_lt_irreflexive(a: Seq<char>)
    ensures
        !text_lt(a, a),
    decreases a.len(),
{
    if a.len() > 0 {
        lemma_text_lt_irreflexive(a.drop_first());
    }
}

/// Of two different texts, exactly one sorts before the other.
pub proof fn lemma_text_lt_total(a: Seq<char>, b: Seq<char>)
    ensures
        a != b ==> (text_lt(a, b) || text_lt(b, a)),
        !(text_lt(a, b) && text_lt(b, a)),
    decreases a.len(),
{
    if a.len() > 0 && b.len() > 0 {
        if a[0] == b[0] {
            lemma_text_lt_total(a.drop_first(), b.drop_first());
            if a != b {
                assert(a == seq![a[0]] + a.drop_first());
                assert(b == seq![b[0]] + b.drop_first());
            }
        } else {
            vstd::utf8::char_u32_cast(a[0], a[0] as u32);
            vstd::utf8::char_u32_cast(b[0], b[0] as u32);
            assert((a[0] as u32) != (b[0] as u32));
        }
    } else if a.len() == 0 && b.len() == 0 {
        assert(a == b);
    }
}

/// Sorting before is transitive.
pub proof fn lemma_text_lt_transitive(a: Seq<char>, b: Seq<char>, c: Seq<char>)
    requires
        text_lt(a, b),
        text_lt(b, c),
    ensures
        text_lt(a, c),
    decreases a.len(),
{
    if a.len() > 0 && b.len() > 0 && c.len() > 0 {
        if a[0] == b[0] && b[0] == c[0] {
            lemma_text_lt_transitive(a.drop_first(), b.drop_first(), c.drop_first());
        }
    }
}

/// Whether `a` sorts before `b` as `str` values compare.
pub fn text_less(a: &str, b: &str) -> (r: bool)
    ensures
        r == text_lt(a@, b@),
{
    let va = crate::chars::chars_of(a);
    let vb = crate::chars::chars_of(b);
    let mut i: usize = 0;
    assert(va@.skip(0) == va@);
    assert(vb@.skip(0) == vb@);
    while i < va.len() && i < vb.len()
        invariant
            i <= va@.len(),
            i <= vb@.len(),
            va@ == a@,
            vb@ == b@,
            va@.take(i as int) == vb@.take(i as int),
            text_lt(a@, b@) == text_lt(va@.skip(i as int), vb@.skip(i as int)),
        decreases va.len() - i,
    {
        let x = va[i];
        let y = vb[i];
        assert(va@.skip(i as int)[0] == x);
        assert(vb@.skip(i as int)[0] == y);
        if x != y {
            return (x as u32) < (y as u32);
        }
        assert(va@.skip(i as int).drop_first() == va@.skip(i as int + 1));
        assert(vb@.skip(i as int).drop_first() == vb@.skip(i as int + 1));
        assert(va@.take(i as int + 1) == va@.take(i as int).push(x));
        assert(vb@.take(i as int + 1) == vb@.take(i as int).push(y));
        i += 1;
    }
    vb.len() > i
}

/// A labelled count, seen as a pair.
pub open spec fn entry_of(d: ChartDatum) -> (Seq<char>, i64) {
    (d.label@, d.value)
}

/// `a` comes before `b` in a chart: the larger count first, and of equal counts the label
/// that sorts first.
pub open spec fn ranks_before(a: (Seq<char>, i64), b: (Seq<char>, i64)) -> bool {
    a.1 > b.1 || (a.1 == b.1 && text_lt(a.0, b.0))
}

/// Ranking is a strict order, total on entries with different labels.
pub proof fn lemma_ranks_before_order(a: (Seq<char>, i64), b: (Seq<char>, i64), c: (Seq<char>, i64))
    ensures
        !ranks_before(a, a),
        !(ranks_before(a, b) && ranks_before(b, a)),
        a.0 != b.0 ==> (ranks_before(a, b) || ranks_before(b, a)),
        ranks_before(a, b) && ranks_before(b, c) ==> ranks_before(a, c),
{
    lemma_text_lt_irreflexive(a.0);
    lemma_text_lt_total(a.0, b.0);
    if ranks_before(a, b) && ranks_before(b, c) && a.1 == b.1 && b.1 == c.1 {
        lemma_text_lt_transitive(a.0, b.0, c.0);
    }
}

/// Whether `a` comes before `b` in a chart.
pub fn ranks_before_exec(a: &ChartDatum, b: &ChartDatum) -> (r: bool)
    ensures
        r == ranks_before(entry_of(*a), entry_of(*b)),
{
    if a.value != b.value {
        a.value > b.value
    } else {
        text_less(a.label.as_str(), b.label.as_str())
    }
}

/// The counts of a sequence of labelled counts, later entries winning.
pub open spec fn counts_map(s: Seq<ChartDatum>) -> Map<Seq<char>, i64>
    decreases s.len(),
{
    if s.len() == 0 {
        Map::empty()
    } else {
        counts_map(s.drop_last()).insert(s.last().label@, s.last().value)
    }
}

/// Whether no label occurs twice.
pub open spec fn distinct_labels(s: Seq<ChartDatum>) -> bool {
    forall|i: int, j: int| 0 <= i < j < s.len() ==> (#[trigger] s[i]).label@ != (#[trigger] s[j]).label@
}

proof fn lemma_counts_map_entry(s: Seq<ChartDatum>, i: int)
    requires
        distinct_labels(s),
        0 <= i < s.len(),
    ensures
        counts_map(s).contains_key(s[i].label@),
        counts_map(s)[s[i].label@] == s[i].value,
    decreases s.len(),
{
    if i < s.len() - 1 {
        assert(s.drop_last()[i] == s[i]);
        assert(distinct_labels(s.drop_last()));
        lemma_counts_map_entry(s.drop_last(), i);
        assert(s[i].label@ != s.last().label@);
    }
}

proof fn lemma_counts_map_key(s: Seq<ChartDatum>, k: Seq<char>)
    requires
        counts_map(s).contains_key(k),
    ensures
        exists|i: int| 0 <= i < s.len() && (#[trigger] s[i]).label@ == k,
    decreases s.len(),
{
    if s.len() > 0 && s.last().label@ != k {
        lemma_counts_map_key(s.drop_last(), k);
        let i = choose|i: int| 0 <= i < s.drop_last().len() && (#[trigger] s.drop_last()[i]).label@ == k;
        assert(s[i] == s.drop_last()[i]);
    } else if s.len() > 0 {
        assert(s[s.len() - 1].label@ == k);
    }
}

proof fn lemma_counts_map_update(s: Seq<ChartDatum>, i: int, d: ChartDatum)
    requires
        distinct_labels(s),
        0 <= i < s.len(),
        s[i].label@ == d.label@,
    ensures
        counts_map(s.update(i, d)) == counts_map(s).insert(d.label@, d.value),
        distinct_labels(s.update(i, d)),
    decreases s.len(),
{
    let t = s.update(i, d);
    if i == s.len() - 1 {
        assert(t.drop_last() == s.drop_last());
    } else {
        assert(t.drop_last() == s.drop_last().update(i, d));
        assert(distinct_labels(s.drop_last()));
        lemma_counts_map_update(s.drop_last(), i, d);
        assert(s.last().label@ != d.label@);
        assert(counts_map(t) =~= counts_map(s).insert(d.label@, d.value));
    }
}

/// A count per label, as the analytics keep them: no label occurs twice, and a label that
/// was never counted has the count 0.
pub struct LabelCounts {
    entries: Vec<ChartDatum>,
}

impl LabelCounts {
    #[verifier::type_invariant]
    spec fn labels_distinct(self) -> bool {
        distinct_labels(self.entries@)
    }

    /// The count of each label that was counted.
    pub closed spec fn view(&self) -> Map<Seq<char>, i64> {
        counts_map(self.entries@)
    }

    /// No counts.
    pub fn new() -> (r: Self)
        ensures
            r@ == Map::<Seq<char>, i64>::empty(),
    {
        LabelCounts { entries: Vec::new() }
    }

    fn position(&self, label: &str) -> (r: Option<usize>)
        ensures
            match r {
                Some(i) => i < self.entries@.len() && self.entries@[i as int].label@ == label@,
                None => !self@.contains_key(label@),
            },
    {
        proof {
            use_type_invariant(self);
        }
        let mut i: usize = 0;
        while i < self.entries.len()
            invariant
                i <= self.entries@.len(),
                forall|j: int| 0 <= j < i ==> (#[trigger] self.entries@[j]).label@ != label@,
            decreases self.entries.len() - i,
        {
            if crate::chars::str_eq(self.entries[i].label.as_str(), label) {
                return Some(i);
            }
            i += 1;
        }
        proof {
            if self@.contains_key(label@) {
                lemma_counts_map_key(self.entries@, label@);
            }
        }
        None
    }

    /// The labels that were counted, each once.
    pub fn labels(&self) -> (r: Vec<String>)
        ensures
            forall|i: int, j: int| 0 <= i < j < r@.len() ==> (#[trigger] r@[i])@ != (#[trigger] r@[j])@,
            forall|k: Seq<char>| self@.contains_key(k) <==> exists|i: int| 0 <= i < r@.len() && (#[trigger] r@[i])@ == k,
    {
        proof {
            use_type_invariant(self);
        }
        let mut r: Vec<String> = Vec::new();
        let mut i: usize = 0;
        while i < self.entries.len()
            invariant
                i <= self.entries@.len(),
                distinct_labels(self.entries@),
                r@.len() == i,
                forall|j: int| 0 <= j < i ==> (#[trigger] r@[j])@ == self.entries@[j].label@,
            decreases self.entries.len() - i,
        {
            r.push(self.entries[i].label.clone());
            i += 1;
        }
        proof {
            assert forall|k: Seq<char>| self@.contains_key(k) <==> exists|i: int| 0 <= i < r@.len() && (#[trigger] r@[i])@ == k by {
                if self@.contains_key(k) {
                    lemma_counts_map_key(self.entries@, k);
                    let i = choose|i: int| 0 <= i < self.entries@.len() && (#[trigger] self.entries@[i]).label@ == k;
                    assert(r@[i]@ == k);
                }
                if exists|i: int| 0 <= i < r@.len() && (#[trigger] r@[i])@ == k {
                    let i = choose|i: int| 0 <= i < r@.len() && (#[trigger] r@[i])@ == k;
                    lemma_counts_map_entry(self.entries@, i);
                }
            }
        }
        r
    }

    /// Whether `label` was counted.
    pub fn contains(&self, label: &str) -> (r: bool)
        ensures
            r == self@.contains_key(label@),
    {
        proof {
            use_type_invariant(self);
        }
        match self.position(label) {
            Some(i) => {
                proof {
                    lemma_counts_map_entry(self.entries@, i as int);
                }
                true
            },
            None => false,
        }
    }

    /// The count of `label`: 0 when it was never counted.
    pub fn get(&self, label: &str) -> (r: i64)
        ensures
            r == (if self@.contains_key(label@) {
                self@[label@]
            } else {
                0
            }),
    {
        proof {
            use_type_invariant(self);
        }
        match self.position(label) {
            Some(i) => {
                proof {
                    lemma_counts_map_entry(self.entries@, i as int);
                }
                self.entries[i].value
            },
            None => 0,
        }
    }

    /// Whether every count is at most `bound`.
    pub fn all_at_most(&self, bound: i64) -> (r: bool)
        ensures
            r == forall|k: Seq<char>| self@.contains_key(k) ==> self@[k] <= bound,
    {
        proof {
            use_type_invariant(self);
        }
        let mut i: usize = 0;
        while i < self.entries.len()
            invariant
                i <= self.entries@.len(),
                distinct_labels(self.entries@),
                forall|j: int| 0 <= j < i ==> (#[trigger] self.entries@[j]).value <= bound,
            decreases self.entries.len() - i,
        {
            if self.entries[i].value > bound {
                proof {
                    lemma_counts_map_entry(self.entries@, i as int);
                    let k = self.entries@[i as int].label@;
                    assert(self@.contains_key(k) && self@[k] > bound);
                }
                return false;
            }
            i += 1;
        }
        proof {
            assert forall|k: Seq<char>| self@.contains_key(k) implies self@[k] <= bound by {
                lemma_counts_map_key(self.entries@, k);
                let j = choose|j: int| 0 <= j < self.entries@.len() && (#[trigger] self.entries@[j]).label@ == k;
                lemma_counts_map_entry(self.entries@, j);
            }
        }
        true
    }

    /// Adds `amount` to the count of `label`.
    pub fn increment(&mut self, label: &str, amount: i64)
        requires
            i64::MIN <= (if old(self)@.contains_key(label@) {
                old(self)@[label@]
            } else {
                0
            }) + amount <= i64::MAX,
        ensures
            final(self)@ == old(self)@.insert(
                label@,
                ((if old(self)@.contains_key(label@) {
                    old(self)@[label@]
                } else {
                    0
                }) + amount) as i64,
            ),
    {
        proof {
            use_type_invariant(&*self);
        }
        let found = self.position(label);
        let mut entries: Vec<ChartDatum> = Vec::new();
        std::mem::swap(&mut entries, &mut self.entries);
        match found {
            Some(i) => {
                proof {
                    lemma_counts_map_entry(entries@, i as int);
                }
                let value = entries[i].value + amount;
                let d = ChartDatum { label: entries[i].label.clone(), value };
                proof {
                    lemma_counts_map_update(entries@, i as int, d);
                }
                entries.set(i, d);
            },
            None => {
                let d = ChartDatum { label: label.to_owned(), value: amount };
                proof {
                    assert forall|j: int| 0 <= j < entries@.len() implies (#[trigger] entries@[j]).label@ != label@ by {
                        if entries@[j].label@ == label@ {
                            lemma_counts_map_entry(entries@, j);
                        }
                    }
                    assert(entries@.push(d).drop_last() == entries@);
                }
                entries.push(d);
            },
        }
        self.entries = entries;
    }
}

/// The labels in a chart with their counts in `m`.
pub open spec fn with_counts(m: Map<Seq<char>, i64>, labels: Seq<Seq<char>>) -> Seq<(Seq<char>, i64)> {
    labels.map_values(|k: Seq<char>| (k, m[k]))
}

/// Whether `labels` are the top of the counts in `m` that reach `min_count`, at most `limit`
/// of them: each is counted and reaches `min_count`, they are in chart order, and every other
/// label that reaches `min_count` comes after all of them, which is then only possible when
/// `limit` of them were taken.
pub open spec fn is_top(m: Map<Seq<char>, i64>, limit: nat, min_count: i64, labels: Seq<Seq<char>>) -> bool {
    let r = with_counts(m, labels);
    &&& labels.len() <= limit
    &&& forall|i: int| 0 <= i < labels.len() ==> m.contains_key(#[trigger] labels[i]) && m[labels[i]] >= min_count
    &&& forall|i: int, j: int| 0 <= i < j < labels.len() ==> ranks_before(#[trigger] r[i], #[trigger] r[j])
    &&& forall|k: Seq<char>|
        m.contains_key(k) && m[k] >= min_count && !labels.contains(k) ==> labels.len() == limit && (limit == 0
            || ranks_before(r.last(), (k, m[k])))
}

/// A top chart is fully determined by the counts: whatever order the counts were gathered
/// or walked in, the chart comes out the same.
pub proof fn lemma_top_unique(m: Map<Seq<char>, i64>, limit: nat, min_count: i64, a: Seq<Seq<char>>, b: Seq<Seq<char>>)
    requires
        is_top(m, limit, min_count, a),
        is_top(m, limit, min_count, b),
    ensures
        a == b,
{
    let ra = with_counts(m, a);
    let rb = with_counts(m, b);
    assert forall|i: int| 0 <= i < a.len() && 0 <= i < b.len() implies a[i] == b[i] by {
        lemma_top_prefix_agrees(m, limit, min_count, a, b, i);
    }
    lemma_top_no_longer(m, limit, min_count, a, b);
    lemma_top_no_longer(m, limit, min_count, b, a);
    assert(a =~= b);
}

/// The labels of a top chart are distinct.
pub proof fn lemma_top_distinct(m: Map<Seq<char>, i64>, limit: nat, min_count: i64, a: Seq<Seq<char>>, i: int, j: int)
    requires
        is_top(m, limit, min_count, a),
        0 <= i < a.len(),
        0 <= j < a.len(),
        i != j,
    ensures
        a[i] != a[j],
{
    let ra = with_counts(m, a);
    lemma_ranks_before_order(ra[i], ra[j], ra[i]);
    if i < j {
        assert(ranks_before(ra[i], ra[j]));
    } else {
        assert(ranks_before(ra[j], ra[i]));
    }
}

proof fn lemma_top_before(m: Map<Seq<char>, i64>, limit: nat, min_count: i64, a: Seq<Seq<char>>, i: int, k: Seq<char>)
    requires
        is_top(m, limit, min_count, a),
        0 <= i < a.len(),
        m.contains_key(k),
        m[k] >= min_count,
        k != a[i],
        forall|j: int| 0 <= j <= i ==> a[j] != k,
    ensures
        ranks_before(with_counts(m, a)[i], (k, m[k])),
{
    let ra = with_counts(m, a);
    if a.contains(k) {
        let j = choose|j: int| 0 <= j < a.len() && a[j] == k;
        assert(j > i);
        assert(ranks_before(ra[i], ra[j]));
    } else {
        assert(ranks_before(ra.last(), (k, m[k])));
        if i < a.len() - 1 {
            assert(ranks_before(ra[i], ra[a.len() - 1]));
            lemma_ranks_before_order(ra[i], ra.last(), (k, m[k]));
        }
    }
}

proof fn lemma_top_prefix_agrees(m: Map<Seq<char>, i64>, limit: nat, min_count: i64, a: Seq<Seq<char>>, b: Seq<Seq<char>>, i: int)
    requires
        is_top(m, limit, min_count, a),
        is_top(m, limit, min_count, b),
        0 <= i < a.len(),
        0 <= i < b.len(),
    ensures
        a[i] == b[i],
    decreases i,
{
    assert forall|j: int| 0 <= j < i implies a[j] == b[j] by {
        lemma_top_prefix_agrees(m, limit, min_count, a, b, j);
    }
    if a[i] != b[i] {
        assert forall|j: int| 0 <= j <= i implies b[j] != a[i] by {
            if j < i {
                lemma_top_distinct(m, limit, min_count, a, j, i);
            }
        }
        assert forall|j: int| 0 <= j <= i implies a[j] != b[i] by {
            if j < i {
                lemma_top_distinct(m, limit, min_count, b, j, i);
            }
        }
        lemma_top_before(m, limit, min_count, b, i, a[i]);
        lemma_top_before(m, limit, min_count, a, i, b[i]);
        let ra = with_counts(m, a);
        let rb = with_counts(m, b);
        assert(ra[i] == (a[i], m[a[i]]));
        assert(rb[i] == (b[i], m[b[i]]));
        lemma_ranks_before_order(ra[i], rb[i], ra[i]);
    }
}

proof fn lemma_top_no_longer(m: Map<Seq<char>, i64>, limit: nat, min_count: i64, a: Seq<Seq<char>>, b: Seq<Seq<char>>)
    requires
        is_top(m, limit, min_count, a),
        is_top(m, limit, min_count, b),
        forall|i: int| 0 <= i < a.len() && 0 <= i < b.len() ==> a[i] == b[i],
    ensures
        a.len() >= b.len(),
{
    if a.len() < b.len() {
        let x = b[a.len() as int];
        assert(m.contains_key(x) && m[x] >= min_count);
        if a.contains(x) {
            let j = choose|j: int| 0 <= j < a.len() && a[j] == x;
            assert(b[j] == x);
            lemma_top_distinct(m, limit, min_count, b, j, a.len() as int);
        }
    }
}

/// The labels of a chart.
pub open spec fn chart_labels(r: Seq<ChartDatum>) -> Seq<Seq<char>> {
    r.map_values(|d: ChartDatum| d.label@)
}

/// The counts that reach `min_count`, largest first and equal counts in label order, at most
/// `limit` of them.
pub fn top_chart_data_with_min_count(counts: &LabelCounts, limit: usize, min_count: i64) -> (r: Vec<ChartDatum>)
    ensures
        is_top(counts@, limit as nat, min_count, chart_labels(r@)),
        forall|i: int| 0 <= i < r@.len() ==> (#[trigger] r@[i]).value == counts@[r@[i].label@],
{
    proof {
        use_type_invariant(counts);
    }
    let entries = &counts.entries;
    let ghost m = counts@;
    let mut r: Vec<ChartDatum> = Vec::new();
    let mut exhausted = false;
    while r.len() < limit && !exhausted
        invariant
            exhausted ==> forall|k: Seq<char>| m.contains_key(k) && m[k] >= min_count ==> chart_labels(r@).contains(k),
            m == counts_map(entries@),
            distinct_labels(entries@),
            r@.len() <= limit,
            forall|i: int| 0 <= i < r@.len() ==> (#[trigger] r@[i]).value == m[r@[i].label@],
            forall|i: int| 0 <= i < r@.len() ==> m.contains_key(#[trigger] r@[i].label@) && m[r@[i].label@] >= min_count,
            forall|i: int, j: int| 0 <= i < j < r@.len() ==> ranks_before(entry_of(#[trigger] r@[i]), entry_of(#[trigger] r@[j])),
            forall|k: Seq<char>|
                m.contains_key(k) && m[k] >= min_count && !chart_labels(r@).contains(k) ==> r@.len() == 0 || ranks_before(
                    entry_of(r@.last()),
                    (k, m[k]),
                ),
        decreases limit - r@.len(), if exhausted { 0int } else { 1int },
    {
        let mut best: Option<usize> = None;
        let mut j: usize = 0;
        while j < entries.len()
            invariant
                j <= entries@.len(),
                distinct_labels(entries@),
                match best {
                    Some(b) => b < j && entries@[b as int].value >= min_count && (r@.len() == 0 || ranks_before(
                        entry_of(r@.last()),
                        entry_of(entries@[b as int]),
                    )) && forall|c: int|
                        0 <= c < j && c != b && entries@[c].value >= min_count && (r@.len() == 0 || ranks_before(
                            entry_of(r@.last()),
                            entry_of(#[trigger] entries@[c]),
                        )) ==> ranks_before(entry_of(entries@[b as int]), entry_of(entries@[c])),
                    None => forall|c: int|
                        0 <= c < j && entries@[c].value >= min_count ==> !(r@.len() == 0 || ranks_before(
                            entry_of(r@.last()),
                            entry_of(#[trigger] entries@[c]),
                        )),
                },
            decreases entries.len() - j,
        {
            let e = &entries[j];
            let candidate = e.value >= min_count && (r.len() == 0 || ranks_before_exec(&r[r.len() - 1], e));
            if candidate {
                match best {
                    None => {
                        best = Some(j);
                    },
                    Some(b) => {
                        proof {
                            lemma_ranks_before_order(entry_of(entries@[b as int]), entry_of(*e), entry_of(*e));
                            assert(entries@[b as int].label@ != e.label@);
                        }
                        if ranks_before_exec(e, &entries[b]) {
                            proof {
                                assert forall|c: int|
                                    0 <= c < j + 1 && c != j && entries@[c].value >= min_count && (r@.len() == 0
                                        || ranks_before(entry_of(r@.last()), entry_of(#[trigger] entries@[c]))) implies ranks_before(
                                    entry_of(entries@[j as int]),
                                    entry_of(entries@[c]),
                                ) by {
                                    if c != b {
                                        lemma_ranks_before_order(
                                            entry_of(entries@[j as int]),
                                            entry_of(entries@[b as int]),
                                            entry_of(entries@[c]),
                                        );
                                    }
                                }
                            }
                            best = Some(j);
                        }
                    },
                }
            }
            j += 1;
        }
        match best {
            None => {
                proof {
                    assert forall|k: Seq<char>| m.contains_key(k) && m[k] >= min_count implies chart_labels(r@).contains(k) by {
                        if !chart_labels(r@).contains(k) {
                            lemma_counts_map_key(entries@, k);
                            let c = choose|c: int| 0 <= c < entries@.len() && (#[trigger] entries@[c]).label@ == k;
                            lemma_counts_map_entry(entries@, c);
                        }
                    }
                }
                exhausted = true;
            },
            Some(b) => {
                let d = ChartDatum { label: entries[b].label.clone(), value: entries[b].value };
                let ghost old_r = r@;
                proof {
                    lemma_counts_map_entry(entries@, b as int);
                }
                r.push(d);
                proof {
                    assert(chart_labels(r@) == chart_labels(old_r).push(d.label@));
                    assert forall|i: int, j2: int| 0 <= i < j2 < r@.len() implies ranks_before(
                        entry_of(#[trigger] r@[i]),
                        entry_of(#[trigger] r@[j2]),
                    ) by {
                        if j2 == r@.len() - 1 && i < old_r.len() - 1 {
                            lemma_ranks_before_order(entry_of(old_r[i]), entry_of(old_r.last()), entry_of(d));
                        }
                    }
                    assert forall|k: Seq<char>|
                        m.contains_key(k) && m[k] >= min_count && !chart_labels(r@).contains(k) implies ranks_before(
                        entry_of(r@.last()),
                        (k, m[k]),
                    ) by {
                        if chart_labels(old_r).contains(k) {
                            let idx = choose|idx: int| 0 <= idx < chart_labels(old_r).len() && chart_labels(old_r)[idx] == k;
                            assert(chart_labels(r@)[idx] == k);
                        }
                        assert(chart_labels(r@)[r@.len() - 1] == d.label@);
                        lemma_counts_map_key(entries@, k);
                        let c = choose|c: int| 0 <= c < entries@.len() && (#[trigger] entries@[c]).label@ == k;
                        lemma_counts_map_entry(entries@, c);
                        assert(c != b);
                    }
                }
            },
        }
    }
    proof {
        let labels = chart_labels(r@);
        let w = with_counts(m, labels);
        assert forall|i: int| 0 <= i < r@.len() implies #[trigger] w[i] == entry_of(r@[i]) by {}
        assert forall|i: int, j2: int| 0 <= i < j2 < labels.len() implies ranks_before(#[trigger] w[i], #[trigger] w[j2]) by {
            assert(w[i] == entry_of(r@[i]));
            assert(w[j2] == entry_of(r@[j2]));
        }
        assert forall|k: Seq<char>| m.contains_key(k) && m[k] >= min_count && !labels.contains(k) implies labels.len()
            == limit && (limit == 0 || ranks_before(w.last(), (k, m[k]))) by {
            if r@.len() > 0 {
                assert(w.last() == entry_of(r@.last()));
            }
        }
    }
    r
}

/// The counts of at least 1, largest first and equal counts in label order, at most `limit`
/// of them.
pub fn top_chart_data(counts: &LabelCounts, limit: usize) -> (r: Vec<ChartDatum>)
    ensures
        is_top(counts@, limit as nat, 1, chart_labels(r@)),
        forall|i: int| 0 <= i < r@.len() ==> (#[trigger] r@[i]).value == counts@[r@[i].label@],
{
    top_chart_data_with_min_count(counts, limit, 1)
}

/// The labels with the largest counts, equal counts in label order, at most `limit` of them.
pub fn top_labels(counts: &LabelCounts, limit: usize) -> (r: Vec<String>)
    ensures
        is_top(counts@, limit as nat, i64::MIN, r@.map_values(|s: String| s@)),
{
    let chart = top_chart_data_with_min_count(counts, limit, i64::MIN);
    let mut r: Vec<String> = Vec::new();
    let mut i: usize = 0;
    while i < chart.len()
        invariant
            i <= chart@.len(),
            r@.map_values(|s: String| s@) == chart_labels(chart@).take(i as int),
        decreases chart.len() - i,
    {
        r.push(chart[i].label.clone());
        assert(chart_labels(chart@).take(i as int + 1) == chart_labels(chart@).take(i as int).push(chart@[i as int].label@));
        assert(r@.map_values(|s: String| s@) == chart_labels(chart@).take(i as int + 1));
        i += 1;
    }
    assert(chart_labels(chart@).take(chart@.len() as int) == chart_labels(chart@));
    r
}

} // verus!
