//! Counts per category within time buckets, and the series the charts draw of them.
//!
//! A timeline keeps its buckets in ascending label order, so that a series lists the buckets
//! from the earliest to the latest.
use crate::counts::{lemma_text_lt_irreflexive, lemma_text_lt_total, lemma_text_lt_transitive, text_less, text_lt, LabelCounts};
use crate::models::BreakdownDatum;
use vstd::prelude::*;

verus! {

/// The map that a list of pairs stands for, later pairs winning.
pub open spec fn pairs_map<K, V>(s: Seq<(K, V)>) -> Map<K, V>
    decreases s.len(),
{
    if s.len() == 0 {
        Map::empty()
    } else {
        pairs_map(s.drop_last()).insert(s.last().0, s.last().1)
    }
}

/// Whether the keys of a list of pairs are in strictly ascending order.
pub open spec fn ascending<V>(s: Seq<(Seq<char>, V)>) -> bool {
    forall|i: int, j: int| 0 <= i < j < s.len() ==> text_lt((#[trigger] s[i]).0, (#[trigger] s[j]).0)
}

proof fn lemma_ascending_distinct<V>(s: Seq<(Seq<char>, V)>, i: int, j: int)
    requires
        ascending(s),
        0 <= i < s.len(),
        0 <= j < s.len(),
        i != j,
    ensures
        s[i].0 != s[j].0,
{
    lemma_text_lt_irreflexive(s[i].0);
    if i < j {
        assert(text_lt(s[i].0, s[j].0));
    } else {
        assert(text_lt(s[j].0, s[i].0));
    }
}

proof fn lemma_pairs_map_entry<V>(s: Seq<(Seq<char>, V)>, i: int)
    requires
        ascending(s),
        0 <= i < s.len(),
    ensures
        pairs_map(s).contains_key(s[i].0),
        pairs_map(s)[s[i].0] == s[i].1,
    decreases s.len(),
{
    if i < s.len() - 1 {
        assert(s.drop_last()[i] == s[i]);
        lemma_pairs_map_entry(s.drop_last(), i);
        lemma_ascending_distinct(s, i, s.len() - 1);
    }
}

proof fn lemma_pairs_map_key<V>(s: Seq<(Seq<char>, V)>, k: Seq<char>)
    requires
        pairs_map(s).contains_key(k),
    ensures
        exists|i: int| 0 <= i < s.len() && (#[trigger] s[i]).0 == k,
    decreases s.len(),
{
    if s.len() > 0 && s.last().0 != k {
        lemma_pairs_map_key(s.drop_last(), k);
        let i = choose|i: int| 0 <= i < s.drop_last().len() && (#[trigger] s.drop_last()[i]).0 == k;
        assert(s[i] == s.drop_last()[i]);
    } else if s.len() > 0 {
        assert(s[s.len() - 1].0 == k);
    }
}

proof fn lemma_pairs_map_update<V>(s: Seq<(Seq<char>, V)>, i: int, v: V)
    requires
        ascending(s),
        0 <= i < s.len(),
    ensures
        pairs_map(s.update(i, (s[i].0, v))) == pairs_map(s).insert(s[i].0, v),
    decreases s.len(),
{
    let t = s.update(i, (s[i].0, v));
    if i == s.len() - 1 {
        assert(t.drop_last() == s.drop_last());
    } else {
        assert(t.drop_last() == s.drop_last().update(i, (s[i].0, v)));
        lemma_pairs_map_update(s.drop_last(), i, v);
        lemma_ascending_distinct(s, i, s.len() - 1);
        assert(pairs_map(t) =~= pairs_map(s).insert(s[i].0, v));
    }
}

proof fn lemma_pairs_map_insert<V>(s: Seq<(Seq<char>, V)>, i: int, x: (Seq<char>, V))
    requires
        ascending(s),
        0 <= i <= s.len(),
        !pairs_map(s).contains_key(x.0),
    ensures
        pairs_map(s.insert(i, x)) == pairs_map(s).insert(x.0, x.1),
    decreases s.len(),
{
    let t = s.insert(i, x);
    if i == s.len() {
        assert(t.drop_last() == s);
    } else {
        assert(t.drop_last() == s.drop_last().insert(i, x));
        assert(ascending(s.drop_last()));
        if pairs_map(s.drop_last()).contains_key(x.0) {
            lemma_pairs_map_key(s.drop_last(), x.0);
            let j = choose|j: int| 0 <= j < s.drop_last().len() && (#[trigger] s.drop_last()[j]).0 == x.0;
            lemma_pairs_map_entry(s, j);
            assert(s[j] == s.drop_last()[j]);
        }
        lemma_pairs_map_insert(s.drop_last(), i, x);
        lemma_pairs_map_entry(s, s.len() - 1);
        assert(s.last().0 != x.0);
        assert(t.last() == s.last());
        assert(pairs_map(t) =~= pairs_map(s).insert(x.0, x.1));
    }
}

struct TimelineBucket {
    bucket: String,
    counts: LabelCounts,
}

/// Counts per category for each time bucket, as the analytics keep them in a
/// `BTreeMap<String, HashMap<String, i64>>`: the buckets in ascending order, none twice.
pub struct Timeline {
    buckets: Vec<TimelineBucket>,
}

/// The count of `category` in a bucket's counts: 0 when it was never counted.
pub open spec fn count_in(counts: Map<Seq<char>, i64>, category: Seq<char>) -> i64 {
    if counts.contains_key(category) {
        counts[category]
    } else {
        0
    }
}

/// The counts of `bucket` in a timeline: none when the bucket was never counted in.
pub open spec fn bucket_counts(m: Map<Seq<char>, Map<Seq<char>, i64>>, bucket: Seq<char>) -> Map<Seq<char>, i64> {
    if m.contains_key(bucket) {
        m[bucket]
    } else {
        Map::empty()
    }
}

impl Timeline {
    #[verifier::type_invariant]
    spec fn buckets_ascending(self) -> bool {
        ascending(self.buckets@.map_values(|b: TimelineBucket| (b.bucket@, b.counts@)))
    }

    /// The buckets in ascending order, each with its counts.
    pub closed spec fn view(&self) -> Seq<(Seq<char>, Map<Seq<char>, i64>)> {
        self.buckets@.map_values(|b: TimelineBucket| (b.bucket@, b.counts@))
    }

    /// The counts of each bucket.
    pub open spec fn as_map(&self) -> Map<Seq<char>, Map<Seq<char>, i64>> {
        pairs_map(self@)
    }

    /// A timeline with no buckets.
    pub fn new() -> (r: Self)
        ensures
            r@ == Seq::<(Seq<char>, Map<Seq<char>, i64>)>::empty(),
    {
        Timeline { buckets: Vec::new() }
    }

    /// Where `bucket` is, or where it would go: the number of buckets that sort before it, and
    /// whether the bucket at that place is `bucket` itself.
    fn locate(&self, bucket: &str) -> (r: (usize, bool))
        ensures
            r.0 <= self@.len(),
            forall|j: int| 0 <= j < r.0 ==> text_lt((#[trigger] self@[j]).0, bucket@),
            r.1 <==> (r.0 < self@.len() && self@[r.0 as int].0 == bucket@),
            !r.1 ==> forall|j: int| r.0 <= j < self@.len() ==> text_lt(bucket@, (#[trigger] self@[j]).0),
            !r.1 ==> !self.as_map().contains_key(bucket@),
    {
        proof {
            use_type_invariant(self);
        }
        let mut i: usize = 0;
        while i < self.buckets.len() && text_less(self.buckets[i].bucket.as_str(), bucket)
            invariant
                i <= self@.len(),
                self@.len() == self.buckets@.len(),
                ascending(self@),
                forall|j: int| 0 <= j < i ==> text_lt((#[trigger] self@[j]).0, bucket@),
            decreases self.buckets.len() - i,
        {
            assert(self@[i as int].0 == self.buckets@[i as int].bucket@);
            i += 1;
        }
        if i < self.buckets.len() {
            assert(self@[i as int].0 == self.buckets@[i as int].bucket@);
        }
        let found = i < self.buckets.len() && crate::chars::str_eq(self.buckets[i].bucket.as_str(), bucket);
        proof {
            if !found {
                if i < self@.len() {
                    lemma_text_lt_total(self@[i as int].0, bucket@);
                    assert forall|j: int| i <= j < self@.len() implies text_lt(bucket@, (#[trigger] self@[j]).0) by {
                        if j > i {
                            assert(text_lt(self@[i as int].0, self@[j].0));
                            lemma_text_lt_transitive(bucket@, self@[i as int].0, self@[j].0);
                        }
                    }
                }
                if self.as_map().contains_key(bucket@) {
                    lemma_pairs_map_key(self@, bucket@);
                    let j = choose|j: int| 0 <= j < self@.len() && (#[trigger] self@[j]).0 == bucket@;
                    lemma_text_lt_irreflexive(bucket@);
                }
            }
        }
        (i, found)
    }

    /// The count of `category` in `bucket`: 0 when it was never counted.
    pub fn count(&self, bucket: &str, category: &str) -> (r: i64)
        ensures
            r == count_in(bucket_counts(self.as_map(), bucket@), category@),
    {
        proof {
            use_type_invariant(self);
        }
        let (i, found) = self.locate(bucket);
        if found {
            proof {
                lemma_pairs_map_entry(self@, i as int);
            }
            self.buckets[i].counts.get(category)
        } else {
            0
        }
    }
}

/// Adds `amount` to the count of `category` in `bucket`, making the bucket where there was
/// none; the buckets stay in ascending order.
pub fn increment_breakdown(timeline: &mut Timeline, bucket: String, category: &str, amount: i64)
    requires
        i64::MIN <= count_in(bucket_counts(old(timeline).as_map(), bucket@), category@) + amount <= i64::MAX,
    ensures
        ascending(final(timeline)@),
        final(timeline).as_map() == old(timeline).as_map().insert(
            bucket@,
            bucket_counts(old(timeline).as_map(), bucket@).insert(
                category@,
                (count_in(bucket_counts(old(timeline).as_map(), bucket@), category@) + amount) as i64,
            ),
        ),
{
    proof {
        use_type_invariant(&*timeline);
    }
    let ghost old_view = timeline@;
    let (i, found) = timeline.locate(bucket.as_str());
    let mut buckets: Vec<TimelineBucket> = Vec::new();
    std::mem::swap(&mut buckets, &mut timeline.buckets);
    assert(buckets@.map_values(|b: TimelineBucket| (b.bucket@, b.counts@)) == old_view);
    if found {
        proof {
            lemma_pairs_map_entry(old_view, i as int);
        }
        let mut entry = buckets.remove(i);
        entry.counts.increment(category, amount);
        let ghost new_pair = (entry.bucket@, entry.counts@);
        buckets.insert(i, entry);
        proof {
            let v = buckets@.map_values(|b: TimelineBucket| (b.bucket@, b.counts@));
            assert(v =~= old_view.update(i as int, (old_view[i as int].0, new_pair.1)));
            lemma_pairs_map_update(old_view, i as int, new_pair.1);
        }
        timeline.buckets = buckets;
    } else {
        let mut counts = LabelCounts::new();
        counts.increment(category, amount);
        let entry = TimelineBucket { bucket, counts };
        let ghost new_pair = (entry.bucket@, entry.counts@);
        buckets.insert(i, entry);
        proof {
            let v = buckets@.map_values(|b: TimelineBucket| (b.bucket@, b.counts@));
            assert(v =~= old_view.insert(i as int, new_pair));
            lemma_pairs_map_insert(old_view, i as int, new_pair);
            assert forall|a: int, b: int| 0 <= a < b < v.len() implies text_lt((#[trigger] v[a]).0, (#[trigger] v[b]).0) by {
                if b == i {
                    assert(v[a] == old_view[a]);
                } else if a == i {
                    assert(v[b] == old_view[b - 1]);
                } else if a < i && b > i {
                    assert(v[a] == old_view[a]);
                    assert(v[b] == old_view[b - 1]);
                } else if b < i {
                    assert(v[a] == old_view[a]);
                    assert(v[b] == old_view[b]);
                } else {
                    assert(v[a] == old_view[a - 1]);
                    assert(v[b] == old_view[b - 1]);
                }
            }
        }
        timeline.buckets = buckets;
    }
    proof {
        use_type_invariant(&*timeline);
    }
}

/// The rows of a series: for each bucket in order, one row per category with its count.
pub open spec fn series_rows(
    v: Seq<(Seq<char>, Map<Seq<char>, i64>)>,
    categories: Seq<Seq<char>>,
) -> Seq<(Seq<char>, Seq<char>, i64)>
    decreases v.len(),
{
    if v.len() == 0 {
        Seq::empty()
    } else {
        series_rows(v.drop_last(), categories) + bucket_rows(v.last().0, v.last().1, categories)
    }
}

/// The rows of one bucket: one per category, with its count there.
pub open spec fn bucket_rows(
    bucket: Seq<char>,
    counts: Map<Seq<char>, i64>,
    categories: Seq<Seq<char>>,
) -> Seq<(Seq<char>, Seq<char>, i64)> {
    categories.map_values(|c: Seq<char>| (bucket, c, count_in(counts, c)))
}

/// A row of a series, as a triple.
pub open spec fn row_of(d: BreakdownDatum) -> (Seq<char>, Seq<char>, i64) {
    (d.bucket@, d.category@, d.value)
}

fn push_bucket_rows(
    rows: &mut Vec<BreakdownDatum>,
    bucket: &String,
    counts: &LabelCounts,
    categories: &[String],
)
    ensures
        final(rows)@.map_values(|d: BreakdownDatum| row_of(d)) == old(rows)@.map_values(
            |d: BreakdownDatum| row_of(d),
        ) + bucket_rows(bucket@, counts@, categories@.map_values(|s: String| s@)),
{
    let ghost start = old(rows)@.map_values(|d: BreakdownDatum| row_of(d));
    let ghost cats = categories@.map_values(|s: String| s@);
    let mut j: usize = 0;
    while j < categories.len()
        invariant
            j <= categories@.len(),
            cats == categories@.map_values(|s: String| s@),
            rows@.map_values(|d: BreakdownDatum| row_of(d)) == start + bucket_rows(bucket@, counts@, cats.take(j as int)),
        decreases categories.len() - j,
    {
        let value = counts.get(categories[j].as_str());
        let d = BreakdownDatum { bucket: bucket.clone(), category: categories[j].clone(), value };
        let ghost before = rows@;
        rows.push(d);
        proof {
            assert(cats.take(j as int + 1) == cats.take(j as int).push(cats[j as int]));
            assert(bucket_rows(bucket@, counts@, cats.take(j as int + 1)) == bucket_rows(
                bucket@,
                counts@,
                cats.take(j as int),
            ).push(row_of(d)));
            assert(rows@.map_values(|d: BreakdownDatum| row_of(d)) == before.map_values(|d: BreakdownDatum| row_of(d)).push(
                row_of(d),
            ));
        }
        j += 1;
    }
    assert(cats.take(categories@.len() as int) == cats);
}

/// The series of a timeline: for each bucket in ascending order, one row per category, in the
/// order given, with its count in that bucket (0 when it was never counted).
pub fn build_breakdown_series(timeline: &Timeline, categories: &[String]) -> (r: Vec<BreakdownDatum>)
    ensures
        r@.map_values(|d: BreakdownDatum| row_of(d)) == series_rows(timeline@, categories@.map_values(|s: String| s@)),
{
    let ghost cats = categories@.map_values(|s: String| s@);
    let mut rows: Vec<BreakdownDatum> = Vec::new();
    let mut i: usize = 0;
    while i < timeline.buckets.len()
        invariant
            i <= timeline@.len(),
            timeline@.len() == timeline.buckets@.len(),
            cats == categories@.map_values(|s: String| s@),
            rows@.map_values(|d: BreakdownDatum| row_of(d)) == series_rows(timeline@.take(i as int), cats),
        decreases timeline.buckets.len() - i,
    {
        let b = &timeline.buckets[i];
        push_bucket_rows(&mut rows, &b.bucket, &b.counts, categories);
        proof {
            assert(timeline@.take(i as int + 1).drop_last() == timeline@.take(i as int));
            assert(timeline@.take(i as int + 1).last() == (b.bucket@, b.counts@));
        }
        i += 1;
    }
    assert(timeline@.take(timeline@.len() as int) == timeline@);
    rows
}

/// The rows of a series over given buckets.
pub open spec fn dense_rows(
    m: Map<Seq<char>, Map<Seq<char>, i64>>,
    buckets: Seq<Seq<char>>,
    categories: Seq<Seq<char>>,
) -> Seq<(Seq<char>, Seq<char>, i64)>
    decreases buckets.len(),
{
    if buckets.len() == 0 {
        Seq::empty()
    } else {
        dense_rows(m, buckets.drop_last(), categories) + bucket_rows(
            buckets.last(),
            bucket_counts(m, buckets.last()),
            categories,
        )
    }
}

/// The series of a timeline over the given buckets, in the order given, whether or not
/// anything was counted in them: one row per category with its count (0 when none).
pub fn build_dense_breakdown_series(timeline: &Timeline, categories: &[String], buckets: &[String]) -> (r: Vec<
    BreakdownDatum,
>)
    ensures
        r@.map_values(|d: BreakdownDatum| row_of(d)) == dense_rows(
            timeline.as_map(),
            buckets@.map_values(|s: String| s@),
            categories@.map_values(|s: String| s@),
        ),
{
    let ghost cats = categories@.map_values(|s: String| s@);
    let ghost bs = buckets@.map_values(|s: String| s@);
    let mut rows: Vec<BreakdownDatum> = Vec::new();
    let mut i: usize = 0;
    while i < buckets.len()
        invariant
            i <= buckets@.len(),
            cats == categories@.map_values(|s: String| s@),
            bs == buckets@.map_values(|s: String| s@),
            rows@.map_values(|d: BreakdownDatum| row_of(d)) == dense_rows(timeline.as_map(), bs.take(i as int), cats),
        decreases buckets.len() - i,
    {
        let ghost start = rows@.map_values(|d: BreakdownDatum| row_of(d));
        let mut j: usize = 0;
        while j < categories.len()
            invariant
                j <= categories@.len(),
                i < buckets@.len(),
                cats == categories@.map_values(|s: String| s@),
                rows@.map_values(|d: BreakdownDatum| row_of(d)) == start + bucket_rows(
                    buckets@[i as int]@,
                    bucket_counts(timeline.as_map(), buckets@[i as int]@),
                    cats.take(j as int),
                ),
            decreases categories.len() - j,
        {
            let value = timeline.count(buckets[i].as_str(), categories[j].as_str());
            let d = BreakdownDatum { bucket: buckets[i].clone(), category: categories[j].clone(), value };
            let ghost before = rows@;
            rows.push(d);
            proof {
                assert(cats.take(j as int + 1) == cats.take(j as int).push(cats[j as int]));
                assert(rows@.map_values(|d: BreakdownDatum| row_of(d)) == before.map_values(
                    |d: BreakdownDatum| row_of(d),
                ).push(row_of(d)));
            }
            j += 1;
        }
        proof {
            assert(cats.take(categories@.len() as int) == cats);
            assert(bs.take(i as int + 1).drop_last() == bs.take(i as int));
            assert(bs.take(i as int + 1).last() == buckets@[i as int]@);
        }
        i += 1;
    }
    assert(bs.take(buckets@.len() as int) == bs);
    rows
}

} // verus!
