//! Stable ordering of records by a ranking key: the order `sort_by` gives, where records whose
//! keys tie keep the order they were given in.
use crate::counts::{lemma_text_lt_irreflexive, lemma_text_lt_total, lemma_text_lt_transitive, text_less, text_lt};
use vstd::prelude::*;

verus! {

/// A record with a ranking key: `ranks_first` is a strict weak order on the keys.
pub trait RankKey: Sized {
    /// Whether this record's key comes strictly before the other's.
    spec fn ranks_first(&self, other: &Self) -> bool;

    /// Whether this record's key comes strictly before the other's.
    fn ranks_first_exec(&self, other: &Self) -> (r: bool)
        ensures
            r == self.ranks_first(other),
    ;

    /// The key order is irreflexive and transitive, and keys that neither comes before the
    /// other tie with the same keys.
    proof fn lemma_weak_order(a: &Self, b: &Self, c: &Self)
        ensures
            !a.ranks_first(a),
            a.ranks_first(b) && b.ranks_first(c) ==> a.ranks_first(c),
            !a.ranks_first(b) && !b.ranks_first(a) && a.ranks_first(c) ==> b.ranks_first(c),
            !a.ranks_first(b) && !b.ranks_first(a) && c.ranks_first(a) ==> c.ranks_first(b),
    ;
}

/// A key of two counts and an id: the larger first count first, then the larger second count,
/// then the id that sorts first.
pub struct Standing {
    pub primary: i64,
    pub secondary: i64,
    pub id: String,
}

/// Whether one standing comes strictly before another.
pub open spec fn standing_first(a: Standing, b: Standing) -> bool {
    a.primary > b.primary || (a.primary == b.primary && (a.secondary > b.secondary || (
    a.secondary == b.secondary && text_lt(a.id@, b.id@))))
}

impl RankKey for Standing {
    open spec fn ranks_first(&self, other: &Self) -> bool {
        standing_first(*self, *other)
    }

    fn ranks_first_exec(&self, other: &Self) -> (r: bool) {
        if self.primary != other.primary {
            self.primary > other.primary
        } else if self.secondary != other.secondary {
            self.secondary > other.secondary
        } else {
            text_less(self.id.as_str(), other.id.as_str())
        }
    }

    proof fn lemma_weak_order(a: &Self, b: &Self, c: &Self) {
        lemma_text_lt_irreflexive(a.id@);
        lemma_text_lt_total(a.id@, b.id@);
        lemma_text_lt_total(b.id@, c.id@);
        lemma_text_lt_total(a.id@, c.id@);
        if text_lt(a.id@, b.id@) && text_lt(b.id@, c.id@) {
            lemma_text_lt_transitive(a.id@, b.id@, c.id@);
        }
    }
}

/// A key of an optional instant: later instants first (as their texts sort), and records
/// without one last.
pub struct Recency {
    pub stamp: Option<String>,
}

/// Whether one recency comes strictly before another.
pub open spec fn recency_first(a: Recency, b: Recency) -> bool {
    match (a.stamp, b.stamp) {
        (Some(x), Some(y)) => text_lt(y@, x@),
        (Some(_), None) => true,
        _ => false,
    }
}

impl RankKey for Recency {
    open spec fn ranks_first(&self, other: &Self) -> bool {
        recency_first(*self, *other)
    }

    fn ranks_first_exec(&self, other: &Self) -> (r: bool) {
        match (&self.stamp, &other.stamp) {
            (Some(x), Some(y)) => text_less(y.as_str(), x.as_str()),
            (Some(_), None) => true,
            _ => false,
        }
    }

    proof fn lemma_weak_order(a: &Self, b: &Self, c: &Self) {
        if let (Some(x), Some(y), Some(z)) = (a.stamp, b.stamp, c.stamp) {
            lemma_text_lt_irreflexive(x@);
            lemma_text_lt_total(x@, y@);
            lemma_text_lt_total(y@, z@);
            lemma_text_lt_total(x@, z@);
            if text_lt(z@, y@) && text_lt(y@, x@) {
                lemma_text_lt_transitive(z@, y@, x@);
            }
        } else if let Some(x) = a.stamp {
            lemma_text_lt_irreflexive(x@);
        }
    }
}

/// A key of an instant: earlier instants first.
pub struct Moment {
    pub at: i128,
}

impl RankKey for Moment {
    open spec fn ranks_first(&self, other: &Self) -> bool {
        self.at < other.at
    }

    fn ranks_first_exec(&self, other: &Self) -> (r: bool) {
        self.at < other.at
    }

    proof fn lemma_weak_order(a: &Self, b: &Self, c: &Self) {
    }
}

/// Whether the record at `a` comes before the one at `b`: its key first, or the keys tie and it
/// was given first.
pub open spec fn placed_before<T: RankKey>(items: Seq<T>, a: int, b: int) -> bool {
    items[a].ranks_first(&items[b]) || (!items[b].ranks_first(&items[a]) && a < b)
}

/// Whether `r` lists exactly the positions of `items` that `keep` holds for, each once, in
/// ranking order.
pub open spec fn is_ranking<T: RankKey>(items: Seq<T>, keep: Seq<bool>, r: Seq<int>) -> bool {
    &&& forall|j: int| 0 <= j < r.len() ==> 0 <= #[trigger] r[j] < items.len() && keep[r[j]]
    &&& forall|j: int, k: int| 0 <= j < k < r.len() ==> placed_before(items, #[trigger] r[j], #[trigger] r[k])
    &&& forall|i: int| 0 <= i < items.len() && keep[i] ==> #[trigger] r.contains(i)
}

proof fn lemma_placed_transitive<T: RankKey>(items: Seq<T>, a: int, b: int, c: int)
    requires
        placed_before(items, a, b),
        placed_before(items, b, c),
    ensures
        placed_before(items, a, c),
{
    T::lemma_weak_order(&items[a], &items[b], &items[c]);
    T::lemma_weak_order(&items[b], &items[a], &items[c]);
    T::lemma_weak_order(&items[b], &items[c], &items[a]);
    T::lemma_weak_order(&items[c], &items[b], &items[a]);
    T::lemma_weak_order(&items[a], &items[c], &items[b]);
    T::lemma_weak_order(&items[c], &items[a], &items[b]);
}

proof fn lemma_placed_asymmetric<T: RankKey>(items: Seq<T>, a: int, b: int)
    requires
        placed_before(items, a, b),
    ensures
        !placed_before(items, b, a),
{
    T::lemma_weak_order(&items[a], &items[b], &items[a]);
    T::lemma_weak_order(&items[b], &items[a], &items[b]);
}

/// The positions of the records that `keep` holds for, in ranking order.
pub fn rank_positions<T: RankKey>(items: &[T], keep: &Vec<bool>) -> (r: Vec<usize>)
    requires
        keep@.len() == items@.len(),
    ensures
        is_ranking(items@, keep@, r@.map_values(|i: usize| i as int)),
        r@.len() <= items@.len(),
{
    let mut order: Vec<usize> = Vec::new();
    let mut i: usize = 0;
    while i < items.len()
        invariant
            i <= items@.len(),
            keep@.len() == items@.len(),
            order@.len() <= i,
            forall|j: int| 0 <= j < order@.len() ==> (#[trigger] order@[j]) < i && keep@[order@[j] as int],
            forall|j: int, k: int|
                0 <= j < k < order@.len() ==> placed_before(items@, #[trigger] order@[j] as int, #[trigger] order@[k] as int),
            forall|m: int|
                0 <= m < i && keep@[m] ==> exists|j: int| 0 <= j < order@.len() && #[trigger] order@[j] as int == m,
        decreases items.len() - i,
    {
        if keep[i] {
            let mut p = order.len();
            while p > 0 && items[i].ranks_first_exec(&items[order[p - 1]])
                invariant
                    p <= order@.len(),
                    i < items@.len(),
                    forall|j: int| 0 <= j < order@.len() ==> (#[trigger] order@[j]) < i,
                    forall|j: int| p <= j < order@.len() ==> items@[i as int].ranks_first(&items@[#[trigger] order@[j] as int]),
                decreases p,
            {
                p -= 1;
            }
            let ghost before = order@;
            order.insert(p, i);
            proof {
                assert forall|j: int, k: int| 0 <= j < k < order@.len() implies placed_before(
                    items@,
                    #[trigger] order@[j] as int,
                    #[trigger] order@[k] as int,
                ) by {
                    if j < p && k == p {
                        assert(order@[j] == before[j]);
                        let e = before[p - 1] as int;
                        assert(!items@[i as int].ranks_first(&items@[e]));
                        assert(e < i);
                        assert(placed_before(items@, e, i as int));
                        if j < p - 1 {
                            lemma_placed_transitive(items@, before[j] as int, e, i as int);
                        }
                    } else if j == p && k > p {
                        assert(order@[k] == before[k - 1]);
                    } else if j < p && k > p {
                        assert(order@[j] == before[j]);
                        assert(order@[k] == before[k - 1]);
                    } else if k < p {
                        assert(order@[j] == before[j]);
                        assert(order@[k] == before[k]);
                    } else {
                        assert(order@[j] == before[j - 1]);
                        assert(order@[k] == before[k - 1]);
                    }
                }
                assert forall|m: int| 0 <= m < i + 1 && keep@[m] implies exists|j: int|
                    0 <= j < order@.len() && #[trigger] order@[j] as int == m by {
                    if m == i {
                        assert(order@[p as int] as int == m);
                    } else {
                        let j = choose|j: int| 0 <= j < before.len() && #[trigger] before[j] as int == m;
                        if j < p {
                            assert(order@[j] == before[j]);
                        } else {
                            assert(order@[j + 1] == before[j]);
                        }
                    }
                }
            }
        }
        i += 1;
    }
    proof {
        let r = order@.map_values(|i: usize| i as int);
        assert forall|m: int| 0 <= m < items@.len() && keep@[m] implies #[trigger] r.contains(m) by {
            let j = choose|j: int| 0 <= j < order@.len() && #[trigger] order@[j] as int == m;
            assert(r[j] == m);
        }
    }
    order
}

proof fn lemma_ranking_distinct<T: RankKey>(items: Seq<T>, keep: Seq<bool>, r: Seq<int>, j: int, k: int)
    requires
        is_ranking(items, keep, r),
        0 <= j < k < r.len(),
    ensures
        r[j] != r[k],
{
    assert(placed_before(items, r[j], r[k]));
    T::lemma_weak_order(&items[r[j]], &items[r[j]], &items[r[j]]);
}

proof fn lemma_ranking_agrees<T: RankKey>(items: Seq<T>, keep: Seq<bool>, a: Seq<int>, b: Seq<int>, j: int)
    requires
        is_ranking(items, keep, a),
        is_ranking(items, keep, b),
        0 <= j < a.len(),
        0 <= j < b.len(),
    ensures
        a[j] == b[j],
    decreases j,
{
    assert forall|i: int| 0 <= i < j implies a[i] == b[i] by {
        lemma_ranking_agrees(items, keep, a, b, i);
    }
    if a[j] != b[j] {
        assert(a.contains(b[j]));
        let k = choose|k: int| 0 <= k < a.len() && a[k] == b[j];
        if k < j {
            lemma_ranking_distinct(items, keep, b, k, j);
        }
        assert(b.contains(a[j]));
        let m = choose|m: int| 0 <= m < b.len() && b[m] == a[j];
        if m < j {
            lemma_ranking_distinct(items, keep, a, m, j);
        }
        assert(placed_before(items, a[j], a[k]));
        assert(placed_before(items, b[j], b[m]));
        lemma_placed_asymmetric(items, a[j], b[j]);
    }
}

proof fn lemma_ranking_no_longer<T: RankKey>(items: Seq<T>, keep: Seq<bool>, a: Seq<int>, b: Seq<int>)
    requires
        is_ranking(items, keep, a),
        is_ranking(items, keep, b),
    ensures
        a.len() >= b.len(),
{
    if a.len() < b.len() {
        let x = b[a.len() as int];
        assert(a.contains(x));
        let k = choose|k: int| 0 <= k < a.len() && a[k] == x;
        lemma_ranking_agrees(items, keep, a, b, k);
        lemma_ranking_distinct(items, keep, b, k, a.len() as int);
    }
}

/// A ranking is fully determined by the records and which of them are kept: records whose keys
/// tie come in the order given, so no two orders qualify.
pub proof fn lemma_ranking_unique<T: RankKey>(items: Seq<T>, keep: Seq<bool>, a: Seq<int>, b: Seq<int>)
    requires
        is_ranking(items, keep, a),
        is_ranking(items, keep, b),
    ensures
        a == b,
{
    lemma_ranking_no_longer(items, keep, a, b);
    lemma_ranking_no_longer(items, keep, b, a);
    assert forall|j: int| 0 <= j < a.len() implies a[j] == b[j] by {
        lemma_ranking_agrees(items, keep, a, b, j);
    }
    assert(a =~= b);
}

} // verus!
