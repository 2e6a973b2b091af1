//! Weighted symbol tables and proportional selection.
//!
//! A [`WeightedDistribution`] maps each symbol of a small, fixed table to a
//! positive relative weight. A draw takes one uniform value `u` below the
//! table's weight sum and selects the first symbol whose cumulative weight
//! exceeds `u`, so each symbol is chosen for exactly `weight` of the
//! `total` equally likely draw values.

use vstd::prelude::*;
use vstd::set_lib::lemma_int_range;

verus! {

/// One entry of a weighted table: a symbol and its positive relative weight.
#[derive(Clone, Copy)]
pub struct WeightedItem<T> {
    pub symbol: T,
    pub weight: u64,
}

/// The one recoverable error class: an invalid weight table, detected when
/// the table is turned into a distribution.
#[derive(Clone, Copy, PartialEq, Eq, Structural, Debug)]
pub enum ConfigError {
    /// The table holds no entry at all.
    EmptyTable,
    /// Some entry's weight is zero, so it could never be drawn.
    NonPositiveWeight,
}

/// Sum of the weights of a table.
pub open spec fn total_spec<T>(s: Seq<WeightedItem<T>>) -> int
    decreases s.len(),
{
    if s.len() == 0 {
        0
    } else {
        total_spec(s.drop_last()) + s.last().weight
    }
}

/// Every weight of the table is positive.
pub open spec fn all_positive<T>(s: Seq<WeightedItem<T>>) -> bool {
    forall|i: int| 0 <= i < s.len() ==> #[trigger] s[i].weight >= 1
}

/// No symbol occurs twice in the table.
pub open spec fn distinct_symbols<T>(s: Seq<WeightedItem<T>>) -> bool {
    forall|i: int, j: int|
        #![trigger s[i].symbol, s[j].symbol]
        0 <= i < j < s.len() ==> s[i].symbol != s[j].symbol
}

/// The symbol `t` occurs somewhere in the table.
pub open spec fn has_symbol<T>(s: Seq<WeightedItem<T>>, t: T) -> bool {
    exists|i: int| 0 <= i < s.len() && #[trigger] s[i].symbol == t
}

/// Index of the first entry whose cumulative weight exceeds the draw `u`.
pub open spec fn pick_index<T>(s: Seq<WeightedItem<T>>, u: int) -> int
    decreases s.len(),
{
    if s.len() == 0 {
        0
    } else if u < s[0].weight {
        0
    } else {
        1 + pick_index(s.drop_first(), u - s[0].weight)
    }
}

pub proof fn lemma_total_nonneg<T>(s: Seq<WeightedItem<T>>)
    ensures
        total_spec(s) >= 0,
    decreases s.len(),
{
    if s.len() > 0 {
        lemma_total_nonneg(s.drop_last());
    }
}

pub proof fn lemma_total_take_succ<T>(s: Seq<WeightedItem<T>>, i: int)
    requires
        0 <= i < s.len(),
    ensures
        total_spec(s.take(i + 1)) == total_spec(s.take(i)) + s[i].weight,
{
    assert(s.take(i + 1).drop_last() =~= s.take(i));
    assert(s.take(i + 1).last() == s[i]);
}

pub proof fn lemma_total_drop_first<T>(s: Seq<WeightedItem<T>>)
    requires
        s.len() >= 1,
    ensures
        total_spec(s) == s[0].weight + total_spec(s.drop_first()),
    decreases s.len(),
{
    if s.len() == 1 {
        assert(s.drop_first() =~= Seq::<WeightedItem<T>>::empty());
        assert(s.drop_last() =~= Seq::<WeightedItem<T>>::empty());
    } else {
        let dl = s.drop_last();
        lemma_total_drop_first(dl);
        assert(dl[0] == s[0]);
        assert(dl.drop_first() =~= s.drop_first().drop_last());
        assert(s.drop_first().last() == s.last());
        assert(s.drop_first().len() >= 1);
    }
}

pub proof fn lemma_total_split<T>(s: Seq<WeightedItem<T>>, i: int)
    requires
        0 <= i <= s.len(),
    ensures
        total_spec(s) == total_spec(s.take(i)) + total_spec(s.skip(i)),
    decreases i,
{
    if i == 0 {
        assert(s.take(0) =~= Seq::<WeightedItem<T>>::empty());
        assert(s.skip(0) =~= s);
    } else {
        lemma_total_split(s, i - 1);
        lemma_total_take_succ(s, i - 1);
        lemma_total_drop_first(s.skip(i - 1));
        assert(s.skip(i - 1)[0] == s[i - 1]);
        assert(s.skip(i - 1).drop_first() =~= s.skip(i));
    }
}

pub proof fn lemma_total_pos<T>(s: Seq<WeightedItem<T>>)
    requires
        s.len() >= 1,
        all_positive(s),
    ensures
        total_spec(s) >= 1,
{
    lemma_total_drop_first(s);
    lemma_total_nonneg(s.drop_first());
}

pub proof fn lemma_total_upper<T>(s: Seq<WeightedItem<T>>, w: u64)
    requires
        forall|i: int| 0 <= i < s.len() ==> #[trigger] s[i].weight <= w,
    ensures
        total_spec(s) <= s.len() * w,
    decreases s.len(),
{
    if s.len() > 0 {
        lemma_total_upper(s.drop_last(), w);
        assert((s.len() - 1) * w + w == s.len() * w) by (nonlinear_arith);
    }
}

pub proof fn lemma_pick_index_nonneg<T>(s: Seq<WeightedItem<T>>, u: int)
    requires
        u >= 0,
    ensures
        pick_index(s, u) >= 0,
    decreases s.len(),
{
    if s.len() > 0 && u >= s[0].weight {
        lemma_pick_index_nonneg(s.drop_first(), u - s[0].weight);
    }
}

pub proof fn lemma_pick_index_bounds<T>(s: Seq<WeightedItem<T>>, u: int)
    requires
        0 <= u < total_spec(s),
    ensures
        0 <= pick_index(s, u) < s.len(),
    decreases s.len(),
{
    lemma_total_nonneg(s);
    assert(s.len() >= 1);
    if u >= s[0].weight {
        lemma_total_drop_first(s);
        lemma_pick_index_bounds(s.drop_first(), u - s[0].weight);
    }
}

/// The selection law behind draw frequencies: the draw values that select
/// entry `i` are exactly those in that entry's cumulative-weight window, so
/// out of `total_spec(s)` equally likely draws, entry `i` is selected for
/// exactly `s[i].weight` of them.
pub proof fn lemma_pick_in_weight_window<T>(s: Seq<WeightedItem<T>>, u: int, i: int)
    requires
        0 <= u < total_spec(s),
        0 <= i < s.len(),
    ensures
        pick_index(s, u) == i <==> total_spec(s.take(i)) <= u < total_spec(s.take(i)) + s[i].weight,
    decreases i,
{
    lemma_total_nonneg(s);
    if i == 0 {
        assert(s.take(0) =~= Seq::<WeightedItem<T>>::empty());
        if u >= s[0].weight {
            lemma_pick_index_nonneg(s.drop_first(), u - s[0].weight);
        }
    } else {
        if u < s[0].weight {
            // the draw stays in the first window, which is not window i
            lemma_total_drop_first(s.take(i));
            assert(s.take(i)[0] == s[0]);
            lemma_total_nonneg(s.take(i).drop_first());
        } else {
            let rest = s.drop_first();
            lemma_total_drop_first(s);
            lemma_pick_in_weight_window(rest, u - s[0].weight, i - 1);
            lemma_total_drop_first(s.take(i));
            assert(s.take(i)[0] == s[0]);
            assert(s.take(i).drop_first() =~= rest.take(i - 1));
            assert(rest[i - 1] == s[i]);
        }
    }
}

/// Counting corollary of the window law: the set of draw values on which
/// entry `i` is selected has exactly `s[i].weight` elements, one draw value
/// per unit of weight.
pub proof fn lemma_draw_count<T>(s: Seq<WeightedItem<T>>, i: int)
    requires
        0 <= i < s.len(),
    ensures
        Set::new(|u: int| 0 <= u < total_spec(s) && pick_index(s, u) == i).finite(),
        Set::new(|u: int| 0 <= u < total_spec(s) && pick_index(s, u) == i).len() == s[i].weight,
{
    let cum = total_spec(s.take(i));
    let w = s[i].weight as int;
    let chosen = Set::new(|u: int| 0 <= u < total_spec(s) && pick_index(s, u) == i);
    lemma_total_nonneg(s.take(i));
    // the window lies inside [0, total): total == cum + weight(i) + rest
    lemma_total_split(s, i);
    lemma_total_drop_first(s.skip(i));
    assert(s.skip(i)[0] == s[i]);
    lemma_total_nonneg(s.skip(i).drop_first());
    assert(cum + w <= total_spec(s));
    assert forall|u: int| chosen.contains(u) <==> (cum <= u < cum + w) by {
        if 0 <= u < total_spec(s) {
            lemma_pick_in_weight_window(s, u, i);
        }
    }
    assert(Set::new(|u: int| 0 <= u < total_spec(s) && pick_index(s, u) == i)
        =~= vstd::set_lib::set_int_range(cum, cum + w));
    lemma_int_range(cum, cum + w);
}

/// Boundary law: a table with a single entry selects that entry on every
/// draw value, whatever the random source produced.
pub proof fn lemma_single_symbol<T>(s: Seq<WeightedItem<T>>, u: int)
    requires
        s.len() == 1,
        0 <= u < total_spec(s),
    ensures
        pick_index(s, u) == 0,
{
    assert(s.drop_last() =~= Seq::<WeightedItem<T>>::empty());
    assert(total_spec(s.drop_last()) == 0);
    assert(s.last() == s[0]);
    assert(total_spec(s) == s[0].weight);
}

/// An immutable table of weighted symbols supporting proportional draws.
pub struct WeightedDistribution<T> {
    pub items: Vec<WeightedItem<T>>,
    pub total: u64,
}

impl<T: Copy> WeightedDistribution<T> {
    /// The construction-time invariant: a non-empty table of distinct
    /// symbols with positive weights, and the cached weight sum.
    pub open spec fn wf(self) -> bool {
        &&& self.items@.len() >= 1
        &&& all_positive(self.items@)
        &&& distinct_symbols(self.items@)
        &&& self.total as int == total_spec(self.items@)
    }

    /// The symbol selected by the uniform draw value `u`.
    pub open spec fn pick_spec(self, u: u64) -> T {
        self.items@[pick_index(self.items@, u as int)].symbol
    }

    /// Builds a distribution from a weight table, rejecting an empty table
    /// and a zero weight; these are the only construction errors.
    pub fn new(items: Vec<WeightedItem<T>>) -> (r: Result<WeightedDistribution<T>, ConfigError>)
        requires
            distinct_symbols(items@),
            total_spec(items@) <= u64::MAX,
        ensures
            match r {
                Ok(d) => d.wf() && d.items@ == items@ && items@.len() >= 1 && all_positive(
                    items@,
                ),
                Err(ConfigError::EmptyTable) => items@.len() == 0,
                Err(ConfigError::NonPositiveWeight) => items@.len() >= 1 && !all_positive(items@),
            },
    {
        if items.len() == 0 {
            return Err(ConfigError::EmptyTable);
        }
        let mut total: u64 = 0;
        let mut i: usize = 0;
        while i < items.len()
            invariant
                i <= items@.len(),
                total as int == total_spec(items@.take(i as int)),
                forall|j: int| 0 <= j < i ==> #[trigger] items@[j].weight >= 1,
                total_spec(items@) <= u64::MAX,
            decreases items@.len() - i,
        {
            if items[i].weight == 0 {
                assert(!all_positive(items@));
                return Err(ConfigError::NonPositiveWeight);
            }
            proof {
                lemma_total_take_succ(items@, i as int);
                lemma_total_split(items@, i as int + 1);
                lemma_total_nonneg(items@.skip(i as int + 1));
            }
            total = total + items[i].weight;
            i = i + 1;
        }
        proof {
            assert(items@.take(items@.len() as int) =~= items@);
        }
        Ok(WeightedDistribution { items, total })
    }

    /// The ordered list of the table's symbols.
    pub fn symbols(&self) -> (v: Vec<T>)
        ensures
            v@.len() == self.items@.len(),
            forall|i: int| 0 <= i < v@.len() ==> v@[i] == self.items@[i].symbol,
    {
        let mut v: Vec<T> = Vec::new();
        let mut i: usize = 0;
        while i < self.items.len()
            invariant
                i <= self.items@.len(),
                v@.len() == i,
                forall|j: int| 0 <= j < i ==> v@[j] == self.items@[j].symbol,
            decreases self.items@.len() - i,
        {
            v.push(self.items[i].symbol);
            i = i + 1;
        }
        v
    }

    /// Draws the symbol selected by the uniform value `u`, scanning the
    /// cumulative weights from the front of the table.
    pub fn pick(&self, u: u64) -> (t: T)
        requires
            self.wf(),
            u < self.total,
        ensures
            t == self.pick_spec(u),
            has_symbol(self.items@, t),
    {
        let ghost s = self.items@;
        let n = self.items.len();
        let mut i: usize = 0;
        let mut acc: u64 = 0;
        proof {
            assert(s.take(0) =~= Seq::<WeightedItem<T>>::empty());
            assert(s.skip(0) =~= s);
            lemma_total_nonneg(s);
        }
        loop
            invariant
                self.wf(),
                u < self.total,
                s == self.items@,
                n == s.len(),
                0 <= i < n,
                acc as int == total_spec(s.take(i as int)),
                acc <= u,
                pick_index(s, u as int) == i + pick_index(s.skip(i as int), u as int - acc),
            decreases s.len() - i,
        {
            let w = self.items[i].weight;
            proof {
                lemma_total_split(s, i as int);
                lemma_total_drop_first(s.skip(i as int));
                assert(s.skip(i as int)[0] == s[i as int]);
                assert(s.skip(i as int).drop_first() =~= s.skip(i as int + 1));
                lemma_total_nonneg(s.skip(i as int + 1));
            }
            if u < acc + w {
                proof {
                    assert(pick_index(s.skip(i as int), u as int - acc) == 0);
                    lemma_pick_index_bounds(s, u as int);
                }
                return self.items[i].symbol;
            }
            proof {
                if i as int + 1 == s.len() {
                    assert(s.skip(i as int + 1) =~= Seq::<WeightedItem<T>>::empty());
                    assert(false);
                }
                lemma_total_take_succ(s, i as int);
            }
            acc = acc + w;
            i = i + 1;
        }
    }
}

} // verus!
