//! Rolling dice and summing what they show.

use crate::arith::{lemma_wrap_add, lemma_wrap_range, wrap, wrap_add};
use crate::source::{drawn, state_after, DiceSource};
use crate::term::{Keep, KeepDirection, Term, TermView};
use vstd::prelude::*;
use vstd::relations::{sorted_by, total_ordering};
use vstd::seq_lib::lemma_sorted_unique;

verus! {

/// A term together with the values realized for it: one value per die for a
/// dice term, the literal alone for a number, nothing for any other term.
#[derive(Clone, Debug, PartialEq, Eq)]
pub struct RolledTerm {
    pub term: Term,
    pub values: Vec<i64>,
}

/// The order in which dice are sorted: lowest first.
pub open spec fn ascending() -> spec_fn(i64, i64) -> bool {
    |a: i64, b: i64| a <= b
}

/// The values in ascending order.
pub open spec fn sorted(values: Seq<i64>) -> Seq<i64> {
    values.sort_by(ascending())
}

/// The sum of the values, as an unbounded integer.
pub open spec fn sum(values: Seq<i64>) -> int
    decreases values.len(),
{
    if values.len() == 0 {
        0
    } else {
        sum(values.drop_last()) + values.last()
    }
}

/// How many dice a keep modifier keeps of `len` dice: its amount, or all of
/// them where there are fewer.
pub open spec fn kept_count(keep: Keep, len: nat) -> nat {
    if keep.amount <= len {
        keep.amount as nat
    } else {
        len
    }
}

/// The values a keep modifier keeps: the highest or the lowest, in ascending
/// order.
pub open spec fn kept(values: Seq<i64>, keep: Keep) -> Seq<i64> {
    let n = kept_count(keep, values.len());
    match keep.direction {
        KeepDirection::Best => sorted(values).subrange(values.len() - n, values.len() as int),
        KeepDirection::Worst => sorted(values).subrange(0, n as int),
    }
}

/// The values a keep modifier leaves out, in ascending order.
pub open spec fn dropped(values: Seq<i64>, keep: Keep) -> Seq<i64> {
    let n = kept_count(keep, values.len());
    match keep.direction {
        KeepDirection::Best => sorted(values).subrange(0, values.len() - n),
        KeepDirection::Worst => sorted(values).subrange(n as int, values.len() as int),
    }
}

/// Whether `values` can have been realized for `term`.
pub open spec fn realizes(term: TermView, values: Seq<i64>) -> bool {
    match term {
        TermView::Dice { count, sides, .. } => {
            &&& values.len() == count
            &&& forall|i: int| 0 <= i < values.len() ==> 1 <= #[trigger] values[i] <= sides
        },
        TermView::Number(n) => values.len() == 1 && values[0] == n,
        _ => values.len() == 0,
    }
}

/// The numbers that `count` dice of `sides` sides show when they are rolled
/// one after the other from a generator that starts in the given state.
pub open spec fn rolled_values(state: Seq<u32>, sides: i64, count: nat) -> Seq<i64>
    decreases count,
{
    if count == 0 {
        Seq::empty()
    } else {
        rolled_values(state, sides, (count - 1) as nat).push(
            drawn(state_after_rolls(state, sides, (count - 1) as nat), sides),
        )
    }
}

/// The state that those rolls leave the generator in.
pub open spec fn state_after_rolls(state: Seq<u32>, sides: i64, count: nat) -> Seq<u32>
    decreases count,
{
    if count == 0 {
        state
    } else {
        state_after(state_after_rolls(state, sides, (count - 1) as nat), sides)
    }
}

/// The values that a generator in the given state realizes for a term: the
/// rolls of its dice, one after the other; a number's own value, for which
/// nothing is rolled; nothing for any other term.
pub open spec fn values_from(term: TermView, state: Seq<u32>) -> Seq<i64> {
    match term {
        TermView::Dice { count, sides, .. } => rolled_values(state, sides as i64, count),
        TermView::Number(n) => seq![n as i64],
        _ => Seq::empty(),
    }
}

/// The state that the realization of a term leaves the generator in: for
/// dice the state after their rolls, for any other term the state before.
pub open spec fn state_after_term(term: TermView, state: Seq<u32>) -> Seq<u32> {
    match term {
        TermView::Dice { count, sides, .. } => state_after_rolls(state, sides as i64, count),
        _ => state,
    }
}

/// The state of a source after the realization of a term: that of its
/// generator for a seeded source, none for the thread's.
pub open spec fn source_after_term(term: TermView, before: Option<Seq<u32>>) -> Option<Seq<u32>> {
    match before {
        Some(state) => Some(state_after_term(term, state)),
        None => None,
    }
}

/// Whether `values` are what a source in the given state realizes for
/// `term`: for a seeded source the values that its state fixes; for the
/// thread's source any values that can have been realized.
pub open spec fn realizes_from(term: TermView, values: Seq<i64>, before: Option<Seq<u32>>) -> bool {
    &&& realizes(term, values)
    &&& before matches Some(state) ==> values == values_from(term, state)
}

/// What a term contributes to the total: for dice the sum of the values kept,
/// wrapped to 64 bits; for a number its value; for any other term nothing.
pub open spec fn contribution(term: TermView, values: Seq<i64>) -> int {
    match term {
        TermView::Dice { keep: Some(k), .. } => wrap(sum(kept(values, k))),
        TermView::Dice { keep: None, .. } => wrap(sum(values)),
        TermView::Number(n) => n,
        _ => 0,
    }
}

/// The ascending order on 64-bit values is a total order.
pub proof fn lemma_ascending_total()
    ensures
        total_ordering(ascending()),
{
    assert(vstd::relations::reflexive(ascending()));
    assert(vstd::relations::antisymmetric(ascending()));
    assert(vstd::relations::transitive(ascending()));
    assert(vstd::relations::strongly_connected(ascending()));
}

/// Sorting keeps every value, as often as it occurred, and puts them in
/// ascending order.
pub proof fn lemma_sorted(values: Seq<i64>)
    ensures
        sorted(values).len() == values.len(),
        sorted(values).to_multiset() =~= values.to_multiset(),
        forall|i: int, j: int|
            0 <= i <= j < values.len() ==> #[trigger] sorted(values)[i] <= #[trigger] sorted(
                values,
            )[j],
{
    lemma_ascending_total();
    values.lemma_sort_by_ensures(ascending());
    values.to_multiset_ensures();
    sorted(values).to_multiset_ensures();
    let s = sorted(values);
    assert forall|i: int, j: int| 0 <= i <= j < values.len() implies #[trigger] s[i]
        <= #[trigger] s[j] by {
        if i < j {
            assert(ascending()(s[i], s[j]));
        }
    }
}

/// Calls `<[i64]>::sort_unstable`, which rearranges the values into
/// ascending order.
#[verifier::external_body]
fn sort_values(values: &mut Vec<i64>)
    ensures
        final(values)@.to_multiset() == old(values)@.to_multiset(),
        sorted_by(final(values)@, ascending()),
{
    values.sort_unstable()
}

/// The wrapped sum of the values from index `from` up to, not including,
/// `to`.
pub fn sum_range(values: &Vec<i64>, from: usize, to: usize) -> (r: i64)
    requires
        from <= to <= values@.len(),
    ensures
        r == wrap(sum(values@.subrange(from as int, to as int))),
{
    let mut acc: i64 = 0;
    let mut i: usize = from;
    proof {
        lemma_wrap_range(0);
    }
    while i < to
        invariant
            from <= i <= to <= values@.len(),
            acc == wrap(sum(values@.subrange(from as int, i as int))),
        decreases to - i,
    {
        proof {
            let t = values@.subrange(from as int, i as int + 1);
            assert(t.drop_last() =~= values@.subrange(from as int, i as int));
            assert(t.last() == values@[i as int]);
            lemma_wrap_add(sum(values@.subrange(from as int, i as int)), values@[i as int] as int);
        }
        acc = wrap_add(acc, values[i]);
        i = i + 1;
    }
    acc
}

impl Term {
    /// Realizes the term: rolls each die of a dice term from the source,
    /// one after the other, takes the value of a number, and leaves any
    /// other term without values. The source is asked once per die and for
    /// nothing else: a seeded source gives the values that its state fixes
    /// and is left in the state after those rolls.
    pub fn with_rolls(self, source: &mut DiceSource) -> (r: RolledTerm)
        requires
            self@.well_formed(),
        ensures
            r.term@ == self@,
            realizes_from(self@, r.values@, old(source).state()),
            final(source).state() == source_after_term(self@, old(source).state()),
    {
        let mut values: Vec<i64> = Vec::new();
        let ghost before = source.state();
        match self {
            Term::Dice { count, sides, .. } => {
                let mut i: usize = 0;
                while i < count
                    invariant
                        0 <= i <= count,
                        sides >= 1,
                        values@.len() == i,
                        forall|j: int| 0 <= j < values@.len() ==> 1 <= #[trigger] values@[j] <= sides,
                        match before {
                            Some(state) => source.state() == Some(
                                state_after_rolls(state, sides, i as nat),
                            ) && values@ == rolled_values(state, sides, i as nat),
                            None => source.state().is_none(),
                        },
                    decreases count - i,
                {
                    let value = source.draw(sides);
                    values.push(value);
                    i = i + 1;
                }
            },
            Term::Number(n) => {
                values.push(n);
                assert(values@ =~= seq![n]);
            },
            _ => {},
        }
        RolledTerm { term: self, values }
    }
}

impl RolledTerm {
    /// What the term contributes to the total.
    pub fn contribution(&self) -> (r: i64)
        ensures
            r == contribution(self.term@, self.values@),
    {
        match &self.term {
            Term::Dice { keep, .. } => match keep {
                Some(k) => {
                    let mut ordered = self.values.clone();
                    sort_values(&mut ordered);
                    proof {
                        lemma_ascending_total();
                        self.values@.lemma_sort_by_ensures(ascending());
                        lemma_sorted_unique(ordered@, sorted(self.values@), ascending());
                        lemma_sorted(self.values@);
                    }
                    let len = ordered.len();
                    let n = if k.amount <= len {
                        k.amount
                    } else {
                        len
                    };
                    match k.direction {
                        KeepDirection::Best => sum_range(&ordered, len - n, len),
                        KeepDirection::Worst => sum_range(&ordered, 0, n),
                    }
                },
                None => {
                    assert(self.values@.subrange(0, self.values@.len() as int) =~= self.values@);
                    sum_range(&self.values, 0, self.values.len())
                },
            },
            Term::Number(n) => *n,
            _ => 0,
        }
    }
}

/// The sum of values that each lie between `low` and `high` lies between
/// their number times `low` and their number times `high`.
pub proof fn lemma_sum_bounds(values: Seq<i64>, low: int, high: int)
    requires
        forall|i: int| 0 <= i < values.len() ==> low <= #[trigger] values[i] <= high,
    ensures
        values.len() * low <= sum(values) <= values.len() * high,
    decreases values.len(),
{
    if values.len() > 0 {
        lemma_sum_bounds(values.drop_last(), low, high);
        assert((values.len() - 1) * low + low == values.len() * low) by (nonlinear_arith);
        assert((values.len() - 1) * high + high == values.len() * high) by (nonlinear_arith);
    }
}

/// A dice term without a keep modifier holds one value per die, each between
/// 1 and the number of sides, and contributes their sum; the sum lies between
/// the number of dice and that number times the sides, and is the
/// contribution exactly wherever that product fits 64 bits.
pub proof fn lemma_plain_dice(count: nat, sides: int, values: Seq<i64>)
    requires
        realizes(TermView::Dice { count, sides, keep: None }, values),
    ensures
        values.len() == count,
        forall|i: int| 0 <= i < values.len() ==> 1 <= #[trigger] values[i] <= sides,
        count <= sum(values) <= count * sides,
        contribution(TermView::Dice { count, sides, keep: None }, values) == wrap(sum(values)),
        count * sides <= i64::MAX ==> contribution(
            TermView::Dice { count, sides, keep: None },
            values,
        ) == sum(values),
{
    lemma_sum_bounds(values, 1, sides);
    assert(values.len() * 1 == values.len());
    if count * sides <= i64::MAX {
        lemma_wrap_range(sum(values));
    }
}

/// A keep modifier keeps its amount of the values, or all of them where
/// there are fewer. Kept and dropped values together are the values rolled,
/// each as often as it was rolled. With `Best` no dropped value exceeds a
/// kept one, so the kept are the largest; with `Worst` no kept value exceeds
/// a dropped one, so the kept are the smallest. The term contributes the sum
/// of the kept values.
pub proof fn lemma_keep(count: nat, sides: int, keep: Keep, values: Seq<i64>)
    ensures
        kept(values, keep).len() == kept_count(keep, values.len()),
        kept(values, keep).len() + dropped(values, keep).len() == values.len(),
        kept(values, keep).to_multiset().add(dropped(values, keep).to_multiset())
            =~= values.to_multiset(),
        keep.direction == KeepDirection::Best ==> forall|i: int, j: int|
            0 <= i < dropped(values, keep).len() && 0 <= j < kept(values, keep).len()
                ==> #[trigger] dropped(values, keep)[i] <= #[trigger] kept(values, keep)[j],
        keep.direction == KeepDirection::Worst ==> forall|i: int, j: int|
            0 <= i < dropped(values, keep).len() && 0 <= j < kept(values, keep).len()
                ==> #[trigger] kept(values, keep)[j] <= #[trigger] dropped(values, keep)[i],
        contribution(TermView::Dice { count, sides, keep: Some(keep) }, values) == wrap(
            sum(kept(values, keep)),
        ),
{
    lemma_sorted(values);
    let s = sorted(values);
    let k = kept(values, keep);
    let d = dropped(values, keep);
    match keep.direction {
        KeepDirection::Best => {
            assert(d + k =~= s);
            vstd::seq_lib::lemma_multiset_commutative(d, k);
        },
        KeepDirection::Worst => {
            assert(k + d =~= s);
            vstd::seq_lib::lemma_multiset_commutative(k, d);
        },
    }
    assert(k.to_multiset().add(d.to_multiset()) =~= values.to_multiset());
}

} // verus!
