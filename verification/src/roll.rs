//! Evaluation: realized terms folded, left to right, into a total.

use crate::dice::{
    contribution, realizes, realizes_from, source_after_term, RolledTerm,
};
use crate::error::{ParseRollError, Rejection};
use crate::skill::{infer_system, inferred_system, shapes, GameSystem};
use crate::source::DiceSource;
use crate::term::{
    all_well_formed, apply, same_value, text_of, views, Operator, Term, TermView,
};
use vstd::prelude::*;

verus! {

/// The skill check that a roll is held against.
#[derive(Clone, Debug, PartialEq, Eq)]
pub struct Check {
    pub target: i64,
    pub tag: Option<String>,
    pub system: GameSystem,
}

/// One evaluation of an expression: its terms as realized, the total they
/// fold into, and the skill check it is held against, if any.
#[derive(Clone, Debug, PartialEq, Eq)]
pub struct Roll {
    pub terms: Vec<RolledTerm>,
    pub total: i64,
    pub versus: Option<Check>,
}

/// The evaluations of one expression, one per repeat.
#[derive(Clone, Debug, PartialEq, Eq)]
pub struct DiceRoll {
    pub rolls: Vec<Roll>,
}

/// The running total after the given realized terms, and the operator that
/// the next contribution meets. Evaluation starts from zero with `Add`; a
/// dice term or a number is applied to the total by the operator in force;
/// an operator replaces the one in force; any other term changes nothing.
/// The first failure ends the evaluation.
pub open spec fn folded(rolled: Seq<RolledTerm>) -> Result<(int, Operator), Rejection>
    decreases rolled.len(),
{
    if rolled.len() == 0 {
        Ok((0, Operator::Add))
    } else {
        match folded(rolled.drop_last()) {
            Err(e) => Err(e),
            Ok((total, op)) => {
                let last = rolled.last();
                match last.term@ {
                    TermView::Dice { .. } | TermView::Number(_) => match apply(
                        op,
                        total,
                        contribution(last.term@, last.values@),
                    ) {
                        Ok(t) => Ok((t, op)),
                        Err(e) => Err(e),
                    },
                    TermView::Operator(o) => Ok((total, o)),
                    _ => Ok((total, op)),
                }
            },
        }
    }
}

/// The total that the realized terms fold into.
pub open spec fn total_of(rolled: Seq<RolledTerm>) -> Result<int, Rejection> {
    match folded(rolled) {
        Ok((total, _)) => Ok(total),
        Err(e) => Err(e),
    }
}

/// The terms that take part in the arithmetic, in order.
pub open spec fn arithmetic(terms: Seq<TermView>) -> Seq<TermView>
    decreases terms.len(),
{
    if terms.len() == 0 {
        Seq::empty()
    } else if terms.last().is_arithmetic() {
        arithmetic(terms.drop_last()).push(terms.last())
    } else {
        arithmetic(terms.drop_last())
    }
}

/// Target and tag of the first versus clause, if there is one.
pub open spec fn first_versus(terms: Seq<TermView>) -> Option<(int, Option<Seq<char>>)>
    decreases terms.len(),
{
    if terms.len() == 0 {
        None
    } else {
        match first_versus(terms.drop_last()) {
            Some(v) => Some(v),
            None => match terms.last() {
                TermView::Versus { target, tag } => Some((target, tag)),
                _ => None,
            },
        }
    }
}

/// The count of the first repeat clause, if there is one.
pub open spec fn first_repeat(terms: Seq<TermView>) -> Option<nat>
    decreases terms.len(),
{
    if terms.len() == 0 {
        None
    } else {
        match first_repeat(terms.drop_last()) {
            Some(n) => Some(n),
            None => match terms.last() {
                TermView::Repeat(n) => Some(n),
                _ => None,
            },
        }
    }
}

/// How many evaluations the terms ask for: the count of the first repeat
/// clause, or one.
pub open spec fn repeat_of(terms: Seq<TermView>) -> nat {
    match first_repeat(terms) {
        Some(n) => n,
        None => 1,
    }
}

/// Three six-sided dice: what is rolled where no dice are named.
pub open spec fn default_dice() -> TermView {
    TermView::Dice { count: 3, sides: 6, keep: None }
}

/// The terms as they are evaluated: with three six-sided dice put in front
/// where they name no dice at all.
pub open spec fn with_default_dice(terms: Seq<TermView>) -> Seq<TermView> {
    if shapes(terms).len() > 0 {
        terms
    } else {
        seq![default_dice()] + terms
    }
}

/// Whether `rolled` is a realization of the arithmetic terms of `terms`:
/// the same terms in the same order, each with values that can have been
/// realized for it.
pub open spec fn is_realization(terms: Seq<TermView>, rolled: Seq<RolledTerm>) -> bool {
    &&& rolled.len() == arithmetic(terms).len()
    &&& forall|i: int|
        0 <= i < rolled.len() ==> (#[trigger] rolled[i]).term@ == arithmetic(terms)[i] && realizes(
            arithmetic(terms)[i],
            rolled[i].values@,
        )
}

/// The state of a source after one evaluation of the terms: each
/// arithmetic term is realized in turn, and nothing else asks the source.
pub open spec fn source_after(terms: Seq<TermView>, before: Option<Seq<u32>>) -> Option<Seq<u32>>
    decreases terms.len(),
{
    if terms.len() == 0 {
        before
    } else if terms.last().is_arithmetic() {
        source_after_term(terms.last(), source_after(terms.drop_last(), before))
    } else {
        source_after(terms.drop_last(), before)
    }
}

/// The state of a source after several evaluations of the terms, one after
/// the other.
pub open spec fn source_after_rounds(terms: Seq<TermView>, before: Option<Seq<u32>>, rounds: nat)
    -> Option<Seq<u32>>
    decreases rounds,
{
    if rounds == 0 {
        before
    } else {
        source_after(terms, source_after_rounds(terms, before, (rounds - 1) as nat))
    }
}

/// Whether `rolled` is the realization of the arithmetic terms of `terms`
/// by a source that starts in the given state: the same terms in the same
/// order, each realized from the state that the terms before it left. For a
/// seeded source that fixes every value; for the thread's source the values
/// are any that can have been realized.
pub open spec fn is_realization_from(
    terms: Seq<TermView>,
    rolled: Seq<RolledTerm>,
    before: Option<Seq<u32>>,
) -> bool
    decreases terms.len(),
{
    if terms.len() == 0 {
        rolled.len() == 0
    } else if terms.last().is_arithmetic() {
        &&& rolled.len() > 0
        &&& is_realization_from(terms.drop_last(), rolled.drop_last(), before)
        &&& rolled.last().term@ == terms.last()
        &&& realizes_from(
            terms.last(),
            rolled.last().values@,
            source_after(terms.drop_last(), before),
        )
    } else {
        is_realization_from(terms.drop_last(), rolled, before)
    }
}

/// Whether `check` is the skill check that `terms` ask for: none where they
/// hold no versus clause; else target and tag of the first one, under the
/// convention inferred from the dice.
pub open spec fn check_matches(check: Option<Check>, terms: Seq<TermView>) -> bool {
    match first_versus(terms) {
        None => check.is_none(),
        Some((target, tag)) => {
            &&& check.is_some()
            &&& check.unwrap().target == target
            &&& text_of(check.unwrap().tag) == tag
            &&& check.unwrap().system == inferred_system(terms)
        },
    }
}

/// Whether `roll` is an evaluation of `terms`.
pub open spec fn is_roll_of(roll: Roll, terms: Seq<TermView>) -> bool {
    &&& is_realization(terms, roll.terms@)
    &&& total_of(roll.terms@) == Ok::<int, Rejection>(roll.total as int)
    &&& check_matches(roll.versus, terms)
}

/// Whether `roll` is the evaluation of `terms` by a source that starts in
/// the given state.
pub open spec fn is_roll_from(roll: Roll, terms: Seq<TermView>, before: Option<Seq<u32>>) -> bool {
    &&& is_roll_of(roll, terms)
    &&& is_realization_from(terms, roll.terms@, before)
}

/// Whether the evaluation of `terms` by a source that starts in the given
/// state fails with `e`.
pub open spec fn fails_from(e: Rejection, terms: Seq<TermView>, before: Option<Seq<u32>>) -> bool {
    exists|rolled: Seq<RolledTerm>|
        is_realization(terms, rolled) && is_realization_from(terms, rolled, before)
            && #[trigger] total_of(rolled) == Err::<int, Rejection>(e)
}

/// Whether the evaluation of `terms` by a source that starts in the given
/// state gives a roll.
pub open spec fn succeeds_from(terms: Seq<TermView>, before: Option<Seq<u32>>) -> bool {
    exists|roll: Roll| #[trigger] is_roll_from(roll, terms, before)
}

/// Whether `rolls` are the evaluations that `terms` ask for, made one after
/// the other by a source that starts in the given state: as many as the
/// repeat clause says, one where there is none, each an evaluation of the
/// terms, with dice put in where they name none, from the state that the
/// evaluations before it left.
pub open spec fn is_set_from(rolls: Seq<Roll>, terms: Seq<TermView>, before: Option<Seq<u32>>)
    -> bool {
    &&& rolls.len() == repeat_of(terms)
    &&& forall|i: int|
        0 <= i < rolls.len() ==> is_roll_from(
            #[trigger] rolls[i],
            with_default_dice(terms),
            source_after_rounds(with_default_dice(terms), before, i as nat),
        )
}

/// Whether the evaluations that `terms` ask for, made one after the other
/// by a source that starts in the state `before`, end in the failure `e`
/// and leave the source in the state `after`: some evaluation fails with
/// `e`, all before it gave a roll, and none is made after it.
pub open spec fn set_fails_from(
    e: Rejection,
    terms: Seq<TermView>,
    before: Option<Seq<u32>>,
    after: Option<Seq<u32>>,
) -> bool {
    exists|k: nat|
        {
            &&& k < repeat_of(terms)
            &&& forall|j: nat|
                j < k ==> succeeds_from(
                    with_default_dice(terms),
                    #[trigger] source_after_rounds(with_default_dice(terms), before, j),
                )
            &&& #[trigger] fails_from(
                e,
                with_default_dice(terms),
                source_after_rounds(with_default_dice(terms), before, k),
            )
            &&& after == source_after_rounds(with_default_dice(terms), before, k + 1)
        }
}

/// What a source realizes for the terms is a realization of them.
pub proof fn lemma_realization_from(
    terms: Seq<TermView>,
    rolled: Seq<RolledTerm>,
    before: Option<Seq<u32>>,
)
    requires
        is_realization_from(terms, rolled, before),
    ensures
        is_realization(terms, rolled),
    decreases terms.len(),
{
    if terms.len() > 0 {
        if terms.last().is_arithmetic() {
            lemma_realization_from(terms.drop_last(), rolled.drop_last(), before);
            assert forall|i: int| 0 <= i < rolled.len() implies (#[trigger] rolled[i]).term@
                == arithmetic(terms)[i] && realizes(arithmetic(terms)[i], rolled[i].values@) by {
                if i < rolled.len() - 1 {
                    assert(rolled.drop_last()[i] == rolled[i]);
                }
            }
        } else {
            lemma_realization_from(terms.drop_last(), rolled, before);
        }
    }
}

/// A source stays what it is through an evaluation: a seeded source has a
/// state afterwards, the thread's source has none.
pub proof fn lemma_source_stays(terms: Seq<TermView>, before: Option<Seq<u32>>)
    ensures
        source_after(terms, before).is_some() == before.is_some(),
    decreases terms.len(),
{
    if terms.len() > 0 {
        lemma_source_stays(terms.drop_last(), before);
    }
}

/// A seeded source fixes the evaluation: two realizations of the same terms
/// from the same state show the same terms with the same values, and so
/// fold into the same total or fail alike.
pub proof fn lemma_seeded_evaluation_is_fixed(
    terms: Seq<TermView>,
    first: Seq<RolledTerm>,
    second: Seq<RolledTerm>,
    state: Seq<u32>,
)
    requires
        is_realization_from(terms, first, Some(state)),
        is_realization_from(terms, second, Some(state)),
    ensures
        first.len() == second.len(),
        forall|i: int|
            0 <= i < first.len() ==> (#[trigger] first[i]).term@ == second[i].term@
                && first[i].values@ == second[i].values@,
        folded(first) == folded(second),
        total_of(first) == total_of(second),
    decreases terms.len(),
{
    if terms.len() > 0 {
        if terms.last().is_arithmetic() {
            lemma_seeded_evaluation_is_fixed(
                terms.drop_last(),
                first.drop_last(),
                second.drop_last(),
                state,
            );
            lemma_source_stays(terms.drop_last(), Some(state));
            assert(first.last().values@ == second.last().values@);
            assert forall|i: int| 0 <= i < first.len() implies (#[trigger] first[i]).term@
                == second[i].term@ && first[i].values@ == second[i].values@ by {
                if i < first.len() - 1 {
                    assert(first.drop_last()[i] == first[i]);
                    assert(second.drop_last()[i] == second[i]);
                } else {
                    assert(first[i] == first.last());
                    assert(second[i] == second.last());
                }
            }
        } else {
            lemma_seeded_evaluation_is_fixed(terms.drop_last(), first, second, state);
        }
    }
}

/// A failure among the first terms is the failure of the whole evaluation.
pub proof fn lemma_failure_is_final(rolled: Seq<RolledTerm>, n: int)
    requires
        0 <= n <= rolled.len(),
        folded(rolled.subrange(0, n)).is_err(),
    ensures
        folded(rolled) == folded(rolled.subrange(0, n)),
    decreases rolled.len() - n,
{
    if n == rolled.len() {
        assert(rolled.subrange(0, n) =~= rolled);
    } else {
        let t = rolled.subrange(0, n + 1);
        assert(t.drop_last() =~= rolled.subrange(0, n));
        lemma_failure_is_final(rolled, n + 1);
    }
}

/// Folds realized terms into their total.
pub fn fold_total(rolled: &Vec<RolledTerm>) -> (r: Result<i64, ParseRollError>)
    ensures
        same_value(r, total_of(rolled@)),
{
    let mut total: i64 = 0;
    let mut op = Operator::Add;
    let mut i: usize = 0;
    while i < rolled.len()
        invariant
            0 <= i <= rolled.len(),
            folded(rolled@.subrange(0, i as int)) == Ok::<(int, Operator), Rejection>(
                (total as int, op),
            ),
        decreases rolled.len() - i,
    {
        proof {
            let t = rolled@.subrange(0, i as int + 1);
            assert(t.drop_last() =~= rolled@.subrange(0, i as int));
            assert(t.last() == rolled@[i as int]);
        }
        match &rolled[i].term {
            Term::Dice { .. } | Term::Number(_) => {
                let value = rolled[i].contribution();
                match op.apply(total, value) {
                    Ok(t) => {
                        total = t;
                    },
                    Err(e) => {
                        proof {
                            lemma_failure_is_final(rolled@, i as int + 1);
                        }
                        return Err(e);
                    },
                }
            },
            Term::Operator(o) => {
                op = *o;
            },
            _ => {},
        }
        i = i + 1;
    }
    assert(rolled@.subrange(0, i as int) =~= rolled@);
    Ok(total)
}

/// Copies an optional tag.
fn copy_tag(tag: &Option<String>) -> (r: Option<String>)
    ensures
        text_of(r) == text_of(*tag),
{
    match tag {
        Some(t) => Some(t.clone()),
        None => None,
    }
}

impl Roll {
    /// The roll of terms already realized: their total, with the given skill
    /// check attached unchanged. Fails where the evaluation divides by zero
    /// or raises to a negative power.
    pub fn from_rolled(rolled: Vec<RolledTerm>, versus: Option<Check>) -> (r: Result<
        Roll,
        ParseRollError,
    >)
        ensures
            match r {
                Ok(roll) => {
                    &&& roll.terms == rolled
                    &&& roll.versus == versus
                    &&& total_of(rolled@) == Ok::<int, Rejection>(roll.total as int)
                },
                Err(e) => total_of(rolled@) == Err::<int, Rejection>(e@),
            },
    {
        match fold_total(&rolled) {
            Ok(total) => Ok(Roll { terms: rolled, total, versus }),
            Err(e) => Err(e),
        }
    }

    /// Evaluates the terms once: realizes each arithmetic term afresh from
    /// the source, in order, folds the realized terms into a total, and
    /// attaches the first versus clause under the convention inferred from
    /// the dice. Whatever the dice show, the result is what those values
    /// fold into: a roll, or the failure that they lead to. The source is
    /// left in the state after the realization of every term, also where
    /// the fold fails.
    pub fn new(terms: &Vec<Term>, source: &mut DiceSource) -> (r: Result<Roll, ParseRollError>)
        requires
            all_well_formed(views(terms@)),
        ensures
            final(source).state() == source_after(views(terms@), old(source).state()),
            r matches Ok(roll) ==> is_roll_from(roll, views(terms@), old(source).state()),
            r matches Err(e) ==> fails_from(e@, views(terms@), old(source).state()),
    {
        let ghost before = source.state();
        let mut rolled: Vec<RolledTerm> = Vec::new();
        let mut found: Option<(i64, Option<String>)> = None;
        let mut i: usize = 0;
        while i < terms.len()
            invariant
                0 <= i <= terms.len(),
                all_well_formed(views(terms@)),
                is_realization_from(views(terms@).subrange(0, i as int), rolled@, before),
                source.state() == source_after(views(terms@).subrange(0, i as int), before),
                match first_versus(views(terms@).subrange(0, i as int)) {
                    None => found.is_none(),
                    Some((target, tag)) => found.is_some() && found.unwrap().0 == target
                        && text_of(found.unwrap().1) == tag,
                },
            decreases terms.len() - i,
        {
            proof {
                let t = views(terms@).subrange(0, i as int + 1);
                assert(t.drop_last() =~= views(terms@).subrange(0, i as int));
                assert(t.last() == terms@[i as int]@);
                assert(views(terms@)[i as int].well_formed());
            }
            match &terms[i] {
                Term::Versus { target, tag } => {
                    if found.is_none() {
                        found = Some((*target, copy_tag(tag)));
                    }
                },
                Term::Repeat(_) => {},
                _ => {
                    let ghost so_far = rolled@;
                    let realized = terms[i].duplicate().with_rolls(source);
                    rolled.push(realized);
                    assert(rolled@.drop_last() =~= so_far);
                },
            }
            i = i + 1;
        }
        assert(views(terms@).subrange(0, i as int) =~= views(terms@));
        proof {
            lemma_realization_from(views(terms@), rolled@, before);
        }
        let versus = match found {
            Some((target, tag)) => Some(Check { target, tag, system: infer_system(terms) }),
            None => None,
        };
        Roll::from_rolled(rolled, versus)
    }
}

impl DiceRoll {
    /// Evaluates the terms as often as their repeat clause asks, once where
    /// they hold none, each time with dice rolled afresh from the source:
    /// every evaluation starts from the state that the one before it left,
    /// so none sees the values of another. Where the terms name no dice,
    /// three six-sided dice are put in front. The first evaluation that
    /// fails ends the whole, and the source is asked no further.
    pub fn new(terms: Vec<Term>, source: &mut DiceSource) -> (r: Result<DiceRoll, ParseRollError>)
        requires
            all_well_formed(views(terms@)),
        ensures
            r matches Ok(set) ==> {
                &&& is_set_from(set.rolls@, views(terms@), old(source).state())
                &&& final(source).state() == source_after_rounds(
                    with_default_dice(views(terms@)),
                    old(source).state(),
                    repeat_of(views(terms@)),
                )
            },
            r matches Err(e) ==> set_fails_from(
                e@,
                views(terms@),
                old(source).state(),
                final(source).state(),
            ),
    {
        let ghost before = source.state();
        let mut full: Vec<Term> = Vec::new();
        let mut dice_seen = false;
        let mut repeat: Option<usize> = None;
        let mut i: usize = 0;
        while i < terms.len()
            invariant
                0 <= i <= terms.len(),
                dice_seen == (shapes(views(terms@).subrange(0, i as int)).len() > 0),
                match first_repeat(views(terms@).subrange(0, i as int)) {
                    None => repeat.is_none(),
                    Some(n) => repeat == Some(n as usize) && n <= usize::MAX,
                },
            decreases terms.len() - i,
        {
            proof {
                let t = views(terms@).subrange(0, i as int + 1);
                assert(t.drop_last() =~= views(terms@).subrange(0, i as int));
                assert(t.last() == terms@[i as int]@);
            }
            match &terms[i] {
                Term::Dice { .. } => {
                    dice_seen = true;
                },
                Term::Repeat(n) => {
                    if repeat.is_none() {
                        repeat = Some(*n);
                    }
                },
                _ => {},
            }
            i = i + 1;
        }
        assert(views(terms@).subrange(0, i as int) =~= views(terms@));
        if !dice_seen {
            full.push(Term::Dice { count: 3, sides: 6, keep: None });
        }
        let ghost head = views(full@);
        let mut j: usize = 0;
        while j < terms.len()
            invariant
                0 <= j <= terms.len(),
                views(full@) == head + views(terms@).subrange(0, j as int),
            decreases terms.len() - j,
        {
            let ghost before = full@;
            let copy = terms[j].duplicate();
            full.push(copy);
            assert(views(full@) =~= views(before).push(copy@));
            assert(views(full@) =~= head + views(terms@).subrange(0, j as int + 1));
            j = j + 1;
        }
        proof {
            assert(views(terms@).subrange(0, j as int) =~= views(terms@));
            if dice_seen {
                assert(head =~= Seq::<TermView>::empty());
                assert(head + views(terms@) =~= views(terms@));
            } else {
                assert(head =~= seq![default_dice()]);
            }
            assert(views(full@) == with_default_dice(views(terms@)));
            assert(all_well_formed(views(full@)));
        }
        let times: usize = match repeat {
            Some(n) => n,
            None => 1,
        };
        let mut rolls: Vec<Roll> = Vec::new();
        let mut k: usize = 0;
        while k < times
            invariant
                0 <= k <= times,
                times == repeat_of(views(terms@)),
                before == old(source).state(),
                rolls@.len() == k,
                all_well_formed(views(full@)),
                views(full@) == with_default_dice(views(terms@)),
                source.state() == source_after_rounds(views(full@), before, k as nat),
                forall|m: int|
                    0 <= m < rolls@.len() ==> is_roll_from(
                        #[trigger] rolls@[m],
                        views(full@),
                        source_after_rounds(views(full@), before, m as nat),
                    ),
            decreases times - k,
        {
            match Roll::new(&full, source) {
                Ok(roll) => {
                    rolls.push(roll);
                },
                Err(e) => {
                    proof {
                        assert forall|j: nat| j < k implies succeeds_from(
                            views(full@),
                            #[trigger] source_after_rounds(views(full@), before, j),
                        ) by {
                            assert(is_roll_from(
                                rolls@[j as int],
                                views(full@),
                                source_after_rounds(views(full@), before, j),
                            ));
                        }
                        assert(fails_from(
                            e@,
                            views(full@),
                            source_after_rounds(views(full@), before, k as nat),
                        ));
                        assert(source.state() == source_after_rounds(
                            views(full@),
                            before,
                            (k + 1) as nat,
                        ));
                        let round = k as nat;
                        assert(round < repeat_of(views(terms@)));
                        assert(source.state() == source_after_rounds(
                            with_default_dice(views(terms@)),
                            before,
                            round + 1,
                        ));
                        assert(set_fails_from(e@, views(terms@), before, source.state()));
                    }
                    return Err(e);
                },
            }
            k = k + 1;
        }
        Ok(DiceRoll { rolls })
    }
}

} // verus!
