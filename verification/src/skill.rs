//! Skill checks: a total against a target, under the convention of the game
//! that the dice belong to.

use crate::term::{views, Keep, Term, TermView};
use vstd::prelude::*;

verus! {

/// The convention under which a total is held against a target.
#[derive(Clone, Copy, Debug, PartialEq, Eq, Structural)]
pub enum GameSystem {
    /// Three six-sided dice, roll under, with critical results.
    Gurps,
    /// One twenty-sided die, roll over.
    D20,
    /// One hundred-sided die, roll under.
    D100,
    /// Any other dice: a bare comparison, success at or over the target.
    Plain,
}

/// What makes a result more than a plain success or failure.
#[derive(Clone, Copy, Debug, PartialEq, Eq, Structural)]
pub enum Critical {
    Success,
    Failure,
    /// A failure that no skill averts, and yet no critical failure.
    AutomaticFailure,
}

/// The result of a skill check. The margin is signed: at or above zero on a
/// success by that much, below zero on a failure by that much, except where
/// a critical rule overrides the comparison.
#[derive(Clone, Copy, Debug, PartialEq, Eq, Structural)]
pub struct Outcome {
    pub success: bool,
    pub margin: i128,
    pub critical: Option<Critical>,
}

/// The dice of a term sequence, in order: count, sides and keep modifier of
/// each.
pub open spec fn shapes(terms: Seq<TermView>) -> Seq<(nat, int, Option<Keep>)>
    decreases terms.len(),
{
    if terms.len() == 0 {
        Seq::empty()
    } else {
        match terms.last() {
            TermView::Dice { count, sides, keep } => shapes(terms.drop_last()).push(
                (count, sides, keep),
            ),
            _ => shapes(terms.drop_last()),
        }
    }
}

/// The convention that a single dice term stands for. A keep modifier does
/// not change what three six-sided dice, one twenty-sided or one
/// hundred-sided die stand for; two twenty-sided dice of which one is kept
/// count as one.
pub open spec fn system_of(count: nat, sides: int, keep: Option<Keep>) -> GameSystem {
    if count == 3 && sides == 6 {
        GameSystem::Gurps
    } else if count == 1 && sides == 20 {
        GameSystem::D20
    } else if count == 2 && sides == 20 && keep.is_some() && keep.unwrap().amount == 1 {
        GameSystem::D20
    } else if count == 1 && sides == 100 {
        GameSystem::D100
    } else {
        GameSystem::Plain
    }
}

/// The convention inferred from a term sequence: that of its dice term where
/// it has exactly one, none in particular otherwise.
pub open spec fn inferred_system(terms: Seq<TermView>) -> GameSystem {
    if shapes(terms).len() == 1 {
        system_of(shapes(terms)[0].0, shapes(terms)[0].1, shapes(terms)[0].2)
    } else {
        GameSystem::Plain
    }
}

/// The signed margin of a total against a target: target less total where
/// the convention rolls under, total less target where it rolls over.
pub open spec fn margin_of(system: GameSystem, total: int, target: int) -> int {
    match system {
        GameSystem::Gurps | GameSystem::D100 => target - total,
        GameSystem::D20 | GameSystem::Plain => total - target,
    }
}

/// Whether a total is a critical success under the three-dice convention.
pub open spec fn gurps_critical_success(total: int, target: int) -> bool {
    total < 5 || (target > 14 && total < 6) || (target > 15 && total < 7)
}

/// Whether a total is beyond plain failure under the three-dice convention:
/// a critical failure, or an automatic one.
pub open spec fn gurps_beyond_failure(total: int, target: int) -> bool {
    !gurps_critical_success(total, target) && (total > 16 || target - total <= -10)
}

/// The result of holding `total` against `target` under `system`.
pub open spec fn resolved(system: GameSystem, total: int, target: int) -> Outcome {
    let margin = margin_of(system, total, target) as i128;
    match system {
        GameSystem::Gurps => {
            if gurps_critical_success(total, target) {
                Outcome { success: true, margin, critical: Some(Critical::Success) }
            } else if gurps_beyond_failure(total, target) {
                if target > 15 && total == 17 {
                    Outcome { success: false, margin, critical: Some(Critical::AutomaticFailure) }
                } else {
                    Outcome { success: false, margin, critical: Some(Critical::Failure) }
                }
            } else {
                Outcome { success: margin >= 0, margin, critical: None }
            }
        },
        _ => Outcome { success: margin >= 0, margin, critical: None },
    }
}

/// Holds a total against a target under the given convention.
pub fn resolve(system: GameSystem, total: i64, target: i64) -> (r: Outcome)
    ensures
        r == resolved(system, total as int, target as int),
        r.margin == margin_of(system, total as int, target as int),
{
    let total_wide: i128 = total as i128;
    let target_wide: i128 = target as i128;
    match system {
        GameSystem::Gurps => {
            let margin: i128 = target_wide - total_wide;
            if total < 5 || (target > 14 && total < 6) || (target > 15 && total < 7) {
                Outcome { success: true, margin, critical: Some(Critical::Success) }
            } else if total > 16 || margin <= -10 {
                if target > 15 && total == 17 {
                    Outcome { success: false, margin, critical: Some(Critical::AutomaticFailure) }
                } else {
                    Outcome { success: false, margin, critical: Some(Critical::Failure) }
                }
            } else {
                Outcome { success: margin >= 0, margin, critical: None }
            }
        },
        GameSystem::D100 => {
            let margin: i128 = target_wide - total_wide;
            Outcome { success: margin >= 0, margin, critical: None }
        },
        GameSystem::D20 | GameSystem::Plain => {
            let margin: i128 = total_wide - target_wide;
            Outcome { success: margin >= 0, margin, critical: None }
        },
    }
}

/// Under the three-dice convention a total of 4 or less is a critical
/// success against any target, and so is a total of 5 against a target of 15
/// or more.
pub proof fn lemma_gurps_low_total(total: int, target: int)
    requires
        total <= 5,
        total < 5 || target > 14,
    ensures
        resolved(GameSystem::Gurps, total, target).critical == Some(Critical::Success),
        resolved(GameSystem::Gurps, total, target).success,
{
}

/// Under the three-dice convention a total of 17 against a target above 15
/// is an automatic failure, not a critical one.
pub proof fn lemma_gurps_seventeen(total: int, target: int)
    requires
        total == 17,
        target > 15,
    ensures
        resolved(GameSystem::Gurps, total, target).critical == Some(Critical::AutomaticFailure),
        !resolved(GameSystem::Gurps, total, target).success,
{
}

/// Under the three-dice convention any other total above 16 is a critical
/// failure.
pub proof fn lemma_gurps_high_total(total: int, target: int)
    requires
        total > 16,
        !(total == 17 && target > 15),
    ensures
        resolved(GameSystem::Gurps, total, target).critical == Some(Critical::Failure),
        !resolved(GameSystem::Gurps, total, target).success,
{
}

/// Under the twenty-sided convention a roll succeeds exactly when it reaches
/// the target, and the margin is the roll less the target.
pub proof fn lemma_d20_roll_over(total: int, target: int)
    requires
        i64::MIN <= total <= i64::MAX,
        i64::MIN <= target <= i64::MAX,
    ensures
        resolved(GameSystem::D20, total, target).success == (total >= target),
        resolved(GameSystem::D20, total, target).margin == total - target,
        resolved(GameSystem::D20, total, target).critical.is_none(),
{
}

/// Under the hundred-sided convention a roll succeeds exactly when it does
/// not exceed the target, and the margin is the target less the roll.
pub proof fn lemma_d100_roll_under(total: int, target: int)
    requires
        i64::MIN <= total <= i64::MAX,
        i64::MIN <= target <= i64::MAX,
    ensures
        resolved(GameSystem::D100, total, target).success == (total <= target),
        resolved(GameSystem::D100, total, target).margin == target - total,
        resolved(GameSystem::D100, total, target).critical.is_none(),
{
}

/// The convention that one dice term stands for.
pub fn system_for(count: usize, sides: i64, keep: Option<Keep>) -> (r: GameSystem)
    ensures
        r == system_of(count as nat, sides as int, keep),
{
    if count == 3 && sides == 6 {
        GameSystem::Gurps
    } else if count == 1 && sides == 20 {
        GameSystem::D20
    } else if count == 2 && sides == 20 {
        match keep {
            Some(k) => if k.amount == 1 {
                GameSystem::D20
            } else {
                GameSystem::Plain
            },
            None => GameSystem::Plain,
        }
    } else if count == 1 && sides == 100 {
        GameSystem::D100
    } else {
        GameSystem::Plain
    }
}

/// Infers the convention from the dice of a term sequence.
pub fn infer_system(terms: &Vec<Term>) -> (r: GameSystem)
    ensures
        r == inferred_system(views(terms@)),
{
    let mut found: usize = 0;
    let mut system = GameSystem::Plain;
    let mut i: usize = 0;
    while i < terms.len()
        invariant
            0 <= i <= terms.len(),
            found <= i,
            found == 0 ==> shapes(views(terms@).subrange(0, i as int)).len() == 0,
            found == 1 ==> shapes(views(terms@).subrange(0, i as int)).len() == 1 && system
                == inferred_system(views(terms@).subrange(0, i as int)),
            found >= 2 ==> shapes(views(terms@).subrange(0, i as int)).len() >= 2,
        decreases terms.len() - i,
    {
        proof {
            let t = views(terms@).subrange(0, i as int + 1);
            assert(t.drop_last() =~= views(terms@).subrange(0, i as int));
            assert(t.last() == terms@[i as int]@);
        }
        match &terms[i] {
            Term::Dice { count, sides, keep } => {
                if found == 0 {
                    system = system_for(*count, *sides, *keep);
                }
                if found < 2 {
                    found = found + 1;
                }
            },
            _ => {},
        }
        i = i + 1;
    }
    assert(views(terms@).subrange(0, i as int) =~= views(terms@));
    if found == 1 {
        system
    } else {
        GameSystem::Plain
    }
}

} // verus!
