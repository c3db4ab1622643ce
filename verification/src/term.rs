//! The terms of a dice expression.

use crate::arith::{
    fits, lemma_wrap_range, quotient, rem, remainder, wrap, wrap_add, wrap_div, wrap_mul, wrap_pow,
    wrap_sub,
};
use crate::error::{ParseRollError, Rejection};
use vstd::arithmetic::power::pow;
use vstd::prelude::*;

verus! {

/// An arithmetic operator. It applies to the running total on its left and
/// the contribution on its right.
#[derive(Clone, Copy, Debug, PartialEq, Eq, Structural)]
pub enum Operator {
    Add,
    Sub,
    Mul,
    Div,
    Rem,
    Pow,
}

/// Which end of the sorted dice a keep modifier sums.
#[derive(Clone, Copy, Debug, PartialEq, Eq, Structural)]
pub enum KeepDirection {
    /// The highest values.
    Best,
    /// The lowest values.
    Worst,
}

/// A keep modifier: sum only `amount` of the dice, from one end.
#[derive(Clone, Copy, Debug, PartialEq, Eq, Structural)]
pub struct Keep {
    pub direction: KeepDirection,
    pub amount: usize,
}

/// One unit of a dice expression.
#[derive(Clone, Debug, PartialEq, Eq)]
pub enum Term {
    /// `count` dice of `sides` sides each, all summed or only those kept.
    Dice { count: usize, sides: i64, keep: Option<Keep> },
    /// A literal number.
    Number(i64),
    /// An operator, applied to the contribution that follows it.
    Operator(Operator),
    /// A skill check against `target`, with an optional name for the skill.
    Versus { target: i64, tag: Option<String> },
    /// A request for this many independent evaluations.
    Repeat(usize),
}

/// A `Term` with its text as a sequence of characters.
pub enum TermView {
    Dice { count: nat, sides: int, keep: Option<Keep> },
    Number(int),
    Operator(Operator),
    Versus { target: int, tag: Option<Seq<char>> },
    Repeat(nat),
}

/// The characters of an optional string.
pub open spec fn text_of(s: Option<String>) -> Option<Seq<char>> {
    match s {
        Some(t) => Some(t@),
        None => None,
    }
}

impl View for Term {
    type V = TermView;

    open spec fn view(&self) -> TermView {
        match *self {
            Term::Dice { count, sides, keep } => TermView::Dice {
                count: count as nat,
                sides: sides as int,
                keep,
            },
            Term::Number(n) => TermView::Number(n as int),
            Term::Operator(op) => TermView::Operator(op),
            Term::Versus { target, tag } => TermView::Versus {
                target: target as int,
                tag: text_of(tag),
            },
            Term::Repeat(n) => TermView::Repeat(n as nat),
        }
    }
}

impl TermView {
    /// A term that can be evaluated: a die has at least one side, and a
    /// repeat asks for at least one evaluation.
    pub open spec fn well_formed(self) -> bool {
        match self {
            TermView::Dice { sides, .. } => sides >= 1,
            TermView::Repeat(n) => n >= 1,
            _ => true,
        }
    }

    /// A term that takes part in the arithmetic: anything but a skill check
    /// or a repeat.
    pub open spec fn is_arithmetic(self) -> bool {
        !(self is Versus) && !(self is Repeat)
    }
}

/// The views of a sequence of terms.
pub open spec fn views(terms: Seq<Term>) -> Seq<TermView> {
    terms.map_values(|t: Term| t@)
}

/// Whether every term can be evaluated.
pub open spec fn all_well_formed(terms: Seq<TermView>) -> bool {
    forall|i: int| 0 <= i < terms.len() ==> (#[trigger] terms[i]).well_formed()
}

/// What an operator makes of a total and a contribution.
pub open spec fn apply(op: Operator, lhs: int, rhs: int) -> Result<int, Rejection> {
    match op {
        Operator::Add => Ok(wrap(lhs + rhs)),
        Operator::Sub => Ok(wrap(lhs - rhs)),
        Operator::Mul => Ok(wrap(lhs * rhs)),
        Operator::Div => if rhs == 0 {
            Err(Rejection::DivisionByZero)
        } else {
            Ok(wrap(quotient(lhs, rhs)))
        },
        Operator::Rem => if rhs == 0 {
            Err(Rejection::DivisionByZero)
        } else {
            Ok(remainder(lhs, rhs))
        },
        Operator::Pow => if rhs < 0 {
            Err(Rejection::InvalidExponent)
        } else {
            Ok(wrap(pow(lhs, rhs as nat)))
        },
    }
}

/// What an operator makes of a total and a contribution in unbounded
/// arithmetic. Division and remainder ask for a divisor other than zero,
/// power for an exponent of zero or more.
pub open spec fn exact(op: Operator, lhs: int, rhs: int) -> int {
    match op {
        Operator::Add => lhs + rhs,
        Operator::Sub => lhs - rhs,
        Operator::Mul => lhs * rhs,
        Operator::Div => quotient(lhs, rhs),
        Operator::Rem => remainder(lhs, rhs),
        Operator::Pow => pow(lhs, rhs as nat),
    }
}

/// Wherever the exact result fits 64 bits, it is the result: wrapping shows
/// only beyond that range.
pub proof fn lemma_apply_exact(op: Operator, lhs: int, rhs: int)
    requires
        op == Operator::Div || op == Operator::Rem ==> rhs != 0,
        op == Operator::Pow ==> rhs >= 0,
        fits(exact(op, lhs, rhs)),
    ensures
        apply(op, lhs, rhs) == Ok::<int, Rejection>(exact(op, lhs, rhs)),
{
    lemma_wrap_range(exact(op, lhs, rhs));
}

/// Whether an outcome of 64-bit arithmetic is the given ideal outcome.
pub open spec fn same_value(r: Result<i64, ParseRollError>, ideal: Result<int, Rejection>) -> bool {
    match r {
        Ok(v) => ideal == Ok::<int, Rejection>(v as int),
        Err(e) => ideal == Err::<int, Rejection>(e@),
    }
}

impl Operator {
    /// Applies the operator to a running total and a contribution.
    pub fn apply(self, lhs: i64, rhs: i64) -> (r: Result<i64, ParseRollError>)
        ensures
            same_value(r, apply(self, lhs as int, rhs as int)),
    {
        match self {
            Operator::Add => Ok(wrap_add(lhs, rhs)),
            Operator::Sub => Ok(wrap_sub(lhs, rhs)),
            Operator::Mul => Ok(wrap_mul(lhs, rhs)),
            Operator::Div => {
                if rhs == 0 {
                    Err(ParseRollError::DivisionByZero)
                } else {
                    Ok(wrap_div(lhs, rhs))
                }
            },
            Operator::Rem => {
                if rhs == 0 {
                    Err(ParseRollError::DivisionByZero)
                } else {
                    Ok(rem(lhs, rhs))
                }
            },
            Operator::Pow => {
                if rhs < 0 {
                    Err(ParseRollError::InvalidExponent)
                } else {
                    Ok(wrap_pow(lhs, rhs as u64))
                }
            },
        }
    }
}

impl Term {
    /// Whether this is a dice term.
    pub fn is_dice(&self) -> (r: bool)
        ensures
            r == (self@ is Dice),
    {
        match self {
            Term::Dice { .. } => true,
            _ => false,
        }
    }

    /// Whether this is a repeat clause.
    pub fn is_repeat(&self) -> (r: bool)
        ensures
            r == (self@ is Repeat),
    {
        match self {
            Term::Repeat(_) => true,
            _ => false,
        }
    }

    /// Whether this is a versus clause.
    pub fn is_versus(&self) -> (r: bool)
        ensures
            r == (self@ is Versus),
    {
        match self {
            Term::Versus { .. } => true,
            _ => false,
        }
    }

    /// Applies this term, an operator, to a running total and a
    /// contribution.
    pub fn op(&self, lhs: i64, rhs: i64) -> (r: Result<i64, ParseRollError>)
        requires
            self@ is Operator,
        ensures
            same_value(r, apply(self@->Operator_0, lhs as int, rhs as int)),
    {
        match self {
            Term::Operator(op) => op.apply(lhs, rhs),
            _ => Err(ParseRollError::EmptyExpression),
        }
    }

    /// A copy of this term.
    pub fn duplicate(&self) -> (r: Term)
        ensures
            r@ == self@,
    {
        match self {
            Term::Dice { count, sides, keep } => Term::Dice {
                count: *count,
                sides: *sides,
                keep: *keep,
            },
            Term::Number(n) => Term::Number(*n),
            Term::Operator(op) => Term::Operator(*op),
            Term::Versus { target, tag } => Term::Versus {
                target: *target,
                tag: match tag {
                    Some(t) => Some(t.clone()),
                    None => None,
                },
            },
            Term::Repeat(n) => Term::Repeat(*n),
        }
    }
}

} // verus!
