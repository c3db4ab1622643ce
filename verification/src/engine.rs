//! The engine's entry point: from the text of an expression to the text of
//! its rolls.

use crate::dice::RolledTerm;
use crate::error::{ParseRollError, Rejection};
use crate::expression::parsed;
use crate::render::rolls_text;
use crate::roll::{
    is_realization, is_roll_of, is_set_from, repeat_of, set_fails_from, source_after_rounds,
    total_of, with_default_dice, DiceRoll,
};
use crate::scan::Tokenizer;
use crate::source::DiceSource;
use crate::term::TermView;
use vstd::prelude::*;

verus! {

/// Whether `set` holds the evaluations that `terms` ask for: as many as
/// their repeat clause says, one where they hold none, each an evaluation of
/// the terms with dice put in where they name none.
pub open spec fn is_set_of(set: DiceRoll, terms: Seq<TermView>) -> bool {
    &&& set.rolls@.len() == repeat_of(terms)
    &&& forall|i: int|
        0 <= i < set.rolls@.len() ==> is_roll_of(#[trigger] set.rolls@[i], with_default_dice(terms))
}

/// Whether `outcome` can come of evaluating `expression`. An expression that
/// does not parse has the failure of its parsing for its one outcome. One
/// that parses has for outcomes the text of every set of evaluations of its
/// terms, and every failure that values rolled for them lead to.
pub open spec fn evaluates_to(expression: Seq<char>, outcome: Result<Seq<char>, Rejection>)
    -> bool {
    match parsed(expression) {
        Err(e) => outcome == Err::<Seq<char>, Rejection>(e),
        Ok(terms) => match outcome {
            Ok(text) => exists|set: DiceRoll|
                is_set_of(set, terms) && text == #[trigger] rolls_text(set.rolls@),
            Err(f) => exists|rolled: Seq<RolledTerm>|
                is_realization(with_default_dice(terms), rolled) && #[trigger] total_of(rolled)
                    == Err::<int, Rejection>(f),
        },
    }
}

/// Whether `outcome` comes of evaluating `expression` with a source that
/// starts in the state `before`, and leaves the source in the state `after`.
/// An expression that does not parse has the failure of its parsing for
/// outcome, and the source is not asked. One that parses is evaluated as
/// often as it asks, each time from the state that the evaluation before
/// left: the outcome is the text of those evaluations, or the failure of the
/// first that fails, after which the source is asked no further. For a
/// seeded source this fixes the outcome.
pub open spec fn evaluates_from(
    expression: Seq<char>,
    outcome: Result<Seq<char>, Rejection>,
    before: Option<Seq<u32>>,
    after: Option<Seq<u32>>,
) -> bool {
    match parsed(expression) {
        Err(e) => outcome == Err::<Seq<char>, Rejection>(e) && after == before,
        Ok(terms) => match outcome {
            Ok(text) => {
                &&& exists|set: DiceRoll|
                    is_set_from(set.rolls@, terms, before) && text == #[trigger] rolls_text(
                        set.rolls@,
                    )
                &&& after == source_after_rounds(
                    with_default_dice(terms),
                    before,
                    repeat_of(terms),
                )
            },
            Err(f) => set_fails_from(f, terms, before, after),
        },
    }
}

/// The outcome of an evaluation with its texts as sequences of characters.
pub open spec fn outcome_of(r: Result<String, ParseRollError>) -> Result<Seq<char>, Rejection> {
    match r {
        Ok(text) => Ok(text@),
        Err(e) => Err(e@),
    }
}

/// Evaluates an expression and renders its rolls, one line per roll.
///
/// An expression that does not parse is refused with the failure of its
/// parsing, and the source is left as it was. One that parses is rolled
/// from the source: whatever the dice show, the text is that of a set of
/// evaluations of its terms, or the failure is the one that the values
/// rolled lead to. With a seeded source the values, and so the outcome, are
/// those that its state fixes.
pub fn evaluate(tokenizer: &Tokenizer, source: &mut DiceSource, expression: &str) -> (r: Result<
    String,
    ParseRollError,
>)
    ensures
        evaluates_to(expression@, outcome_of(r)),
        evaluates_from(
            expression@,
            outcome_of(r),
            old(source).state(),
            final(source).state(),
        ),
{
    match tokenizer.parse(expression) {
        Err(e) => Err(e),
        Ok(terms) => match DiceRoll::new(terms, source) {
            Err(e) => Err(e),
            Ok(set) => {
                let text = set.to_string();
                assert(is_set_of(set, parsed(expression@)->Ok_0));
                assert(is_set_from(set.rolls@, parsed(expression@)->Ok_0, old(source).state()));
                Ok(text)
            },
        },
    }
}

} // verus!
