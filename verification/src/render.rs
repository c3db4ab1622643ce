//! The formatter: rolls as lines of text.

use crate::dice::RolledTerm;
use crate::number::{decimal, padded, push_decimal, push_digits, push_padded};
use crate::roll::{Check, DiceRoll, Roll};
use crate::skill::{resolve, resolved, Critical, Outcome};
use crate::term::{text_of, Keep, KeepDirection, Operator, Term, TermView};
use vstd::prelude::*;
use vstd::string::StringExecFns;

verus! {

/// The symbol that an operator is written with.
pub open spec fn symbol_of(op: Operator) -> Seq<char> {
    match op {
        Operator::Add => "+"@,
        Operator::Sub => "-"@,
        Operator::Mul => "×"@,
        Operator::Div => "/"@,
        Operator::Rem => "%"@,
        Operator::Pow => "^"@,
    }
}

/// A keep modifier as written behind its dice: `b` or `w`, then the amount.
pub open spec fn keep_text(keep: Option<Keep>) -> Seq<char> {
    match keep {
        None => Seq::empty(),
        Some(k) => match k.direction {
            KeepDirection::Best => "b"@ + decimal(k.amount as int),
            KeepDirection::Worst => "w"@ + decimal(k.amount as int),
        },
    }
}

/// Values separated by a comma and a space.
pub open spec fn listed(values: Seq<i64>) -> Seq<char>
    decreases values.len(),
{
    if values.len() == 0 {
        Seq::empty()
    } else if values.len() == 1 {
        decimal(values[0] as int)
    } else {
        listed(values.drop_last()) + ", "@ + decimal(values.last() as int)
    }
}

/// The realized values of a dice term, in square brackets; nothing where
/// there are none.
pub open spec fn values_text(values: Seq<i64>) -> Seq<char> {
    if values.len() == 0 {
        Seq::empty()
    } else {
        "["@ + listed(values) + "]"@
    }
}

/// A term in dice notation: dice as count, `d`, sides and keep modifier; a
/// number as its value; an operator as its symbol. A versus or repeat
/// clause has no notation of its own.
pub open spec fn notation_of(term: TermView) -> Seq<char> {
    match term {
        TermView::Dice { count, sides, keep } => decimal(count as int) + "d"@ + decimal(sides)
            + keep_text(keep),
        TermView::Number(n) => decimal(n),
        TermView::Operator(op) => symbol_of(op),
        _ => Seq::empty(),
    }
}

/// One realized term as it shows in a line, with the space that follows it:
/// dice in their notation and with their values; a number or an operator in
/// its notation. A versus or repeat clause does not show.
pub open spec fn term_text(term: TermView, values: Seq<i64>) -> Seq<char> {
    match term {
        TermView::Dice { .. } => notation_of(term) + values_text(values) + " "@,
        TermView::Number(_) | TermView::Operator(_) => notation_of(term) + " "@,
        _ => Seq::empty(),
    }
}

/// The realized terms of a line, in order.
pub open spec fn terms_text(rolled: Seq<RolledTerm>) -> Seq<char>
    decreases rolled.len(),
{
    if rolled.len() == 0 {
        Seq::empty()
    } else {
        terms_text(rolled.drop_last()) + term_text(rolled.last().term@, rolled.last().values@)
    }
}

/// The size of a margin, whatever its sign.
pub open spec fn magnitude(margin: int) -> int {
    if margin < 0 {
        -margin
    } else {
        margin
    }
}

/// The words for the result of a skill check, up to the closing bracket.
pub open spec fn outcome_text(outcome: Outcome) -> Seq<char> {
    match outcome.critical {
        Some(Critical::Success) => "Critical Success, Margin of "@ + decimal(outcome.margin as int)
            + ")"@,
        Some(Critical::AutomaticFailure) => "Automatic Failure, Margin of "@ + decimal(
            outcome.margin as int,
        ) + ")"@,
        Some(Critical::Failure) => "Critical Failure, Margin of "@ + decimal(
            magnitude(outcome.margin as int),
        ) + ")"@,
        None => if outcome.success {
            "Success by "@ + decimal(outcome.margin as int) + ")"@
        } else {
            "Failure by "@ + decimal(magnitude(outcome.margin as int)) + ")"@
        },
    }
}

/// The tag of a skill check as it shows before the target: the tag and a
/// space, or nothing.
pub open spec fn tag_text(tag: Option<Seq<char>>) -> Seq<char> {
    match tag {
        Some(t) => t + " "@,
        None => Seq::empty(),
    }
}

/// The end of a line: the total alone, or the total held against the target
/// with the result of the skill check.
pub open spec fn total_text(total: int, versus: Option<Check>) -> Seq<char> {
    match versus {
        None => "(Total: "@ + decimal(total) + ")"@,
        Some(check) => "(Total: "@ + padded(decimal(total), 2) + " vs "@ + tag_text(
            text_of(check.tag),
        ) + decimal(check.target as int) + ": "@ + outcome_text(
            resolved(check.system, total, check.target as int),
        ),
    }
}

/// The line that shows one roll.
pub open spec fn roll_text(roll: Roll) -> Seq<char> {
    terms_text(roll.terms@) + total_text(roll.total as int, roll.versus)
}

/// The lines that show the rolls, one per roll, separated by line feeds.
pub open spec fn rolls_text(rolls: Seq<Roll>) -> Seq<char>
    decreases rolls.len(),
{
    if rolls.len() == 0 {
        Seq::empty()
    } else if rolls.len() == 1 {
        roll_text(rolls[0])
    } else {
        rolls_text(rolls.drop_last()) + "\n"@ + roll_text(rolls.last())
    }
}

/// Appends the realized values of a dice term.
fn push_values(out: &mut String, values: &Vec<i64>)
    ensures
        final(out)@ == old(out)@ + values_text(values@),
{
    if values.len() == 0 {
        assert(out@ =~= old(out)@ + values_text(values@));
        return ;
    }
    out.append("[");
    push_decimal(out, values[0] as i128);
    let mut i: usize = 1;
    assert(values@.subrange(0, 1) =~= seq![values@[0]]);
    while i < values.len()
        invariant
            1 <= i <= values.len(),
            out@ == old(out)@ + "["@ + listed(values@.subrange(0, i as int)),
        decreases values.len() - i,
    {
        proof {
            let t = values@.subrange(0, i as int + 1);
            assert(t.drop_last() =~= values@.subrange(0, i as int));
            assert(t.last() == values@[i as int]);
        }
        out.append(", ");
        push_decimal(out, values[i] as i128);
        assert(out@ =~= old(out)@ + "["@ + listed(values@.subrange(0, i as int + 1)));
        i = i + 1;
    }
    assert(values@.subrange(0, i as int) =~= values@);
    out.append("]");
    assert(out@ =~= old(out)@ + values_text(values@));
}

/// Appends a term in dice notation.
fn push_notation(out: &mut String, term: &Term)
    ensures
        final(out)@ == old(out)@ + notation_of(term@),
{
    match term {
        Term::Dice { count, sides, keep } => {
            push_decimal(out, *count as i128);
            out.append("d");
            push_decimal(out, *sides as i128);
            match keep {
                Some(k) => {
                    match k.direction {
                        KeepDirection::Best => out.append("b"),
                        KeepDirection::Worst => out.append("w"),
                    }
                    push_decimal(out, k.amount as i128);
                },
                None => {},
            }
            assert(out@ =~= old(out)@ + notation_of(term@));
        },
        Term::Number(n) => {
            push_decimal(out, *n as i128);
        },
        Term::Operator(op) => {
            match op {
                Operator::Add => out.append("+"),
                Operator::Sub => out.append("-"),
                Operator::Mul => out.append("×"),
                Operator::Div => out.append("/"),
                Operator::Rem => out.append("%"),
                Operator::Pow => out.append("^"),
            }
        },
        _ => {
            assert(out@ =~= old(out)@ + notation_of(term@));
        },
    }
}

/// Appends one realized term as it shows in a line.
fn push_term(out: &mut String, rolled: &RolledTerm)
    ensures
        final(out)@ == old(out)@ + term_text(rolled.term@, rolled.values@),
{
    match &rolled.term {
        Term::Dice { .. } => {
            push_notation(out, &rolled.term);
            push_values(out, &rolled.values);
            out.append(" ");
            assert(out@ =~= old(out)@ + term_text(rolled.term@, rolled.values@));
        },
        Term::Number(_) | Term::Operator(_) => {
            push_notation(out, &rolled.term);
            out.append(" ");
            assert(out@ =~= old(out)@ + term_text(rolled.term@, rolled.values@));
        },
        _ => {
            assert(out@ =~= old(out)@ + term_text(rolled.term@, rolled.values@));
        },
    }
}

impl Term {
    /// The term in dice notation.
    pub fn to_string(&self) -> (r: String)
        ensures
            r@ == notation_of(self@),
    {
        let mut out = String::new();
        push_notation(&mut out, self);
        assert(out@ =~= notation_of(self@));
        out
    }
}

/// Appends the words for the result of a skill check.
fn push_outcome(out: &mut String, outcome: Outcome)
    ensures
        final(out)@ == old(out)@ + outcome_text(outcome),
{
    let size: u128 = if outcome.margin < 0 {
        if outcome.margin == i128::MIN {
            0x8000_0000_0000_0000_0000_0000_0000_0000u128
        } else {
            (-outcome.margin) as u128
        }
    } else {
        outcome.margin as u128
    };
    assert(size as int == magnitude(outcome.margin as int));
    match outcome.critical {
        Some(Critical::Success) => {
            out.append("Critical Success, Margin of ");
            push_decimal(out, outcome.margin);
        },
        Some(Critical::AutomaticFailure) => {
            out.append("Automatic Failure, Margin of ");
            push_decimal(out, outcome.margin);
        },
        Some(Critical::Failure) => {
            out.append("Critical Failure, Margin of ");
            push_digits(out, size);
        },
        None => {
            if outcome.success {
                out.append("Success by ");
                push_decimal(out, outcome.margin);
            } else {
                out.append("Failure by ");
                push_digits(out, size);
            }
        },
    }
    out.append(")");
    assert(out@ =~= old(out)@ + outcome_text(outcome));
}

impl Roll {
    /// The line that shows this roll: its terms with their realized values,
    /// then the total and, where a skill check is attached, its tag, target
    /// and result.
    pub fn to_string(&self) -> (r: String)
        ensures
            r@ == roll_text(*self),
    {
        let mut out = String::new();
        let mut i: usize = 0;
        assert(out@ =~= terms_text(self.terms@.subrange(0, 0)));
        while i < self.terms.len()
            invariant
                0 <= i <= self.terms.len(),
                out@ == terms_text(self.terms@.subrange(0, i as int)),
            decreases self.terms.len() - i,
        {
            proof {
                let t = self.terms@.subrange(0, i as int + 1);
                assert(t.drop_last() =~= self.terms@.subrange(0, i as int));
                assert(t.last() == self.terms@[i as int]);
            }
            push_term(&mut out, &self.terms[i]);
            i = i + 1;
        }
        assert(self.terms@.subrange(0, i as int) =~= self.terms@);
        out.append("(Total: ");
        match &self.versus {
            None => {
                push_decimal(&mut out, self.total as i128);
                out.append(")");
            },
            Some(check) => {
                push_padded(&mut out, self.total as i128, 2);
                out.append(" vs ");
                match &check.tag {
                    Some(tag) => {
                        out.append(tag.as_str());
                        out.append(" ");
                    },
                    None => {},
                }
                push_decimal(&mut out, check.target as i128);
                out.append(": ");
                assert(out@ =~= terms_text(self.terms@) + "(Total: "@ + padded(
                    decimal(self.total as int),
                    2,
                ) + " vs "@ + tag_text(text_of(check.tag)) + decimal(check.target as int) + ": "@);
                push_outcome(&mut out, resolve(check.system, self.total, check.target));
            },
        }
        assert(out@ =~= roll_text(*self));
        out
    }
}

impl DiceRoll {
    /// The lines that show the rolls, one per roll.
    pub fn to_string(&self) -> (r: String)
        ensures
            r@ == rolls_text(self.rolls@),
    {
        let mut out = String::new();
        if self.rolls.len() == 0 {
            assert(out@ =~= rolls_text(self.rolls@));
            return out;
        }
        let first = self.rolls[0].to_string();
        out.append(first.as_str());
        assert(self.rolls@.subrange(0, 1) =~= seq![self.rolls@[0]]);
        assert(out@ =~= rolls_text(self.rolls@.subrange(0, 1)));
        let mut i: usize = 1;
        while i < self.rolls.len()
            invariant
                1 <= i <= self.rolls.len(),
                out@ == rolls_text(self.rolls@.subrange(0, i as int)),
            decreases self.rolls.len() - i,
        {
            proof {
                let t = self.rolls@.subrange(0, i as int + 1);
                assert(t.drop_last() =~= self.rolls@.subrange(0, i as int));
                assert(t.last() == self.rolls@[i as int]);
            }
            out.append("\n");
            let line = self.rolls[i].to_string();
            out.append(line.as_str());
            i = i + 1;
        }
        assert(self.rolls@.subrange(0, i as int) =~= self.rolls@);
        out
    }
}

} // verus!
