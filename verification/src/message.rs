//! A roll command as a whole: several expressions in one message, and a
//! comment behind them.

use crate::engine::{evaluate, evaluates_from, evaluates_to, outcome_of};
use crate::error::Rejection;
use crate::parse::{find_either, position};
use crate::scan::Tokenizer;
use crate::source::DiceSource;
use crate::text::{chars_of, slice, string_of, trim, trimmed};
use vstd::prelude::*;
use vstd::string::StringExecFns;

verus! {

/// What a roll command is answered with: the lines of its rolls, and its
/// comment if it has one.
#[derive(Clone, Debug, PartialEq, Eq)]
pub struct RollReply {
    pub rolls: String,
    pub comment: Option<String>,
}

/// The part of a message that holds its expressions: all that stands before
/// the first `#`.
pub open spec fn expressions_in(input: Seq<char>) -> Seq<char> {
    input.subrange(0, find_either(input, '#', '#'))
}

/// The comment of a message: what follows the first `#`, without the blanks
/// at its ends; none where the message has no `#`.
pub open spec fn comment_in(input: Seq<char>) -> Option<Seq<char>> {
    let at = find_either(input, '#', '#');
    if at < input.len() {
        Some(trimmed(input.subrange(at + 1, input.len() as int)))
    } else {
        None
    }
}

/// What separates one expression from the next: a semicolon or a line feed.
pub open spec fn is_separator(c: char) -> bool {
    c == ';' || c == '\n'
}

/// The pieces that the separators cut a text into, in order. There is one
/// piece more than there are separators, and a piece may be empty.
pub open spec fn pieces(s: Seq<char>) -> Seq<Seq<char>>
    decreases s.len(),
{
    if s.len() == 0 {
        seq![Seq::empty()]
    } else if is_separator(s.last()) {
        pieces(s.drop_last()).push(Seq::empty())
    } else {
        pieces(s.drop_last()).drop_last().push(pieces(s.drop_last()).last().push(s.last()))
    }
}

/// The expression that a piece stands for: three six-sided dice where it is
/// empty, itself otherwise.
pub open spec fn expression_of(piece: Seq<char>) -> Seq<char> {
    if piece.len() == 0 {
        "3d6"@
    } else {
        piece
    }
}

/// The texts of the outcomes that are no failures, each behind a line feed
/// but the first.
pub open spec fn successes(outcomes: Seq<Result<Seq<char>, Rejection>>) -> Seq<char>
    decreases outcomes.len(),
{
    if outcomes.len() == 0 {
        Seq::empty()
    } else {
        match outcomes.last() {
            Err(_) => successes(outcomes.drop_last()),
            Ok(text) => if any_success(outcomes.drop_last()) {
                successes(outcomes.drop_last()) + "\n"@ + text
            } else {
                text
            },
        }
    }
}

/// Whether one of the outcomes is no failure.
pub open spec fn any_success(outcomes: Seq<Result<Seq<char>, Rejection>>) -> bool {
    exists|i: int| 0 <= i < outcomes.len() && (#[trigger] outcomes[i]).is_ok()
}

/// Whether `outcomes` can come of evaluating the pieces of `text`, one
/// after the other.
pub open spec fn are_outcomes_of(outcomes: Seq<Result<Seq<char>, Rejection>>, text: Seq<char>)
    -> bool {
    &&& outcomes.len() == pieces(text).len()
    &&& forall|i: int|
        0 <= i < outcomes.len() ==> evaluates_to(
            expression_of(pieces(text)[i]),
            #[trigger] outcomes[i],
        )
}

/// Whether `outcomes` come of evaluating the pieces of `text` one after
/// the other with a source that passes through the given states: it starts
/// in the first, every piece is evaluated from the state that the piece
/// before it left, and the last state is the one it ends in.
pub open spec fn are_outcomes_from(
    outcomes: Seq<Result<Seq<char>, Rejection>>,
    text: Seq<char>,
    states: Seq<Option<Seq<u32>>>,
) -> bool {
    &&& outcomes.len() == pieces(text).len()
    &&& states.len() == pieces(text).len() + 1
    &&& forall|i: int|
        0 <= i < outcomes.len() ==> evaluates_from(
            expression_of(pieces(text)[i]),
            #[trigger] outcomes[i],
            states[i],
            states[i + 1],
        )
}

/// Whether `text` comes of evaluating the pieces of `expressions` one after
/// the other with a source that starts in the state `before`, and leaves
/// the source in the state `after`: it holds the lines of the pieces that
/// did not fail.
pub open spec fn rolls_from(
    expressions: Seq<char>,
    text: Seq<char>,
    before: Option<Seq<u32>>,
    after: Option<Seq<u32>>,
) -> bool {
    exists|outcomes: Seq<Result<Seq<char>, Rejection>>, states: Seq<Option<Seq<u32>>>|
        {
            &&& are_outcomes_of(outcomes, expressions)
            &&& #[trigger] are_outcomes_from(outcomes, expressions, states)
            &&& states[0] == before
            &&& states.last() == after
            &&& text == successes(outcomes)
        }
}

/// Where every outcome is a failure, no text is left.
pub proof fn lemma_no_success_no_text(outcomes: Seq<Result<Seq<char>, Rejection>>)
    requires
        !any_success(outcomes),
    ensures
        successes(outcomes).len() == 0,
    decreases outcomes.len(),
{
    if outcomes.len() > 0 {
        assert(outcomes[outcomes.len() - 1].is_err());
        assert forall|i: int| 0 <= i < outcomes.drop_last().len() implies !(
        #[trigger] outcomes.drop_last()[i]).is_ok() by {
            assert(outcomes[i].is_err());
        }
        lemma_no_success_no_text(outcomes.drop_last());
    }
}

/// Cuts a text at its separators.
pub fn split_expressions(text: &Vec<char>) -> (r: Vec<Vec<char>>)
    ensures
        r@.len() == pieces(text@).len(),
        forall|i: int| 0 <= i < r@.len() ==> (#[trigger] r@[i])@ == pieces(text@)[i],
{
    let mut done: Vec<Vec<char>> = Vec::new();
    let mut current: Vec<char> = Vec::new();
    let mut i: usize = 0;
    while i < text.len()
        invariant
            0 <= i <= text.len(),
            pieces(text@.subrange(0, i as int)).len() == done@.len() + 1,
            forall|k: int|
                0 <= k < done@.len() ==> (#[trigger] done@[k])@ == pieces(
                    text@.subrange(0, i as int),
                )[k],
            current@ == pieces(text@.subrange(0, i as int)).last(),
        decreases text.len() - i,
    {
        proof {
            let t = text@.subrange(0, i as int + 1);
            assert(t.drop_last() =~= text@.subrange(0, i as int));
            assert(t.last() == text@[i as int]);
        }
        let c = text[i];
        if c == ';' || c == '\n' {
            done.push(current);
            current = Vec::new();
        } else {
            current.push(c);
        }
        i = i + 1;
    }
    assert(text@.subrange(0, i as int) =~= text@);
    done.push(current);
    done
}

/// Parts a message into its expressions and its comment.
pub fn split_comment(input: &str) -> (r: (String, Option<String>))
    ensures
        r.0@ == expressions_in(input@),
        crate::term::text_of(r.1) == comment_in(input@),
{
    let chars = chars_of(input);
    let at = position(&chars, '#', '#');
    let expressions = string_of(&slice(&chars, 0, at));
    if at < chars.len() {
        let len = chars.len();
        let comment = trim(&slice(&chars, at + 1, len));
        (expressions, Some(string_of(&comment)))
    } else {
        (expressions, None)
    }
}

/// Evaluates each expression of a text, one after the other from the same
/// source, and gives the lines of those that did not fail. An empty piece
/// stands for three six-sided dice.
pub fn roll_all(tokenizer: &Tokenizer, source: &mut DiceSource, text: &str) -> (r: String)
    ensures
        rolls_from(text@, r@, old(source).state(), final(source).state()),
{
    let ghost started = source.state();
    let ghost mut states: Seq<Option<Seq<u32>>> = seq![source.state()];
    let parts = split_expressions(&chars_of(text));
    let mut out = String::new();
    let mut some = false;
    let ghost mut outcomes: Seq<Result<Seq<char>, Rejection>> = Seq::empty();
    let mut i: usize = 0;
    while i < parts.len()
        invariant
            0 <= i <= parts.len(),
            parts@.len() == pieces(text@).len(),
            forall|k: int| 0 <= k < parts@.len() ==> (#[trigger] parts@[k])@ == pieces(text@)[k],
            outcomes.len() == i,
            forall|k: int|
                0 <= k < i ==> evaluates_to(expression_of(pieces(text@)[k]), #[trigger] outcomes[k]),
            some == any_success(outcomes),
            out@ == successes(outcomes),
            states.len() == i + 1,
            states[0] == started,
            states.last() == source.state(),
            forall|k: int|
                0 <= k < i ==> evaluates_from(
                    expression_of(pieces(text@)[k]),
                    #[trigger] outcomes[k],
                    states[k],
                    states[k + 1],
                ),
        decreases parts.len() - i,
    {
        let ghost between = source.state();
        let result = if parts[i].len() == 0 {
            evaluate(tokenizer, source, "3d6")
        } else {
            let piece = string_of(&parts[i]);
            evaluate(tokenizer, source, piece.as_str())
        };
        let ghost before = outcomes;
        let ghost text_before = out@;
        proof {
            outcomes = outcomes.push(outcome_of(result));
            assert(outcomes.drop_last() =~= before);
            assert(outcomes.last() == outcome_of(result));
            assert(parts@[i as int]@ == pieces(text@)[i as int]);
            assert(evaluates_from(
                expression_of(pieces(text@)[i as int]),
                outcomes[i as int],
                between,
                source.state(),
            ));
            let passed = states;
            states = states.push(source.state());
            assert forall|k: int| 0 <= k < i + 1 implies evaluates_from(
                expression_of(pieces(text@)[k]),
                #[trigger] outcomes[k],
                states[k],
                states[k + 1],
            ) by {
                if k < i {
                    assert(outcomes[k] == before[k]);
                    assert(states[k] == passed[k]);
                    assert(states[k + 1] == passed[k + 1]);
                }
            }
        }
        match result {
            Ok(line) => {
                if some {
                    out.append("\n");
                }
                out.append(line.as_str());
                proof {
                    assert(outcomes[i as int].is_ok());
                    assert(outcomes.last() == Ok::<Seq<char>, Rejection>(line@));
                    assert(text_before == successes(outcomes.drop_last()));
                    if some {
                        assert(out@ =~= text_before + "\n"@ + line@);
                    } else {
                        assert(text_before =~= Seq::<char>::empty()) by {
                            lemma_no_success_no_text(before);
                        }
                        assert(out@ =~= line@);
                    }
                    assert(out@ =~= successes(outcomes));
                }
                some = true;
            },
            Err(_) => {
                proof {
                    assert(outcomes.last().is_err());
                    if any_success(outcomes) {
                        let w = choose|w: int| 0 <= w < outcomes.len() && (#[trigger] outcomes[w]).is_ok();
                        assert(before[w].is_ok());
                    }
                    if any_success(before) {
                        let w = choose|w: int| 0 <= w < before.len() && (#[trigger] before[w]).is_ok();
                        assert(outcomes[w].is_ok());
                    }
                }
            },
        }
        i = i + 1;
    }
    assert(are_outcomes_of(outcomes, text@));
    assert(are_outcomes_from(outcomes, text@, states));
    out
}

/// Answers a roll command: evaluates the expressions that stand before the
/// first `#`, one after the other from the same source, and hands back
/// their lines with the comment behind it.
pub fn reply_to(tokenizer: &Tokenizer, source: &mut DiceSource, input: &str) -> (r: RollReply)
    ensures
        crate::term::text_of(r.comment) == comment_in(input@),
        rolls_from(expressions_in(input@), r.rolls@, old(source).state(), final(source).state()),
{
    let (expressions, comment) = split_comment(input);
    let rolls = roll_all(tokenizer, source, expressions.as_str());
    RollReply { rolls, comment }
}

} // verus!
