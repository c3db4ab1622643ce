//! Parsing a whole expression: tokens to terms, in order.

use crate::arith::{wrap, wrap_sub};
use crate::error::{ParseRollError, Rejection};
use crate::number::{all_digits, lemma_digits_value_nonnegative};
use crate::parse::{build_term, find_either, has_versus_shape, term_from};
use crate::scan::{tag_in, target_in, tokens_of, Tokenizer};
use crate::skill::inferred_system;
use crate::term::{all_well_formed, views, Operator, Term, TermView};
use crate::text::normalized;
use vstd::prelude::*;

verus! {

/// The term that a token spells, with tag and target as the grammar captures
/// them in it.
pub open spec fn token_term(token: Seq<char>) -> Result<TermView, Rejection> {
    term_from(token, tag_in(token), target_in(token))
}

/// The terms that the tokens spell, in order; the failure of the first token
/// that spells none.
pub open spec fn built(tokens: Seq<Seq<char>>) -> Result<Seq<TermView>, Rejection>
    decreases tokens.len(),
{
    if tokens.len() == 0 {
        Ok(Seq::empty())
    } else {
        match built(tokens.drop_last()) {
            Err(e) => Err(e),
            Ok(terms) => match token_term(tokens.last()) {
                Ok(t) => Ok(terms.push(t)),
                Err(e) => Err(e),
            },
        }
    }
}

/// Whether the last term is a number that takes the minus sign before it: it
/// does where that sign itself follows an operator, so that it cannot be a
/// subtraction.
pub open spec fn takes_sign(terms: Seq<TermView>) -> bool {
    &&& terms.len() >= 3
    &&& terms.last() is Number
    &&& terms[terms.len() - 2] == TermView::Operator(Operator::Sub)
    &&& terms[terms.len() - 3] is Operator
}

/// The terms with each minus sign that cannot be a subtraction taken into
/// the number after it.
pub open spec fn with_signs(terms: Seq<TermView>) -> Seq<TermView>
    decreases terms.len(),
{
    if terms.len() == 0 {
        Seq::empty()
    } else if takes_sign(terms) {
        with_signs(terms.drop_last()).drop_last().push(
            TermView::Number(wrap(-(terms.last()->Number_0))),
        )
    } else {
        with_signs(terms.drop_last()).push(terms.last())
    }
}

/// The terms of an expression: those that its tokens spell, with signs taken
/// into numbers. An expression without a single term is refused.
pub open spec fn parsed(text: Seq<char>) -> Result<Seq<TermView>, Rejection> {
    match built(tokens_of(text)) {
        Err(e) => Err(e),
        Ok(terms) => if terms.len() == 0 {
            Err(Rejection::EmptyExpression)
        } else {
            Ok(with_signs(terms))
        },
    }
}

/// The texts of a sequence of strings.
pub open spec fn texts(tokens: Seq<String>) -> Seq<Seq<char>> {
    tokens.map_values(|s: String| s@)
}

/// Whether parsed terms, or the failure to parse, are the given ideal
/// outcome.
pub open spec fn same_terms(
    r: Result<Vec<Term>, ParseRollError>,
    ideal: Result<Seq<TermView>, Rejection>,
) -> bool {
    match r {
        Ok(terms) => ideal == Ok::<Seq<TermView>, Rejection>(views(terms@)),
        Err(e) => ideal == Err::<Seq<TermView>, Rejection>(e@),
    }
}

/// Every term that a token spells can be evaluated.
pub proof fn lemma_term_well_formed(
    token: Seq<char>,
    tag: Option<Seq<char>>,
    target: Option<Seq<char>>,
)
    ensures
        term_from(token, tag, target) matches Ok(t) ==> t.well_formed(),
{
    let n = normalized(token);
    let at = find_either(n, 'd', 'd');
    let rest = n.subrange(at + 1, n.len() as int);
    let sides_text = rest.subrange(0, find_either(rest, 'b', 'w'));
    if all_digits(sides_text) {
        lemma_digits_value_nonnegative(sides_text);
    }
}

/// A token that spells no term ends the building of all that follow.
pub proof fn lemma_build_failure_is_final(tokens: Seq<Seq<char>>, n: int)
    requires
        0 <= n <= tokens.len(),
        built(tokens.subrange(0, n)).is_err(),
    ensures
        built(tokens) == built(tokens.subrange(0, n)),
    decreases tokens.len() - n,
{
    if n == tokens.len() {
        assert(tokens.subrange(0, n) =~= tokens);
    } else {
        let t = tokens.subrange(0, n + 1);
        assert(t.drop_last() =~= tokens.subrange(0, n));
        lemma_build_failure_is_final(tokens, n + 1);
    }
}

/// Taking signs into numbers leaves at least one term of any, keeps the last
/// term that is no number, and keeps every term fit for evaluation.
pub proof fn lemma_with_signs(terms: Seq<TermView>)
    ensures
        terms.len() > 0 ==> with_signs(terms).len() > 0,
        terms.len() > 0 && !(terms.last() is Number) ==> with_signs(terms).last() == terms.last(),
        all_well_formed(terms) ==> all_well_formed(with_signs(terms)),
    decreases terms.len(),
{
    if terms.len() > 0 {
        lemma_with_signs(terms.drop_last());
        if all_well_formed(terms) {
            assert(all_well_formed(terms.drop_last()));
            assert(terms.last().well_formed());
        }
    }
}

/// Parsing is a function of the text: the same text read twice gives the
/// same terms, or the same failure, and with the same terms the same
/// convention for a skill check.
pub proof fn lemma_parsing_repeats(
    text: Seq<char>,
    first: Result<Seq<TermView>, Rejection>,
    second: Result<Seq<TermView>, Rejection>,
)
    requires
        first == parsed(text),
        second == parsed(text),
    ensures
        first == second,
        first matches Ok(a) ==> second matches Ok(b) && inferred_system(a) == inferred_system(b),
{
}

/// A text in which the grammar finds no token is an empty expression.
pub proof fn lemma_no_token_no_expression(text: Seq<char>)
    requires
        tokens_of(text).len() == 0,
    ensures
        parsed(text) == Err::<Seq<TermView>, Rejection>(Rejection::EmptyExpression),
{
}

/// Takes each minus sign that cannot be a subtraction into the number after
/// it.
pub fn fold_signs(terms: Vec<Term>) -> (r: Vec<Term>)
    ensures
        views(r@) == with_signs(views(terms@)),
{
    let mut out: Vec<Term> = Vec::new();
    let mut i: usize = 0;
    while i < terms.len()
        invariant
            0 <= i <= terms.len(),
            views(out@) == with_signs(views(terms@).subrange(0, i as int)),
        decreases terms.len() - i,
    {
        let ghost prefix = views(terms@).subrange(0, i as int + 1);
        proof {
            assert(prefix.drop_last() =~= views(terms@).subrange(0, i as int));
            assert(prefix.last() == terms@[i as int]@);
            lemma_with_signs(prefix.drop_last());
        }
        let signed: Option<i64> = match &terms[i] {
            Term::Number(n) => {
                if i >= 2 {
                    match (&terms[i - 1], &terms[i - 2]) {
                        (Term::Operator(Operator::Sub), Term::Operator(_)) => Some(*n),
                        _ => None,
                    }
                } else {
                    None
                }
            },
            _ => None,
        };
        let ghost before = out@;
        match signed {
            Some(n) => {
                proof {
                    assert(prefix[prefix.len() - 2] == terms@[i as int - 1]@);
                    assert(prefix[prefix.len() - 3] == terms@[i as int - 2]@);
                    assert(takes_sign(prefix));
                    assert(prefix.drop_last().len() > 0);
                }
                out.pop();
                let ghost popped = out@;
                assert(views(popped) =~= views(before).drop_last());
                let negated = Term::Number(wrap_sub(0, n));
                out.push(negated);
                assert(views(out@) =~= views(popped).push(negated@));
            },
            None => {
                proof {
                    if i >= 2 {
                        assert(prefix[prefix.len() - 2] == terms@[i as int - 1]@);
                        assert(prefix[prefix.len() - 3] == terms@[i as int - 2]@);
                    }
                    assert(!takes_sign(prefix));
                }
                let copy = terms[i].duplicate();
                out.push(copy);
                assert(views(out@) =~= views(before).push(copy@));
            },
        }
        i = i + 1;
    }
    assert(views(terms@).subrange(0, i as int) =~= views(terms@));
    out
}

impl Tokenizer {
    /// Builds the term that a token spells.
    pub fn term(&self, token: &str) -> (r: Result<Term, ParseRollError>)
        ensures
            crate::parse::same_term(r, token_term(token@)),
            r matches Ok(t) ==> t@.well_formed(),
    {
        proof {
            lemma_term_well_formed(token@, tag_in(token@), target_in(token@));
        }
        if has_versus_shape(token) {
            let tag = self.tag(token);
            let target = self.target(token);
            build_term(token, tag, target)
        } else {
            build_term(token, None, None)
        }
    }

    /// Builds the terms that the tokens spell, in order, up to the first
    /// token that spells none.
    pub fn build(&self, tokens: &Vec<String>) -> (r: Result<Vec<Term>, ParseRollError>)
        ensures
            same_terms(r, built(texts(tokens@))),
            r matches Ok(terms) ==> all_well_formed(views(terms@)),
    {
        let mut out: Vec<Term> = Vec::new();
        let mut i: usize = 0;
        assert(views(out@) =~= Seq::<TermView>::empty());
        while i < tokens.len()
            invariant
                0 <= i <= tokens.len(),
                built(texts(tokens@).subrange(0, i as int)) == Ok::<Seq<TermView>, Rejection>(
                    views(out@),
                ),
                all_well_formed(views(out@)),
            decreases tokens.len() - i,
        {
            proof {
                let t = texts(tokens@).subrange(0, i as int + 1);
                assert(t.drop_last() =~= texts(tokens@).subrange(0, i as int));
                assert(t.last() == tokens@[i as int]@);
            }
            let ghost before = out@;
            match self.term(tokens[i].as_str()) {
                Ok(term) => {
                    out.push(term);
                    assert(views(out@) =~= views(before).push(term@));
                },
                Err(e) => {
                    proof {
                        lemma_build_failure_is_final(texts(tokens@), i as int + 1);
                    }
                    return Err(e);
                },
            }
            i = i + 1;
        }
        assert(texts(tokens@).subrange(0, i as int) =~= texts(tokens@));
        Ok(out)
    }

    /// Parses an expression into its terms.
    pub fn parse(&self, text: &str) -> (r: Result<Vec<Term>, ParseRollError>)
        ensures
            same_terms(r, parsed(text@)),
            r matches Ok(terms) ==> all_well_formed(views(terms@)) && terms@.len() > 0,
    {
        let tokens = self.tokens(text);
        assert(texts(tokens@) =~= tokens_of(text@));
        match self.build(&tokens) {
            Err(e) => Err(e),
            Ok(terms) => {
                if terms.len() == 0 {
                    Err(ParseRollError::EmptyExpression)
                } else {
                    proof {
                        lemma_with_signs(views(terms@));
                    }
                    Ok(fold_signs(terms))
                }
            },
        }
    }
}

} // verus!
