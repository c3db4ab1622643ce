//! The term builder: from the text of a token to a typed term.

use crate::error::{ParseRollError, Rejection};
use crate::number::{is_digit, parse_i64, parse_u64, parse_usize, signed_value, unsigned_value};
use crate::term::{Keep, KeepDirection, Operator, Term, TermView};
use crate::text::{chars_of, normalize, normalized, slice, string_of, trim, trimmed};
use vstd::prelude::*;

verus! {

/// The index of the first character of `s` that is `a` or `b`; the length of
/// `s` where there is none.
pub open spec fn find_either(s: Seq<char>, a: char, b: char) -> int
    decreases s.len(),
{
    if s.len() == 0 {
        0
    } else if s[0] == a || s[0] == b {
        0
    } else {
        1 + find_either(s.drop_first(), a, b)
    }
}

/// `s` from its first digit on; empty where it has none.
pub open spec fn from_first_digit(s: Seq<char>) -> Seq<char>
    decreases s.len(),
{
    if s.len() == 0 || is_digit(s[0]) {
        s
    } else {
        from_first_digit(s.drop_first())
    }
}

/// The operator that a symbol stands for.
pub open spec fn operator_of(c: char) -> Option<Operator> {
    if c == '+' {
        Some(Operator::Add)
    } else if c == '-' {
        Some(Operator::Sub)
    } else if c == '*' || c == 'x' || c == '×' {
        Some(Operator::Mul)
    } else if c == '/' || c == '\\' || c == '÷' {
        Some(Operator::Div)
    } else if c == '%' {
        Some(Operator::Rem)
    } else if c == '^' {
        Some(Operator::Pow)
    } else {
        None
    }
}

/// The dice term that a normalized token spells. The text before the first
/// `d` is the count, three where it is empty. The text after it, up to a `b`
/// or `w` if there is one, is the number of sides, six where it is empty and
/// never zero. What follows a `b` or a `w` is the amount of dice to keep,
/// the best or the worst. The first field that is no such number is the
/// failure.
pub open spec fn dice_from(n: Seq<char>) -> Result<TermView, Rejection> {
    let at = find_either(n, 'd', 'd');
    let count_text = n.subrange(0, at);
    let rest = n.subrange(at + 1, n.len() as int);
    let cut = find_either(rest, 'b', 'w');
    let sides_text = rest.subrange(0, cut);
    let amount_text = rest.subrange(cut + 1, rest.len() as int);
    let count = if count_text.len() == 0 {
        Some(3int)
    } else {
        unsigned_value(count_text, usize::MAX as int)
    };
    let sides = if sides_text.len() == 0 {
        Some(6int)
    } else {
        unsigned_value(sides_text, i64::MAX as int)
    };
    if count.is_none() {
        Err(Rejection::IntegerFormat(count_text))
    } else if sides.is_none() || sides == Some(0int) {
        Err(Rejection::IntegerFormat(sides_text))
    } else if cut == rest.len() {
        Ok(TermView::Dice { count: count.unwrap() as nat, sides: sides.unwrap(), keep: None })
    } else if unsigned_value(amount_text, usize::MAX as int).is_none() {
        Err(Rejection::IntegerFormat(amount_text))
    } else {
        Ok(
            TermView::Dice {
                count: count.unwrap() as nat,
                sides: sides.unwrap(),
                keep: Some(
                    Keep {
                        direction: if rest[cut] == 'b' {
                            KeepDirection::Best
                        } else {
                            KeepDirection::Worst
                        },
                        amount: unsigned_value(amount_text, usize::MAX as int).unwrap() as usize,
                    },
                ),
            },
        )
    }
}

/// The repeat clause that a normalized token spells: its count is the text
/// from the first digit on, and at least one.
pub open spec fn repeat_from(n: Seq<char>) -> Result<TermView, Rejection> {
    let digits = from_first_digit(n);
    match unsigned_value(digits, usize::MAX as int) {
        Some(k) => if k >= 1 {
            Ok(TermView::Repeat(k as nat))
        } else {
            Err(Rejection::IntegerFormat(digits))
        },
        None => Err(Rejection::IntegerFormat(digits)),
    }
}

/// The tag of a versus clause: the captured text without the blanks at its
/// ends, or none where nothing is left.
pub open spec fn tag_from(tag: Option<Seq<char>>) -> Option<Seq<char>> {
    match tag {
        Some(t) => if trimmed(t).len() == 0 {
            None
        } else {
            Some(trimmed(t))
        },
        None => None,
    }
}

/// The versus clause that a captured tag and target spell. Without a target
/// there is no term to read.
pub open spec fn versus_from(tag: Option<Seq<char>>, target: Option<Seq<char>>) -> Result<
    TermView,
    Rejection,
> {
    match target {
        None => Err(Rejection::EmptyExpression),
        Some(t) => match signed_value(t) {
            None => Err(Rejection::IntegerFormat(t)),
            Some(v) => Ok(TermView::Versus { target: v, tag: tag_from(tag) }),
        },
    }
}

/// The number that a normalized token spells.
pub open spec fn number_from(n: Seq<char>) -> Result<TermView, Rejection> {
    match signed_value(n) {
        Some(v) => Ok(TermView::Number(v)),
        None => Err(Rejection::IntegerFormat(n)),
    }
}

/// Whether a normalized token has the shape of a versus clause.
pub open spec fn is_versus_shape(n: Seq<char>) -> bool {
    n.len() > 0 && n[0] == 'v'
}

/// The term that a token spells, given the tag and target captured in it.
/// The token is read without its blanks and in lower case. One that starts
/// with `v` is a versus clause; one that starts with `r`, a repeat clause;
/// any other that holds a `d`, a dice term; a lone operator symbol, that
/// operator; anything else must be a number.
pub open spec fn term_from(token: Seq<char>, tag: Option<Seq<char>>, target: Option<Seq<char>>)
    -> Result<TermView, Rejection> {
    let n = normalized(token);
    if is_versus_shape(n) {
        versus_from(tag, target)
    } else if n.len() > 0 && n[0] == 'r' {
        repeat_from(n)
    } else if find_either(n, 'd', 'd') < n.len() {
        dice_from(n)
    } else if n.len() == 1 && operator_of(n[0]).is_some() {
        Ok(TermView::Operator(operator_of(n[0]).unwrap()))
    } else {
        number_from(n)
    }
}

/// Whether a built term, or the failure to build one, is the given ideal
/// outcome.
pub open spec fn same_term(r: Result<Term, ParseRollError>, ideal: Result<TermView, Rejection>)
    -> bool {
    match r {
        Ok(t) => ideal == Ok::<TermView, Rejection>(t@),
        Err(e) => ideal == Err::<TermView, Rejection>(e@),
    }
}

/// Finds the first character that is `a` or `b`.
pub fn position(s: &Vec<char>, a: char, b: char) -> (r: usize)
    ensures
        r == find_either(s@, a, b),
        r <= s@.len(),
        r < s@.len() ==> s@[r as int] == a || s@[r as int] == b,
{
    let mut i: usize = 0;
    assert(s@.subrange(0, s@.len() as int) =~= s@);
    while i < s.len() && s[i] != a && s[i] != b
        invariant
            0 <= i <= s.len(),
            find_either(s@, a, b) == i + find_either(s@.subrange(i as int, s@.len() as int), a, b),
        decreases s.len() - i,
    {
        proof {
            let t = s@.subrange(i as int, s@.len() as int);
            assert(t.drop_first() =~= s@.subrange(i as int + 1, s@.len() as int));
        }
        i = i + 1;
    }
    proof {
        let t = s@.subrange(i as int, s@.len() as int);
        assert(t.len() > 0 ==> t[0] == s@[i as int]);
    }
    i
}

/// The symbol's operator, if it is one.
pub fn operator_for(c: char) -> (r: Option<Operator>)
    ensures
        r == operator_of(c),
{
    if c == '+' {
        Some(Operator::Add)
    } else if c == '-' {
        Some(Operator::Sub)
    } else if c == '*' || c == 'x' || c == '×' {
        Some(Operator::Mul)
    } else if c == '/' || c == '\\' || c == '÷' {
        Some(Operator::Div)
    } else if c == '%' {
        Some(Operator::Rem)
    } else if c == '^' {
        Some(Operator::Pow)
    } else {
        None
    }
}

/// The failure that names a field which is no acceptable integer.
fn bad_integer(field: &Vec<char>) -> (r: ParseRollError)
    ensures
        r@ == Rejection::IntegerFormat(field@),
{
    ParseRollError::IntegerFormat(string_of(field))
}

/// Builds a dice term from a normalized token that holds a `d`.
pub fn build_dice(n: &Vec<char>) -> (r: Result<Term, ParseRollError>)
    requires
        find_either(n@, 'd', 'd') < n@.len(),
    ensures
        same_term(r, dice_from(n@)),
{
    let at = position(n, 'd', 'd');
    let len = n.len();
    let count_text = slice(n, 0, at);
    let rest = slice(n, at + 1, len);
    let cut = position(&rest, 'b', 'w');
    let sides_text = slice(&rest, 0, cut);
    let count: usize = if count_text.len() == 0 {
        3
    } else {
        match parse_usize(&count_text) {
            Some(c) => c,
            None => {
                return Err(bad_integer(&count_text));
            },
        }
    };
    let sides: i64 = if sides_text.len() == 0 {
        6
    } else {
        match parse_u64(&sides_text) {
            Some(v) => {
                if 1 <= v && v <= i64::MAX as u64 {
                    v as i64
                } else {
                    return Err(bad_integer(&sides_text));
                }
            },
            None => {
                return Err(bad_integer(&sides_text));
            },
        }
    };
    if cut == rest.len() {
        Ok(Term::Dice { count, sides, keep: None })
    } else {
        let amount_text = slice(&rest, cut + 1, rest.len());
        match parse_usize(&amount_text) {
            Some(amount) => {
                let direction = if rest[cut] == 'b' {
                    KeepDirection::Best
                } else {
                    KeepDirection::Worst
                };
                Ok(Term::Dice { count, sides, keep: Some(Keep { direction, amount }) })
            },
            None => Err(bad_integer(&amount_text)),
        }
    }
}

/// Builds a repeat clause from a normalized token.
pub fn build_repeat(n: &Vec<char>) -> (r: Result<Term, ParseRollError>)
    ensures
        same_term(r, repeat_from(n@)),
{
    let mut i: usize = 0;
    assert(n@.subrange(0, n@.len() as int) =~= n@);
    while i < n.len() && !('0' <= n[i] && n[i] <= '9')
        invariant
            0 <= i <= n.len(),
            from_first_digit(n@) == from_first_digit(n@.subrange(i as int, n@.len() as int)),
        decreases n.len() - i,
    {
        proof {
            let t = n@.subrange(i as int, n@.len() as int);
            assert(t.drop_first() =~= n@.subrange(i as int + 1, n@.len() as int));
        }
        i = i + 1;
    }
    proof {
        let t = n@.subrange(i as int, n@.len() as int);
        assert(t.len() > 0 ==> t[0] == n@[i as int]);
    }
    let digits = slice(n, i, n.len());
    match parse_usize(&digits) {
        Some(k) => {
            if k >= 1 {
                Ok(Term::Repeat(k))
            } else {
                Err(bad_integer(&digits))
            }
        },
        None => Err(bad_integer(&digits)),
    }
}

/// Builds a versus clause from the tag and the target captured in it.
pub fn build_versus(tag: Option<String>, target: Option<String>) -> (r: Result<
    Term,
    ParseRollError,
>)
    ensures
        same_term(r, versus_from(crate::term::text_of(tag), crate::term::text_of(target))),
{
    match target {
        None => Err(ParseRollError::EmptyExpression),
        Some(t) => {
            let digits = chars_of(t.as_str());
            match parse_i64(&digits) {
                None => Err(ParseRollError::IntegerFormat(t)),
                Some(v) => {
                    let tag = match tag {
                        Some(g) => {
                            let kept = trim(&chars_of(g.as_str()));
                            if kept.len() == 0 {
                                None
                            } else {
                                Some(string_of(&kept))
                            }
                        },
                        None => None,
                    };
                    Ok(Term::Versus { target: v, tag })
                },
            }
        },
    }
}

/// Builds a number from a normalized token.
pub fn build_number(n: &Vec<char>) -> (r: Result<Term, ParseRollError>)
    ensures
        same_term(r, number_from(n@)),
{
    match parse_i64(n) {
        Some(v) => Ok(Term::Number(v)),
        None => Err(bad_integer(n)),
    }
}

/// Tells whether a token has the shape of a versus clause, so that its tag
/// and target are wanted.
pub fn has_versus_shape(token: &str) -> (r: bool)
    ensures
        r == is_versus_shape(normalized(token@)),
{
    let n = normalize(&chars_of(token));
    n.len() > 0 && n[0] == 'v'
}

/// Builds the term that a token spells. Tag and target are read only where
/// the token has the shape of a versus clause.
pub fn build_term(token: &str, tag: Option<String>, target: Option<String>) -> (r: Result<
    Term,
    ParseRollError,
>)
    ensures
        same_term(
            r,
            term_from(token@, crate::term::text_of(tag), crate::term::text_of(target)),
        ),
{
    let n = normalize(&chars_of(token));
    if n.len() > 0 && n[0] == 'v' {
        build_versus(tag, target)
    } else if n.len() > 0 && n[0] == 'r' {
        build_repeat(&n)
    } else if position(&n, 'd', 'd') < n.len() {
        build_dice(&n)
    } else if n.len() == 1 {
        match operator_for(n[0]) {
            Some(op) => Ok(Term::Operator(op)),
            None => build_number(&n),
        }
    } else {
        build_number(&n)
    }
}

} // verus!
