//! Dice notation read back: what the formatter writes for a term, the term
//! builder reads as that term.

use crate::error::Rejection;
use crate::number::{
    all_digits, decimal, digit_char, digit_value, digits_of, digits_value, is_digit, signed_value,
    unsigned_value,
};
use crate::parse::{dice_from, find_either, term_from};
use crate::render::{keep_text, notation_of};
use crate::term::{Keep, KeepDirection, TermView};
use crate::text::{is_blank, lower, normalized};
use vstd::prelude::*;

verus! {

/// Whether normalizing leaves a text as it is: it holds no blank and no
/// ASCII capital.
pub open spec fn is_plain(s: Seq<char>) -> bool {
    forall|i: int| 0 <= i < s.len() ==> !is_blank(#[trigger] s[i]) && lower(s[i]) == s[i]
}

/// The digits of a number are digits, at least one, and spell the number.
pub proof fn lemma_digits_of(n: nat)
    ensures
        digits_of(n).len() >= 1,
        all_digits(digits_of(n)),
        digits_value(digits_of(n)) == n,
    decreases n,
{
    if n >= 10 {
        lemma_digits_of(n / 10);
        let s = digits_of(n / 10);
        let c = digit_char((n % 10) as int);
        assert(digits_of(n) == s.push(c));
        assert(s.push(c).drop_last() =~= s);
        assert(is_digit(c));
        assert(digit_value(c) == n % 10);
    } else {
        let c = digit_char(n as int);
        assert(digits_of(n) == seq![c]);
        assert(seq![c].drop_last() =~= Seq::<char>::empty());
        assert(is_digit(c));
        assert(digit_value(c) == n);
        reveal_with_fuel(digits_value, 2);
    }
}

/// The decimal text of a number within a bound reads back as that number.
pub proof fn lemma_unsigned_reads_back(n: nat, max: int)
    requires
        n <= max,
    ensures
        unsigned_value(digits_of(n), max) == Some(n as int),
{
    lemma_digits_of(n);
}

/// The decimal text of a 64-bit number reads back as that number.
pub proof fn lemma_decimal_reads_back(n: int)
    requires
        i64::MIN <= n <= i64::MAX,
    ensures
        signed_value(decimal(n)) == Some(n),
{
    if n < 0 {
        let d = digits_of((-n) as nat);
        lemma_digits_of((-n) as nat);
        let s = decimal(n);
        assert(s[0] == '-');
        assert(s.subrange(1, s.len() as int) =~= d);
    } else {
        lemma_digits_of(n as nat);
        assert(is_digit(decimal(n)[0]));
    }
}

/// Normalizing leaves a plain text as it is.
pub proof fn lemma_normalized_plain(s: Seq<char>)
    requires
        is_plain(s),
    ensures
        normalized(s) == s,
    decreases s.len(),
{
    if s.len() > 0 {
        lemma_normalized_plain(s.drop_last());
        assert(s.drop_last().push(s.last()) =~= s);
    } else {
        assert(s =~= Seq::<char>::empty());
    }
}

/// A search passes over a start that holds neither of the characters looked
/// for.
pub proof fn lemma_find_after(start: Seq<char>, rest: Seq<char>, a: char, b: char)
    requires
        forall|i: int| 0 <= i < start.len() ==> #[trigger] start[i] != a && start[i] != b,
    ensures
        find_either(start + rest, a, b) == start.len() + find_either(rest, a, b),
    decreases start.len(),
{
    if start.len() == 0 {
        assert(start + rest =~= rest);
    } else {
        lemma_find_after(start.drop_first(), rest, a, b);
        assert((start + rest).drop_first() =~= start.drop_first() + rest);
        assert((start + rest)[0] == start[0]);
    }
}

/// A search that finds nothing ends behind the text.
pub proof fn lemma_find_nothing(s: Seq<char>, a: char, b: char)
    requires
        forall|i: int| 0 <= i < s.len() ==> #[trigger] s[i] != a && s[i] != b,
    ensures
        find_either(s, a, b) == s.len(),
{
    lemma_find_after(s, Seq::empty(), a, b);
    assert(s + Seq::<char>::empty() =~= s);
}

/// The text of a keep modifier: nothing, or the letter of its direction and
/// the digits of its amount.
proof fn lemma_keep_text(keep: Option<Keep>)
    ensures
        keep.is_none() ==> keep_text(keep).len() == 0,
        keep matches Some(k) ==> keep_text(keep) == seq![
            if k.direction == KeepDirection::Best {
                'b'
            } else {
                'w'
            },
        ] + digits_of(k.amount as nat),
{
    reveal_strlit("b");
    reveal_strlit("w");
    match keep {
        Some(k) => {
            assert("b"@ =~= seq!['b']);
            assert("w"@ =~= seq!['w']);
        },
        None => {},
    }
}

/// The notation of a dice term reads back as that term.
proof fn lemma_dice_reads_back(count: nat, sides: int, keep: Option<Keep>)
    requires
        count <= usize::MAX,
        1 <= sides <= i64::MAX,
    ensures
        is_plain(notation_of(TermView::Dice { count, sides, keep })),
        notation_of(TermView::Dice { count, sides, keep })[0] != 'v',
        notation_of(TermView::Dice { count, sides, keep })[0] != 'r',
        find_either(notation_of(TermView::Dice { count, sides, keep }), 'd', 'd') < notation_of(
            TermView::Dice { count, sides, keep },
        ).len(),
        dice_from(notation_of(TermView::Dice { count, sides, keep })) == Ok::<TermView, Rejection>(
            TermView::Dice { count, sides, keep },
        ),
{
    reveal_strlit("d");
    let n = notation_of(TermView::Dice { count, sides, keep });
    let c = digits_of(count);
    let s = digits_of(sides as nat);
    let k = keep_text(keep);
    lemma_digits_of(count);
    lemma_digits_of(sides as nat);
    lemma_keep_text(keep);
    assert("d"@ =~= seq!['d']);
    let tail = seq!['d'] + s + k;
    assert(n =~= c + tail);
    assert(tail[0] == 'd');
    lemma_find_after(c, tail, 'd', 'd');
    let at = find_either(n, 'd', 'd');
    assert(at == c.len());
    assert(n.subrange(0, at) =~= c);
    let rest = n.subrange(at + 1, n.len() as int);
    assert(rest =~= s + k);
    lemma_find_after(s, k, 'b', 'w');
    lemma_unsigned_reads_back(count, usize::MAX as int);
    lemma_unsigned_reads_back(sides as nat, i64::MAX as int);
    match keep {
        None => {
            assert(k =~= Seq::<char>::empty());
            assert(find_either(rest, 'b', 'w') == rest.len());
            assert(rest.subrange(0, rest.len() as int) =~= s);
        },
        Some(m) => {
            let a = digits_of(m.amount as nat);
            lemma_digits_of(m.amount as nat);
            lemma_unsigned_reads_back(m.amount as nat, usize::MAX as int);
            let cut = find_either(rest, 'b', 'w');
            assert(k[0] == 'b' || k[0] == 'w');
            assert(cut == s.len());
            assert(rest.subrange(0, cut) =~= s);
            assert(rest.subrange(cut + 1, rest.len() as int) =~= a);
            assert(rest[cut] == k[0]);
        },
    }
    assert forall|i: int| 0 <= i < n.len() implies !is_blank(#[trigger] n[i]) && lower(n[i])
        == n[i] by {
        if i < c.len() {
            assert(n[i] == c[i]);
        } else if i == c.len() {
            assert(n[i] == 'd');
        } else if i < c.len() + 1 + s.len() {
            assert(n[i] == s[i - c.len() - 1]);
        } else {
            let j = i - c.len() - 1 - s.len();
            assert(n[i] == k[j]);
            if j > 0 {
                assert(k[j] == digits_of(keep.unwrap().amount as nat)[j - 1]);
            }
        }
    }
    assert(n[0] == c[0]);
}

/// What the formatter writes for a dice term, a number or an operator, the
/// term builder reads as that term.
pub proof fn lemma_notation_reads_back(
    term: TermView,
    tag: Option<Seq<char>>,
    target: Option<Seq<char>>,
)
    requires
        term is Dice || term is Number || term is Operator,
        term matches TermView::Dice { count, sides, .. } ==> count <= usize::MAX && 1 <= sides
            <= i64::MAX,
        term matches TermView::Number(n) ==> i64::MIN <= n <= i64::MAX,
    ensures
        term_from(notation_of(term), tag, target) == Ok::<TermView, Rejection>(term),
{
    let n = notation_of(term);
    match term {
        TermView::Dice { count, sides, keep } => {
            lemma_dice_reads_back(count, sides, keep);
            lemma_normalized_plain(n);
        },
        TermView::Number(v) => {
            lemma_decimal_reads_back(v);
            if v < 0 {
                lemma_digits_of((-v) as nat);
                let d = digits_of((-v) as nat);
                assert forall|i: int| 0 <= i < n.len() implies !is_blank(#[trigger] n[i]) && lower(
                    n[i],
                ) == n[i] && n[i] != 'd' by {
                    if i > 0 {
                        assert(n[i] == d[i - 1]);
                    }
                }
            } else {
                lemma_digits_of(v as nat);
            }
            lemma_normalized_plain(n);
            lemma_find_nothing(n, 'd', 'd');
            if n.len() == 1 {
                assert(is_digit(n[0]));
            }
        },
        TermView::Operator(op) => {
            reveal_strlit("+");
            reveal_strlit("-");
            reveal_strlit("×");
            reveal_strlit("/");
            reveal_strlit("%");
            reveal_strlit("^");
            assert(n.len() == 1);
            lemma_normalized_plain(n);
            reveal_with_fuel(find_either, 3);
            assert(n.drop_first() =~= Seq::<char>::empty());
        },
        _ => {},
    }
}

} // verus!
