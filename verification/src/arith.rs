//! Sixty-four-bit arithmetic that wraps round, as the running total does.

use vstd::arithmetic::div_mod::*;
use vstd::arithmetic::power::*;
use vstd::prelude::*;

verus! {

/// Two to the power sixty-four.
pub open spec fn modulus() -> int {
    0x1_0000_0000_0000_0000
}

/// Whether `x` is a 64-bit signed value.
pub open spec fn fits(x: int) -> bool {
    i64::MIN <= x <= i64::MAX
}

/// The 64-bit signed value that `x` wraps round to: the one value in range
/// that differs from `x` by a multiple of two to the power sixty-four.
pub open spec fn wrap(x: int) -> int {
    let m = x % modulus();
    if m > i64::MAX {
        m - modulus()
    } else {
        m
    }
}

/// `x` divided by a non-zero `d`, rounded toward zero.
pub open spec fn quotient(x: int, d: int) -> int {
    let q = (if x >= 0 { x } else { -x }) / (if d >= 0 { d } else { -d });
    if (x >= 0) == (d >= 0) {
        q
    } else {
        -q
    }
}

/// What is left of `x` after division by a non-zero `d`; it has the sign of
/// `x`.
pub open spec fn remainder(x: int, d: int) -> int {
    let r = (if x >= 0 { x } else { -x }) % (if d >= 0 { d } else { -d });
    if x >= 0 {
        r
    } else {
        -r
    }
}

/// A value in range wraps to itself, and every wrapped value is in range.
pub proof fn lemma_wrap_range(x: int)
    ensures
        fits(wrap(x)),
        fits(x) ==> wrap(x) == x,
        wrap(x) % modulus() == x % modulus(),
{
    let m = x % modulus();
    if m > i64::MAX {
        lemma_mod_sub_multiples_vanish(m, modulus());
        lemma_mod_twice(x, modulus());
    } else {
        lemma_mod_twice(x, modulus());
    }
    if fits(x) {
        if x >= 0 {
            lemma_small_mod(x as nat, modulus() as nat);
        } else {
            lemma_mod_add_multiples_vanish(x, modulus());
            lemma_small_mod((x + modulus()) as nat, modulus() as nat);
        }
    }
}

/// Wrapping may be done before or after an addition.
pub proof fn lemma_wrap_add(a: int, b: int)
    ensures
        wrap(wrap(a) + wrap(b)) == wrap(a + b),
        wrap(wrap(a) + b) == wrap(a + b),
{
    lemma_wrap_range(a);
    lemma_wrap_range(b);
    lemma_add_mod_noop(wrap(a), wrap(b), modulus());
    lemma_add_mod_noop(a, b, modulus());
    lemma_add_mod_noop(wrap(a), b, modulus());
}

/// Wrapping may be done before or after a multiplication.
pub proof fn lemma_wrap_mul(a: int, b: int)
    ensures
        wrap(wrap(a) * wrap(b)) == wrap(a * b),
{
    lemma_wrap_range(a);
    lemma_wrap_range(b);
    lemma_mul_mod_noop_general(wrap(a), wrap(b), modulus());
    lemma_mul_mod_noop_general(a, b, modulus());
}

/// The sum of two values, wrapped.
pub fn wrap_add(a: i64, b: i64) -> (r: i64)
    ensures
        r == wrap(a + b),
{
    proof {
        let s = a + b;
        if s > i64::MAX {
            lemma_wrap_range(s - modulus());
            lemma_mod_sub_multiples_vanish(s, modulus());
        } else if s < i64::MIN {
            lemma_wrap_range(s + modulus());
            lemma_mod_add_multiples_vanish(s, modulus());
        } else {
            lemma_wrap_range(s);
        }
    }
    a.wrapping_add(b)
}

/// The difference of two values, wrapped.
pub fn wrap_sub(a: i64, b: i64) -> (r: i64)
    ensures
        r == wrap(a - b),
{
    proof {
        let s = a - b;
        if s > i64::MAX {
            lemma_wrap_range(s - modulus());
            lemma_mod_sub_multiples_vanish(s, modulus());
        } else if s < i64::MIN {
            lemma_wrap_range(s + modulus());
            lemma_mod_add_multiples_vanish(s, modulus());
        } else {
            lemma_wrap_range(s);
        }
    }
    a.wrapping_sub(b)
}

/// The product of two values, wrapped.
pub fn wrap_mul(a: i64, b: i64) -> (r: i64)
    ensures
        r == wrap(a * b),
{
    a.wrapping_mul(b)
}

/// The quotient of two values, rounded toward zero and wrapped.
pub fn wrap_div(a: i64, b: i64) -> (r: i64)
    requires
        b != 0,
    ensures
        r == wrap(quotient(a as int, b as int)),
{
    match a.checked_div(b) {
        Some(q) => {
            proof {
                lemma_wrap_range(q as int);
            }
            q
        },
        None => {
            proof {
                lemma_wrap_range(quotient(a as int, b as int) - modulus());
                lemma_mod_sub_multiples_vanish(quotient(a as int, b as int), modulus());
            }
            i64::MIN
        },
    }
}

/// The remainder of a division; it has the sign of the dividend.
pub fn rem(a: i64, b: i64) -> (r: i64)
    requires
        b != 0,
    ensures
        r == remainder(a as int, b as int),
{
    match a.checked_rem(b) {
        Some(q) => q,
        None => 0,
    }
}

/// A value raised to a power, wrapped.
pub fn wrap_pow(base: i64, exponent: u64) -> (r: i64)
    ensures
        r == wrap(pow(base as int, exponent as nat)),
{
    let mut result: i64 = 1;
    let mut b: i64 = base;
    let mut e: u64 = exponent;
    let ghost mut big_r: int = 1;
    let ghost mut big_b: int = base as int;
    proof {
        lemma_wrap_range(1);
        lemma_wrap_range(base as int);
    }
    while e > 0
        invariant
            result == wrap(big_r),
            b == wrap(big_b),
            big_r * pow(big_b, e as nat) == pow(base as int, exponent as nat),
        decreases e,
    {
        if e % 2 == 1 {
            proof {
                lemma_wrap_mul(big_r, big_b);
                reveal(pow);
                assert(pow(big_b, e as nat) == big_b * pow(big_b, (e - 1) as nat));
                assert(big_r * (big_b * pow(big_b, (e - 1) as nat)) == (big_r * big_b) * pow(
                    big_b,
                    (e - 1) as nat,
                )) by (nonlinear_arith);
                big_r = big_r * big_b;
            }
            result = wrap_mul(result, b);
            e = e - 1;
        }
        proof {
            let h = (e / 2) as nat;
            assert(e as nat == 2 * h);
            lemma_pow_multiplies(big_b, 2, h);
            lemma_square_is_pow2(big_b);
            lemma_wrap_mul(big_b, big_b);
            big_b = big_b * big_b;
        }
        b = wrap_mul(b, b);
        e = e / 2;
    }
    proof {
        lemma_pow0(big_b);
    }
    result
}

} // verus!
