//! Division of non-negative integers, rounded to the nearest integer.

use vstd::arithmetic::div_mod::{
    lemma_div_is_ordered, lemma_div_pos_is_pos, lemma_fundamental_div_mod,
    lemma_fundamental_div_mod_converse,
};
use vstd::arithmetic::mul::lemma_mul_inequality;
use vstd::prelude::*;

verus! {

/// The integer nearest to `n / d`; where `n / d` lies halfway between two
/// integers, the larger one.
pub open spec fn round_div(n: int, d: int) -> int
    recommends
        0 <= n,
        0 < d,
{
    (2 * n + d) / (2 * d)
}

/// `q` is the integer nearest to `n / d`, ties going up: `q - 1/2 <= n / d < q + 1/2`.
pub open spec fn is_nearest(q: int, n: int, d: int) -> bool {
    -d <= 2 * (n - q * d) < d
}

/// `round_div(n, d)` is never negative and is the nearest integer to `n / d`.
pub proof fn lemma_round_div_nearest(n: int, d: int)
    requires
        0 <= n,
        0 < d,
    ensures
        0 <= round_div(n, d),
        is_nearest(round_div(n, d), n, d),
{
    let q = round_div(n, d);
    lemma_fundamental_div_mod(2 * n + d, 2 * d);
    lemma_div_pos_is_pos(2 * n + d, 2 * d);
    assert((2 * d) * q == 2 * (q * d)) by (nonlinear_arith);
}

/// Only one integer is nearest to `n / d` in the sense of `is_nearest`.
pub proof fn lemma_nearest_is_round_div(q: int, n: int, d: int)
    requires
        0 < d,
        is_nearest(q, n, d),
    ensures
        q == round_div(n, d),
{
    let r = 2 * n + d - q * (2 * d);
    assert(q * (2 * d) == 2 * (q * d)) by (nonlinear_arith);
    lemma_fundamental_div_mod_converse(2 * n + d, 2 * d, q, r);
}

/// A larger numerator never gives a smaller rounded quotient.
pub proof fn lemma_round_div_increasing(n1: int, n2: int, d: int)
    requires
        n1 <= n2,
        0 < d,
    ensures
        round_div(n1, d) <= round_div(n2, d),
{
    lemma_div_is_ordered(2 * n1 + d, 2 * n2 + d, 2 * d);
}

/// A larger denominator never gives a larger rounded quotient.
pub proof fn lemma_round_div_decreasing(n: int, d1: int, d2: int)
    requires
        0 <= n,
        0 < d1 <= d2,
    ensures
        round_div(n, d2) <= round_div(n, d1),
{
    let q1 = round_div(n, d1);
    let q2 = round_div(n, d2);
    lemma_round_div_nearest(n, d1);
    lemma_round_div_nearest(n, d2);
    if q2 > q1 {
        // (2 * q2 - 1) * d2 <= 2 * n < (2 * q1 + 1) * d1, yet 2 * q2 - 1 >= 2 * q1 + 1.
        lemma_mul_inequality(d1, d2, 2 * q2 - 1);
        lemma_mul_inequality(2 * q1 + 1, 2 * q2 - 1, d1);
        assert((2 * q2 - 1) * d2 == 2 * (q2 * d2) - d2) by (nonlinear_arith);
        assert((2 * q1 + 1) * d1 == 2 * (q1 * d1) + d1) by (nonlinear_arith);
        assert(d2 * (2 * q2 - 1) == (2 * q2 - 1) * d2) by (nonlinear_arith);
        assert(d1 * (2 * q2 - 1) == (2 * q2 - 1) * d1) by (nonlinear_arith);
        assert(false);
    }
}

/// Divides `n` by `d` and rounds to the nearest integer, a tie going up.
pub fn rounded_quotient(n: u128, d: u128) -> (q: u128)
    requires
        d > 0,
    ensures
        q == round_div(n as int, d as int),
{
    let whole: u128 = n / d;
    let rest: u128 = n % d;
    proof {
        lemma_fundamental_div_mod(n as int, d as int);
        assert((d as int) * (whole as int) == (whole as int) * (d as int)) by (nonlinear_arith);
    }
    if rest >= d - rest {
        proof {
            assert(whole < u128::MAX) by {
                assert(d >= 2);
                assert((whole as int) * 2 <= (whole as int) * (d as int)) by (nonlinear_arith)
                    requires
                        d >= 2,
                        whole >= 0,
                ;
            }
            assert(is_nearest(whole + 1, n as int, d as int)) by {
                assert((whole + 1) * (d as int) == (whole as int) * (d as int) + d)
                    by (nonlinear_arith);
            }
            lemma_nearest_is_round_div(whole + 1, n as int, d as int);
        }
        whole + 1
    } else {
        proof {
            lemma_nearest_is_round_div(whole as int, n as int, d as int);
        }
        whole
    }
}

} // verus!
