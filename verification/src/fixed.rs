//! Fixed-point quantities and wide arithmetic on them.
//!
//! Every quantity of the engine (an amount, a reserve, a price, a fee, a
//! percentage, a timestamp) is a decimal number with six fractional digits,
//! held as an integer count of millionths. Non-negative quantities are `u64`,
//! signed money amounts are `i128`.

use vstd::arithmetic::div_mod::*;
use vstd::arithmetic::mul::*;
use vstd::prelude::*;

verus! {

/// The integer that stands for 1.0.
pub const SCALE: u64 = 1_000_000;

/// The integer that stands for a percentage of 100.0.
pub const PERCENT: u64 = 100_000_000;

/// `x` held to the range of a `u64` quantity: values above the range are capped.
pub open spec fn cap64(x: int) -> int {
    if x > u64::MAX as int {
        u64::MAX as int
    } else {
        x
    }
}

/// The absolute difference of two integers.
pub open spec fn distance(a: int, b: int) -> int {
    if a >= b {
        a - b
    } else {
        b - a
    }
}

/// A quotient is determined by `q * d + r == n` with `0 <= r < d`.
pub proof fn lemma_quotient_is(n: int, d: int, q: int, r: int)
    requires
        d > 0,
        0 <= r < d,
        n == q * d + r,
    ensures
        n / d == q,
        n % d == r,
{
    lemma_fundamental_div_mod_converse(n, d, q, r);
}

/// `a * b / d` grows with `a`.
pub proof fn lemma_ratio_monotone(a1: int, a2: int, b: int, d: int)
    requires
        0 <= a1 <= a2,
        0 <= b,
        d > 0,
    ensures
        0 <= (a1 * b) / d <= (a2 * b) / d,
{
    lemma_mul_inequality(a1, a2, b);
    lemma_mul_nonnegative(a1, b);
    lemma_div_is_ordered(a1 * b, a2 * b, d);
    lemma_div_pos_is_pos(a1 * b, d);
}

/// A share `b / d` of at most one leaves at most `a`.
pub proof fn lemma_ratio_at_most(a: int, b: int, d: int)
    requires
        0 <= a,
        0 <= b <= d,
        d > 0,
    ensures
        0 <= (a * b) / d <= a,
{
    lemma_mul_nonnegative(a, b);
    lemma_div_pos_is_pos(a * b, d);
    assert(a * b <= a * d) by (nonlinear_arith)
        requires
            0 <= a,
            b <= d,
    ;
    lemma_div_is_ordered(a * b, a * d, d);
    lemma_div_multiples_vanish(a, d);
    lemma_mul_is_commutative(a, d);
}

/// Of two fractions, the one that is no larger gives no larger a share of
/// `p`, rounded down.
pub proof fn lemma_fraction_order(p: int, n1: int, w1: int, n2: int, w2: int)
    requires
        p >= 0,
        n1 >= 0,
        n2 >= 0,
        w1 > 0,
        w2 > 0,
        n2 * w1 <= n1 * w2,
    ensures
        (p * n2) / w2 <= (p * n1) / w1,
{
    let q = (p * n2) / w2;
    lemma_fundamental_div_mod(p * n2, w2);
    lemma_mod_bound(p * n2, w2);
    lemma_mul_nonnegative(p, n2);
    lemma_div_pos_is_pos(p * n2, w2);
    assert((q * w1) * w2 <= (p * n1) * w2) by (nonlinear_arith)
        requires
            w2 * q <= p * n2,
            n2 * w1 <= n1 * w2,
            w1 > 0,
            p >= 0,
    ;
    lemma_mul_inequality_converse(q * w1, p * n1, w2);
    lemma_div_is_ordered(q * w1, p * n1, w1);
    lemma_div_multiples_vanish(q, w1);
    lemma_mul_is_commutative(q, w1);
}

/// The product of two 64-bit quantities, which always fits 128 bits.
pub fn wide_product(a: u64, b: u64) -> (r: u128)
    ensures
        r == a * b,
        r <= 0xFFFF_FFFF_FFFF_FFFE_0000_0000_0000_0001,
{
    proof {
        lemma_mul_upper_bound(a as int, u64::MAX as int, b as int, u64::MAX as int);
        lemma_mul_nonnegative(a as int, b as int);
    }
    a as u128 * b as u128
}

/// Quotient and remainder of `a * (bq * d + br)` by `d`, or `None` where the
/// quotient does not fit 128 bits. Works bit by bit, so that no product is
/// ever formed in full.
fn mul_div_parts(a: u128, bq: u128, br: u128, d: u128) -> (res: Option<(u128, u128)>)
    requires
        d > 0,
        br < d,
    ensures
        match res {
            Some((q, r)) => q * d + r == a * (bq * d + br) && r < d,
            None => (a * (bq * d + br)) / (d as int) > u128::MAX,
        },
    decreases a,
{
    if a == 0 {
        assert(0 * d + 0 == 0 * (bq * d + br)) by (nonlinear_arith);
        return Some((0, 0));
    }
    let half: u128 = a / 2;
    let odd: bool = a % 2 == 1;
    let ghost b: int = bq * d + br;
    proof {
        lemma_mul_nonnegative(bq as int, d as int);
    }
    match mul_div_parts(half, bq, br, d) {
        None => {
            proof {
                lemma_ratio_monotone(half as int, a as int, b, d as int);
            }
            None
        },
        Some((q, r)) => {
            let mut carry: u128 = 0;
            let mut rest: u128;
            if r >= d - r {
                rest = r - (d - r);
                carry = 1;
            } else {
                rest = r + r;
            }
            if odd {
                if rest >= d - br {
                    rest = rest - (d - br);
                    carry = carry + 1;
                } else {
                    rest = rest + br;
                }
            }
            let ghost bit: int = if odd { 1 } else { 0 };
            let ghost total: int = 2 * q + bit * bq + carry;
            proof {
                assert(a * b == 2 * (half * b) + bit * b) by (nonlinear_arith)
                    requires
                        a == 2 * half + bit,
                ;
                assert(total * d == 2 * (q * d) + bit * (bq * d) + carry * d) by (nonlinear_arith)
                    requires
                        total == 2 * q + bit * bq + carry,
                ;
                assert(bit * b == bit * (bq * d) + bit * br) by (nonlinear_arith)
                    requires
                        b == bq * d + br,
                ;
                assert(carry * d == if carry == 0 { 0 } else if carry == 1 { d as int } else { 2 * d })
                    by (nonlinear_arith)
                    requires
                        0 <= carry <= 2,
                ;
                lemma_quotient_is(a * b, d as int, total, rest as int);
            }
            let doubled: u128 = match q.checked_mul(2) {
                Some(x) => x,
                None => {
                    return None;
                },
            };
            let with_bit: u128 = if odd {
                match doubled.checked_add(bq) {
                    Some(x) => x,
                    None => {
                        return None;
                    },
                }
            } else {
                doubled
            };
            match with_bit.checked_add(carry) {
                Some(x) => Some((x, rest)),
                None => None,
            }
        },
    }
}

/// Quotient and remainder of `a * b` by `d`, or `None` where the quotient
/// does not fit 128 bits. The product itself may be wider than 128 bits.
pub fn mul_div_rem(a: u128, b: u128, d: u128) -> (res: Option<(u128, u128)>)
    requires
        d > 0,
    ensures
        match res {
            Some((q, r)) => q == (a * b) / (d as int) && r == (a * b) % (d as int),
            None => (a * b) / (d as int) > u128::MAX,
        },
{
    match a.checked_mul(b) {
        Some(p) => Some((p / d, p % d)),
        None => {
            let bq: u128 = b / d;
            let br: u128 = b % d;
            proof {
                lemma_fundamental_div_mod(b as int, d as int);
                lemma_mul_is_commutative(bq as int, d as int);
            }
            match mul_div_parts(a, bq, br, d) {
                Some((q, r)) => {
                    proof {
                        lemma_quotient_is(a * b, d as int, q as int, r as int);
                    }
                    Some((q, r))
                },
                None => None,
            }
        },
    }
}

/// The quotient `a * b / d`, rounded down, or `None` where it does not fit
/// 128 bits. The product itself may be wider than 128 bits.
pub fn mul_div(a: u128, b: u128, d: u128) -> (res: Option<u128>)
    requires
        d > 0,
    ensures
        match res {
            Some(q) => q == (a * b) / (d as int),
            None => (a * b) / (d as int) > u128::MAX,
        },
{
    match mul_div_rem(a, b, d) {
        Some((q, _)) => Some(q),
        None => None,
    }
}

/// The quotient `a * b / d`, rounded down and capped to the range of a `u64`.
pub fn mul_div_capped(a: u128, b: u128, d: u128) -> (res: u64)
    requires
        d > 0,
    ensures
        res == cap64((a * b) / (d as int)),
{
    match mul_div(a, b, d) {
        Some(q) => {
            if q > u64::MAX as u128 {
                u64::MAX
            } else {
                q as u64
            }
        },
        None => u64::MAX,
    }
}

} // verus!
