//! Slippage estimators: by how many percent the output of a trade falls short
//! of the output at the pool's spot price. Each estimator takes the ratio of
//! its formula in whole numbers and rounds once, down to the grid.

use crate::fixed::{lemma_ratio_at_most, mul_div, mul_div_rem, PERCENT};
use vstd::arithmetic::div_mod::*;
use vstd::arithmetic::mul::*;
use vstd::prelude::*;

verus! {

/// The amplification, 100.0, at which the two outputs of a stableswap pool
/// weigh the same.
pub const AMPLIFICATION_PIVOT: u64 = 100_000_000;

/// The slippage of a trade into a constant-product pool: the shortfall of
/// its output after the 0.3% fee,
/// `amount_in * 0.997 * reserve_out / (reserve_in + amount_in * 0.997)`,
/// against `amount_in * reserve_out / reserve_in`, in percent of the latter.
/// The output reserve cancels out of that ratio, which is
/// `(3 * reserve_in + 997 * amount_in) / (1000 * reserve_in + 997 * amount_in)`.
pub open spec fn uniswap_v2_slippage_value(reserve_in: int, reserve_out: int, amount_in: int) -> int {
    if amount_in <= 0 || reserve_in <= 0 || reserve_out <= 0 {
        0
    } else {
        (PERCENT * (3 * reserve_in + 997 * amount_in)) / (1000 * reserve_in + 997 * amount_in)
    }
}

/// The slippage of a trade into a constant-product pool is a percentage
/// from 0 to 100.
pub proof fn lemma_uniswap_v2_slippage_bounded(reserve_in: int, reserve_out: int, amount_in: int)
    ensures
        0 <= uniswap_v2_slippage_value(reserve_in, reserve_out, amount_in) <= PERCENT,
{
    if amount_in > 0 && reserve_in > 0 && reserve_out > 0 {
        lemma_ratio_at_most(
            PERCENT as int,
            3 * reserve_in + 997 * amount_in,
            1000 * reserve_in + 997 * amount_in,
        );
    }
}

/// The slippage, in percent, of a trade into a constant-product pool.
pub fn compute_uniswap_v2_slippage(reserve_in: u64, reserve_out: u64, amount_in: u64) -> (r: u64)
    ensures
        r == uniswap_v2_slippage_value(reserve_in as int, reserve_out as int, amount_in as int),
        r <= PERCENT,
        amount_in == 0 ==> r == 0,
{
    if amount_in == 0 || reserve_in == 0 || reserve_out == 0 {
        return 0;
    }
    let short: u128 = 3 * (reserve_in as u128) + 997 * (amount_in as u128);
    let whole: u128 = 1000 * (reserve_in as u128) + 997 * (amount_in as u128);
    proof {
        lemma_uniswap_v2_slippage_bounded(reserve_in as int, reserve_out as int, amount_in as int);
    }
    ((100_000_000 * short) / whole) as u64
}

/// The slippage of a trade into a concentrated-liquidity position, in the
/// simplified continuous model: the shortfall of
/// `amount_in * sqrt_price * liquidity / (liquidity + amount_in)` against
/// `amount_in * sqrt_price`, in percent of the latter. The price cancels out
/// of that ratio, which is `amount_in / (liquidity + amount_in)`.
pub open spec fn uniswap_v3_slippage_value(liquidity: int, sqrt_price: int, amount_in: int) -> int {
    if amount_in <= 0 || liquidity <= 0 || sqrt_price <= 0 {
        0
    } else {
        (PERCENT * amount_in) / (liquidity + amount_in)
    }
}

/// The slippage, in percent, of a trade into a concentrated-liquidity position.
pub fn compute_uniswap_v3_slippage(liquidity: u64, sqrt_price: u64, amount_in: u64) -> (r: u64)
    ensures
        r == uniswap_v3_slippage_value(liquidity as int, sqrt_price as int, amount_in as int),
        r <= PERCENT,
        amount_in == 0 ==> r == 0,
{
    if amount_in == 0 || liquidity == 0 || sqrt_price == 0 {
        return 0;
    }
    let whole: u128 = liquidity as u128 + amount_in as u128;
    proof {
        lemma_ratio_at_most(PERCENT as int, amount_in as int, whole as int);
    }
    ((100_000_000 * (amount_in as u128)) / whole) as u64
}

/// The part of the blended shortfall of a stableswap trade that lies above
/// 0, as the numerator of a fraction over `curve_whole`. The pool keeps 0.04%
/// of the input as its fee. Against the ideal output
/// `amount_in * balance_out / balance_in`, the constant-sum output, which is
/// the input after the fee, falls short by
/// `(2500 * balance_out - 2499 * balance_in) / (2500 * balance_out)`, which may
/// be negative; the constant-product output falls short by
/// `(balance_in + 2499 * amount_in) / (2500 * balance_in + 2499 * amount_in)`.
/// The two are weighed with `amplification` and with 100.
pub open spec fn curve_short(
    balance_in: int,
    balance_out: int,
    amount_in: int,
    amplification: int,
) -> int {
    amplification * (2500 * balance_out - 2499 * balance_in) * (2500 * balance_in + 2499
        * amount_in) + AMPLIFICATION_PIVOT * (balance_in + 2499 * amount_in) * (2500
        * balance_out)
}

/// The common denominator of the blended shortfall of a stableswap trade.
pub open spec fn curve_whole(
    balance_in: int,
    balance_out: int,
    amount_in: int,
    amplification: int,
) -> int {
    (2500 * balance_out) * (2500 * balance_in + 2499 * amount_in) * (amplification
        + AMPLIFICATION_PIVOT)
}

/// The slippage of a trade into a stableswap pool: the shortfall of the
/// blend of its constant-sum and constant-product outputs, with the weights
/// `amplification / (amplification + 100)` and `100 / (amplification + 100)`,
/// against `amount_in * balance_out / balance_in`, in percent of the latter,
/// taken over one common denominator; 0 where the blend does not fall short.
pub open spec fn curve_slippage_value(
    balance_in: int,
    balance_out: int,
    amount_in: int,
    amplification: int,
) -> int {
    if amount_in <= 0 || balance_in <= 0 || balance_out <= 0 {
        0
    } else if curve_short(balance_in, balance_out, amount_in, amplification) <= 0 {
        0
    } else {
        (PERCENT * curve_short(balance_in, balance_out, amount_in, amplification)) / curve_whole(
            balance_in,
            balance_out,
            amount_in,
            amplification,
        )
    }
}

/// The blended shortfall of a stableswap trade is at most the whole.
pub proof fn lemma_curve_short_bounded(
    balance_in: int,
    balance_out: int,
    amount_in: int,
    amplification: int,
)
    requires
        balance_in > 0,
        balance_out > 0,
        amount_in > 0,
        amplification >= 0,
    ensures
        curve_whole(balance_in, balance_out, amount_in, amplification) > 0,
        curve_short(balance_in, balance_out, amount_in, amplification) <= curve_whole(
            balance_in,
            balance_out,
            amount_in,
            amplification,
        ),
        0 <= curve_slippage_value(balance_in, balance_out, amount_in, amplification) <= PERCENT,
{
    let d1 = 2500 * balance_out;
    let d2 = 2500 * balance_in + 2499 * amount_in;
    let nx = d1 - 2499 * balance_in;
    let ny = balance_in + 2499 * amount_in;
    let a = amplification;
    let h = AMPLIFICATION_PIVOT as int;
    let short = curve_short(balance_in, balance_out, amount_in, amplification);
    let whole = curve_whole(balance_in, balance_out, amount_in, amplification);
    assert(a * nx * d2 + h * ny * d1 <= d1 * d2 * (a + h) && d1 * d2 * (a + h) > 0)
        by (nonlinear_arith)
        requires
            nx <= d1,
            0 < ny <= d2,
            d1 > 0,
            d2 > 0,
            a >= 0,
            h > 0,
    ;
    if short > 0 {
        lemma_ratio_at_most(PERCENT as int, short, whole);
    }
}

/// The whole part of the sum and of the difference of two fractions, from
/// the whole parts and the remainders of each.
proof fn lemma_two_fractions(
    u: int,
    v: int,
    d1: int,
    d2: int,
    qu: int,
    ru: int,
    qv: int,
    rv: int,
)
    requires
        d1 > 0,
        d2 > 0,
        u == qu * d1 + ru,
        0 <= ru < d1,
        v == qv * d2 + rv,
        0 <= rv < d2,
    ensures
        d1 * d2 > 0,
        (u * d2 + v * d1) / (d1 * d2) == qu + qv + (if rv * d1 >= (d1 - ru) * d2 {
            1int
        } else {
            0int
        }),
        (v * d1 - u * d2) / (d1 * d2) == qv - qu - (if rv * d1 >= ru * d2 {
            0int
        } else {
            1int
        }),
{
    let dd = d1 * d2;
    let up = ru * d2 + rv * d1;
    let down = rv * d1 - ru * d2;
    assert(dd > 0 && u * d2 + v * d1 == (qu + qv) * dd + up && v * d1 - u * d2 == (qv - qu) * dd
        + down && 0 <= up < 2 * dd && -dd < down < dd && (d1 - ru) * d2 == dd - ru * d2)
        by (nonlinear_arith)
        requires
            dd == d1 * d2,
            up == ru * d2 + rv * d1,
            down == rv * d1 - ru * d2,
            d1 > 0,
            d2 > 0,
            u == qu * d1 + ru,
            0 <= ru < d1,
            v == qv * d2 + rv,
            0 <= rv < d2,
    ;
    if up >= dd {
        assert((qu + qv + 1) * dd + (up - dd) == (qu + qv) * dd + up) by (nonlinear_arith);
        crate::fixed::lemma_quotient_is(u * d2 + v * d1, dd, qu + qv + 1, up - dd);
    } else {
        crate::fixed::lemma_quotient_is(u * d2 + v * d1, dd, qu + qv, up);
    }
    if down >= 0 {
        crate::fixed::lemma_quotient_is(v * d1 - u * d2, dd, qv - qu, down);
    } else {
        assert((qv - qu - 1) * dd + (down + dd) == (qv - qu) * dd + down) by (nonlinear_arith);
        crate::fixed::lemma_quotient_is(v * d1 - u * d2, dd, qv - qu - 1, down + dd);
    }
}

/// Whether `x * y >= c * d`, for products that may be wider than 128 bits.
fn product_reaches(x: u128, y: u128, c: u128, d: u128) -> (r: bool)
    requires
        d > 0,
    ensures
        r == (x * y >= c * d),
{
    proof {
        lemma_fundamental_div_mod(x * y, d as int);
        let q = (x * y) / (d as int);
        let m = (x * y) % (d as int);
        assert((q >= c) == (x * y >= c * d)) by (nonlinear_arith)
            requires
                x * y == d * q + m,
                0 <= m < d,
                d > 0,
        ;
    }
    match mul_div(x, y, d) {
        Some(q) => q >= c,
        None => true,
    }
}

/// The slippage, in percent, of a trade into a stableswap pool with the given
/// amplification.
pub fn compute_curve_slippage(
    balance_in: u64,
    balance_out: u64,
    amount_in: u64,
    amplification: u64,
) -> (r: u64)
    ensures
        r == curve_slippage_value(
            balance_in as int,
            balance_out as int,
            amount_in as int,
            amplification as int,
        ),
        r <= PERCENT,
        amount_in == 0 ==> r == 0,
{
    if amount_in == 0 || balance_in == 0 || balance_out == 0 {
        return 0;
    }
    let d1: u128 = 2500 * (balance_out as u128);
    let d2: u128 = 2500 * (balance_in as u128) + 2499 * (amount_in as u128);
    let d3: u128 = amplification as u128 + 100_000_000;
    let ny: u128 = balance_in as u128 + 2499 * (amount_in as u128);
    let sum_falls_short: bool = d1 >= 2499 * (balance_in as u128);
    let nx: u128 = if sum_falls_short {
        d1 - 2499 * (balance_in as u128)
    } else {
        2499 * (balance_in as u128) - d1
    };
    let weight_sum: u128 = 100_000_000 * (amplification as u128);
    let weight_product: u128 = 10_000_000_000_000_000;
    let ghost short = curve_short(
        balance_in as int,
        balance_out as int,
        amount_in as int,
        amplification as int,
    );
    let ghost whole = curve_whole(
        balance_in as int,
        balance_out as int,
        amount_in as int,
        amplification as int,
    );
    let ghost u = weight_sum * nx;
    let ghost v = weight_product * ny;
    proof {
        lemma_curve_short_bounded(
            balance_in as int,
            balance_out as int,
            amount_in as int,
            amplification as int,
        );
        lemma_ratio_at_most(weight_product as int, ny as int, d2 as int);
        lemma_mul_nonnegative(weight_sum as int, nx as int);
        lemma_mul_nonnegative(weight_product as int, ny as int);
        let signed_nx = 2500 * balance_out - 2499 * balance_in;
        assert(PERCENT * short == (if sum_falls_short {
            u * d2 + v * d1
        } else {
            v * d1 - u * d2
        }) && whole == (d1 * d2) * d3) by (nonlinear_arith)
            requires
                short == amplification * signed_nx * d2 + AMPLIFICATION_PIVOT * ny * d1,
                whole == d1 * d2 * (amplification + AMPLIFICATION_PIVOT),
                d3 == amplification + AMPLIFICATION_PIVOT,
                PERCENT == 100_000_000,
                AMPLIFICATION_PIVOT == 100_000_000,
                u == (100_000_000 * amplification) * nx,
                v == 10_000_000_000_000_000 * ny,
                sum_falls_short ==> nx == signed_nx,
                !sum_falls_short ==> nx == -signed_nx,
        ;
    }
    let (qv, rv) = match mul_div_rem(weight_product, ny, d2) {
        Some(parts) => parts,
        None => {
            return 0;
        },
    };
    let leading: Option<(u128, u128)> = mul_div_rem(weight_sum, nx, d1);
    proof {
        lemma_fundamental_div_mod(v, d2 as int);
        lemma_fundamental_div_mod(u, d1 as int);
        lemma_mul_is_commutative(d1 as int, u / (d1 as int));
        lemma_mul_is_commutative(d2 as int, v / (d2 as int));
        lemma_mod_bound(v, d2 as int);
        lemma_mod_bound(u, d1 as int);
        if sum_falls_short {
            lemma_ratio_at_most(weight_sum as int, nx as int, d1 as int);
        }
        lemma_div_pos_is_pos(u, d1 as int);
        lemma_two_fractions(
            u,
            v,
            d1 as int,
            d2 as int,
            u / (d1 as int),
            u % (d1 as int),
            qv as int,
            rv as int,
        );
        if PERCENT * short >= 0 {
            lemma_div_denominator(PERCENT * short, d1 * d2, d3 as int);
        }
        assert((PERCENT * short > 0) == (short > 0) && (PERCENT * short >= 0) == (short >= 0))
            by (nonlinear_arith)
            requires
                PERCENT > 0,
        ;
        if PERCENT * short < 0 {
            lemma_div_by_multiple_is_strongly_ordered(PERCENT * short, 0, 0, d1 * d2);
        } else {
            lemma_div_pos_is_pos(PERCENT * short, d1 * d2);
        }
    }
    let (qu, ru) = match leading {
        Some(parts) => parts,
        None => {
            return 0;
        },
    };
    let whole_part: u128 = if sum_falls_short {
        let carry: u128 = if product_reaches(rv, d1, d1 - ru, d2) {
            1
        } else {
            0
        };
        qu + qv + carry
    } else {
        let borrow: u128 = if product_reaches(rv, d1, ru, d2) {
            0
        } else {
            1
        };
        if qv < qu || qv - qu < borrow {
            return 0;
        }
        qv - qu - borrow
    };
    (whole_part / d3) as u64
}

/// The slippage of the best of several routes: the lowest of their slippages,
/// or 0 where there is no route.
pub fn compute_aggregator_slippage(slippages: &Vec<u64>) -> (r: u64)
    ensures
        slippages.len() == 0 ==> r == 0,
        slippages.len() > 0 ==> exists|i: int| 0 <= i < slippages.len() && slippages[i] == r,
        forall|i: int| 0 <= i < slippages.len() ==> r <= slippages[i],
{
    if slippages.len() == 0 {
        return 0;
    }
    let mut lowest: u64 = slippages[0];
    let mut i: usize = 1;
    while i < slippages.len()
        invariant
            1 <= i <= slippages.len(),
            exists|j: int| 0 <= j < i && slippages[j] == lowest,
            forall|j: int| 0 <= j < i ==> lowest <= slippages[j],
        decreases slippages.len() - i,
    {
        if slippages[i] < lowest {
            lowest = slippages[i];
        }
        i = i + 1;
    }
    lowest
}

} // verus!
