//! The time-weighted average price of a window of samples, and the check of a
//! spot price against it.

use crate::fixed::{distance, lemma_quotient_is, mul_div, wide_product, PERCENT, SCALE};
use vstd::arithmetic::div_mod::*;
use vstd::arithmetic::mul::*;
use vstd::prelude::*;

verus! {

/// The time for which sample `i` of a window stood: the time to the next
/// sample where that is later, else none. A sample is `(timestamp, price)`.
pub open spec fn interval(samples: Seq<(u64, u64)>, i: int) -> int {
    if samples[i + 1].0 > samples[i].0 {
        samples[i + 1].0 - samples[i].0
    } else {
        0
    }
}

/// The time covered by the first `n` intervals of a window.
pub open spec fn elapsed(samples: Seq<(u64, u64)>, n: int) -> int
    decreases n,
{
    if n <= 0 {
        0
    } else {
        elapsed(samples, n - 1) + interval(samples, n - 1)
    }
}

/// The sum over the first `n` intervals of a window of the price that stood
/// times the time for which it stood.
pub open spec fn weighted(samples: Seq<(u64, u64)>, n: int) -> int
    decreases n,
{
    if n <= 0 {
        0
    } else {
        weighted(samples, n - 1) + samples[n - 1].1 * interval(samples, n - 1)
    }
}

/// The time-weighted average price of a window: each sample's price weighted
/// by the time to the next sample, over the time covered, rounded down. It is
/// 0, which no check accepts, for a window of fewer than two samples and for
/// one that covers no time.
pub open spec fn twap_value(samples: Seq<(u64, u64)>) -> int {
    let n = samples.len() - 1;
    if samples.len() < 2 || elapsed(samples, n) == 0 {
        0
    } else {
        weighted(samples, n) / elapsed(samples, n)
    }
}

/// Both sums of a window grow with the number of intervals taken.
pub proof fn lemma_sums_grow(samples: Seq<(u64, u64)>, i: int, j: int)
    requires
        0 <= i <= j,
    ensures
        0 <= elapsed(samples, i) <= elapsed(samples, j),
        0 <= weighted(samples, i) <= weighted(samples, j),
    decreases j,
{
    if j > 0 {
        lemma_mul_nonnegative(samples[j - 1].1 as int, interval(samples, j - 1));
        if i < j {
            lemma_sums_grow(samples, i, j - 1);
        } else {
            lemma_sums_grow(samples, i - 1, j - 1);
        }
    }
}

/// Where every weighted price of a window lies between `lo` and `hi`, so does
/// the weighted sum per unit of time.
pub proof fn lemma_weighted_between(samples: Seq<(u64, u64)>, n: int, lo: int, hi: int)
    requires
        0 <= n,
        forall|i: int| 0 <= i < n ==> lo <= (#[trigger] samples[i]).1 <= hi,
    ensures
        lo * elapsed(samples, n) <= weighted(samples, n) <= hi * elapsed(samples, n),
        0 <= elapsed(samples, n) <= n * u64::MAX,
    decreases n,
{
    if n > 0 {
        lemma_weighted_between(samples, n - 1, lo, hi);
        let t = interval(samples, n - 1);
        let p = samples[n - 1].1 as int;
        assert(lo * t <= p * t <= hi * t) by (nonlinear_arith)
            requires
                lo <= p <= hi,
                0 <= t,
        ;
        assert(lo * (elapsed(samples, n - 1) + t) == lo * elapsed(samples, n - 1) + lo * t)
            by (nonlinear_arith);
        assert(hi * (elapsed(samples, n - 1) + t) == hi * elapsed(samples, n - 1) + hi * t)
            by (nonlinear_arith);
    }
}

/// The time covered by a window: the sum of its intervals.
fn time_covered(price_samples: &Vec<(u64, u64)>) -> (total: u128)
    requires
        price_samples.len() >= 2,
    ensures
        total == elapsed(price_samples@, price_samples.len() - 1),
{
    let n: usize = price_samples.len() - 1;
    let mut total_time: u128 = 0;
    let mut i: usize = 0;
    while i < n
        invariant
            n == price_samples.len() - 1,
            0 <= i <= n,
            total_time == elapsed(price_samples@, i as int),
            total_time <= i * u64::MAX,
        decreases n - i,
    {
        let (start, _) = price_samples[i];
        let (next, _) = price_samples[i + 1];
        if next > start {
            total_time = total_time + (next - start) as u128;
        }
        i = i + 1;
    }
    total_time
}

/// The time-weighted average price of a window of `(timestamp, price)`
/// samples, taken in the order given. The weighted sum may be wider than 128
/// bits: it is held as a whole number of times the time covered, and what is
/// left over.
pub fn calculate_twap(price_samples: &Vec<(u64, u64)>) -> (r: u64)
    ensures
        r == twap_value(price_samples@),
{
    if price_samples.len() < 2 {
        return 0;
    }
    let n: usize = price_samples.len() - 1;
    let total_time: u128 = time_covered(price_samples);
    if total_time == 0 {
        return 0;
    }
    let mut whole: u128 = 0;
    let mut left: u128 = 0;
    let mut i: usize = 0;
    while i < n
        invariant
            n == price_samples.len() - 1,
            0 <= i <= n,
            total_time == elapsed(price_samples@, n as int),
            total_time > 0,
            whole * total_time + left == weighted(price_samples@, i as int),
            left < total_time,
            whole <= u64::MAX,
        decreases n - i,
    {
        let (start, price) = price_samples[i];
        let (next, _) = price_samples[i + 1];
        if next > start {
            let term: u128 = wide_product(price, next - start);
            let times: u128 = term / total_time;
            let over: u128 = term % total_time;
            let carry: u128 = if left >= total_time - over {
                1
            } else {
                0
            };
            let ghost next_whole: int = whole + times + carry;
            let ghost next_left: int = left + over - carry * total_time;
            proof {
                lemma_fundamental_div_mod(term as int, total_time as int);
                lemma_sums_grow(price_samples@, i + 1, n as int);
                lemma_weighted_between(price_samples@, i + 1, 0, u64::MAX as int);
                assert(next_whole * total_time + next_left == whole * total_time + left + term
                    && (next_whole * total_time + next_left <= u64::MAX * total_time ==> next_whole
                    <= u64::MAX)) by (nonlinear_arith)
                    requires
                        next_whole == whole + times + carry,
                        next_left == left + over - carry * total_time,
                        term == total_time * times + over,
                        0 <= next_left,
                        total_time > 0,
                ;
                assert(u64::MAX * elapsed(price_samples@, i + 1) <= u64::MAX * total_time)
                    by (nonlinear_arith)
                    requires
                        elapsed(price_samples@, i + 1) <= total_time,
                ;
            }
            left = if carry == 1 {
                left - (total_time - over)
            } else {
                left + over
            };
            whole = whole + times + carry;
        }
        i = i + 1;
    }
    proof {
        lemma_quotient_is(
            weighted(price_samples@, n as int),
            total_time as int,
            whole as int,
            left as int,
        );
    }
    whole as u64
}

/// Whether a spot price is within `max_deviation_pct` percent of a reference
/// price: `|current - twap| / twap * 100 <= max_deviation_pct`. A reference of
/// 0 accepts nothing.
pub open spec fn twap_accepts(current_price: int, twap: int, max_deviation_pct: int) -> bool {
    twap > 0 && (distance(current_price, twap) * PERCENT) / twap <= max_deviation_pct
}

/// Whether a spot price is close enough to the time-weighted average to be
/// trusted.
pub fn validate_with_twap(current_price: u64, twap: u64, max_deviation_pct: u64) -> (r: bool)
    ensures
        r == twap_accepts(current_price as int, twap as int, max_deviation_pct as int),
{
    if twap == 0 {
        return false;
    }
    let apart: u64 = if current_price >= twap {
        current_price - twap
    } else {
        twap - current_price
    };
    let deviation: u128 = wide_product(apart, PERCENT) / twap as u128;
    deviation <= max_deviation_pct as u128
}

/// Whether the spot price of a pool, `reserve_out / reserve_in`, is within
/// `max_deviation_pct` percent of a reference price:
/// `|spot - twap| / twap * 100 <= max_deviation_pct`, taken over the reserves
/// with the denominator multiplied out. A reference of 0 accepts nothing, and
/// nothing is accepted of a pool without an input reserve.
pub open spec fn twap_accepts_pool(
    reserve_in: int,
    reserve_out: int,
    twap: int,
    max_deviation_pct: int,
) -> bool {
    reserve_in > 0 && twap > 0 && (distance(reserve_out * SCALE, twap * reserve_in) * PERCENT) / (
    twap * reserve_in) <= max_deviation_pct
}

/// Whether the spot price of a pool is close enough to the time-weighted
/// average to be trusted.
pub fn validate_pool_with_twap(
    reserve_in: u64,
    reserve_out: u64,
    twap: u64,
    max_deviation_pct: u64,
) -> (r: bool)
    ensures
        r == twap_accepts_pool(
            reserve_in as int,
            reserve_out as int,
            twap as int,
            max_deviation_pct as int,
        ),
{
    if reserve_in == 0 || twap == 0 {
        return false;
    }
    let spot: u128 = wide_product(reserve_out, SCALE);
    let reference: u128 = wide_product(twap, reserve_in);
    let apart: u128 = if spot >= reference {
        spot - reference
    } else {
        reference - spot
    };
    proof {
        lemma_mul_strictly_positive(twap as int, reserve_in as int);
    }
    match mul_div(apart, PERCENT as u128, reference) {
        Some(deviation) => deviation <= max_deviation_pct as u128,
        None => false,
    }
}

} // verus!
