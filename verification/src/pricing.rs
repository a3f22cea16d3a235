//! Pricing primitives: what a pool pays out for an input, what it asks for an
//! output, its spot price, and the net result of a round trip through two pools.

use crate::fixed::{
    cap64, lemma_ratio_at_most, mul_div, mul_div_capped, wide_product, PERCENT, SCALE,
};
use vstd::arithmetic::div_mod::*;
use vstd::arithmetic::mul::*;
use vstd::prelude::*;

verus! {

/// What a constant-product pool pays out for `amount_in`, of which 0.3% is
/// kept as the fee: `amount_in * 0.997 * reserve_out / (reserve_in + amount_in * 0.997)`,
/// rounded down. A pool with an empty side pays nothing.
pub open spec fn amount_out_value(reserve_in: int, reserve_out: int, amount_in: int) -> int {
    if reserve_in <= 0 || reserve_out <= 0 || amount_in <= 0 {
        0
    } else {
        (reserve_out * (amount_in * 997)) / (reserve_in * 1000 + amount_in * 997)
    }
}

/// The output of a constant-product pool for a given input, after the fee.
pub fn calculate_amount_out(reserve_in: u64, reserve_out: u64, amount_in: u64) -> (r: u64)
    ensures
        r == amount_out_value(reserve_in as int, reserve_out as int, amount_in as int),
        r <= reserve_out,
        amount_in == 0 ==> r == 0,
{
    if reserve_in == 0 || reserve_out == 0 || amount_in == 0 {
        return 0;
    }
    let taxed: u128 = amount_in as u128 * 997;
    let depth: u128 = reserve_in as u128 * 1000 + taxed;
    proof {
        lemma_ratio_at_most(reserve_out as int, taxed as int, depth as int);
    }
    match mul_div(reserve_out as u128, taxed, depth) {
        Some(q) => q as u64,
        None => 0,
    }
}

/// The input a constant-product pool asks for `amount_out`, fee included:
/// `reserve_in * amount_out * 1000 / ((reserve_out - amount_out) * 997) + 1`,
/// capped to the range of a quantity. An output the pool cannot pay, or none
/// at all, asks for nothing.
pub open spec fn amount_in_value(reserve_in: int, reserve_out: int, amount_out: int) -> int {
    if reserve_in <= 0 || amount_out <= 0 || reserve_out <= amount_out {
        0
    } else {
        cap64(((reserve_in * 1000) * amount_out) / ((reserve_out - amount_out) * 997) + SCALE)
    }
}

/// The input needed to take a given output from a constant-product pool.
pub fn calculate_amount_in(reserve_in: u64, reserve_out: u64, amount_out: u64) -> (r: u64)
    ensures
        r == amount_in_value(reserve_in as int, reserve_out as int, amount_out as int),
{
    if reserve_in == 0 || amount_out == 0 || reserve_out <= amount_out {
        return 0;
    }
    let left: u128 = (reserve_out - amount_out) as u128 * 997;
    match mul_div(reserve_in as u128 * 1000, amount_out as u128, left) {
        Some(q) => {
            if q > (u64::MAX - SCALE) as u128 {
                u64::MAX
            } else {
                q as u64 + SCALE
            }
        },
        None => u64::MAX,
    }
}

/// The spot price of a pool, `reserve_out / reserve_in`, capped to the range
/// of a quantity; 0 for a pool with no input reserve.
pub open spec fn pool_price_value(reserve_in: int, reserve_out: int) -> int {
    if reserve_in <= 0 {
        0
    } else {
        cap64((reserve_out * SCALE) / reserve_in)
    }
}

/// The spot price of a pool.
pub fn calculate_pool_price(reserve_in: u64, reserve_out: u64) -> (r: u64)
    ensures
        r == pool_price_value(reserve_in as int, reserve_out as int),
{
    if reserve_in == 0 {
        return 0;
    }
    mul_div_capped(reserve_out as u128, SCALE as u128, reserve_in as u128)
}

/// By how many percent a trade of `amount` moves the spot price of a pool.
/// The price before is `reserve_out / reserve_in`; the trade adds `amount` to
/// the input reserve and takes its output after the 0.3% fee from the output
/// reserve. The output reserve cancels out of the ratio of the two prices,
/// and the impact is
/// `amount * (1997 * reserve_in + 997 * amount)
///  / ((1000 * reserve_in + 997 * amount) * (reserve_in + amount))`,
/// as a percentage rounded down.
pub open spec fn market_impact_value(reserve_in: int, reserve_out: int, amount: int) -> int {
    if reserve_in <= 0 || reserve_out <= 0 || amount <= 0 {
        0
    } else {
        (PERCENT * amount * (1997 * reserve_in + 997 * amount)) / ((1000 * reserve_in + 997
            * amount) * (reserve_in + amount))
    }
}

/// A trade lowers the price of a pool, and by no more than all of it.
pub proof fn lemma_market_impact_bounded(reserve_in: int, reserve_out: int, amount: int)
    ensures
        0 <= market_impact_value(reserve_in, reserve_out, amount) <= PERCENT,
{
    if reserve_in > 0 && reserve_out > 0 && amount > 0 {
        let top = 1997 * reserve_in + 997 * amount;
        let depth = 1000 * reserve_in + 997 * amount;
        let grown = reserve_in + amount;
        assert(0 <= amount * top <= depth * grown && depth * grown > 0 && PERCENT * amount * top
            == PERCENT * (amount * top)) by (nonlinear_arith)
            requires
                top == 1997 * reserve_in + 997 * amount,
                depth == 1000 * reserve_in + 997 * amount,
                grown == reserve_in + amount,
                reserve_in > 0,
                amount > 0,
        ;
        lemma_ratio_at_most(PERCENT as int, amount * top, depth * grown);
    }
}

/// The price impact of a trade on a pool, in percent.
pub fn calculate_market_impact(
    reserve_in: u64,
    reserve_out: u64,
    flashloan_amount: u64,
) -> (r: u64)
    ensures
        r == market_impact_value(reserve_in as int, reserve_out as int, flashloan_amount as int),
        r <= PERCENT,
{
    if reserve_in == 0 || reserve_out == 0 || flashloan_amount == 0 {
        return 0;
    }
    let scaled: u128 = 100_000_000 * (flashloan_amount as u128);
    let top: u128 = 1997 * (reserve_in as u128) + 997 * (flashloan_amount as u128);
    let depth: u128 = 1000 * (reserve_in as u128) + 997 * (flashloan_amount as u128);
    let grown: u128 = reserve_in as u128 + flashloan_amount as u128;
    proof {
        lemma_market_impact_bounded(
            reserve_in as int,
            reserve_out as int,
            flashloan_amount as int,
        );
        lemma_mul_nonnegative(scaled as int, top as int);
        lemma_div_denominator(scaled * top, depth as int, grown as int);
        lemma_mul_inequality(top as int, 2 * depth, scaled as int);
        lemma_mul_is_commutative(top as int, scaled as int);
        lemma_mul_is_commutative(2 * depth, scaled as int);
        lemma_mul_is_associative(scaled as int, 2, depth as int);
        lemma_div_is_ordered(scaled * top, (scaled * 2) * depth, depth as int);
        lemma_div_multiples_vanish(scaled * 2, depth as int);
    }
    match mul_div(scaled, top, depth) {
        Some(q) => (q / grown) as u64,
        None => 0,
    }
}

/// What a concentrated-liquidity position pays out for `amount_in`, in the
/// simplified continuous model `amount_in * sqrt_price * liquidity / (liquidity + amount_in)`,
/// rounded down and capped to the range of a quantity. No liquidity pays nothing.
pub open spec fn concentrated_out_value(liquidity: int, sqrt_price: int, amount_in: int) -> int {
    if liquidity <= 0 || sqrt_price <= 0 || amount_in <= 0 {
        0
    } else {
        cap64(((amount_in * sqrt_price) * liquidity) / ((liquidity + amount_in) * SCALE))
    }
}

/// The output of a concentrated-liquidity position for a given input.
pub fn concentrated_amount_out(liquidity: u64, sqrt_price: u64, amount_in: u64) -> (r: u64)
    ensures
        r == concentrated_out_value(liquidity as int, sqrt_price as int, amount_in as int),
        amount_in == 0 ==> r == 0,
{
    if liquidity == 0 || sqrt_price == 0 || amount_in == 0 {
        return 0;
    }
    let depth: u128 = (liquidity as u128 + amount_in as u128) * 1_000_000;
    mul_div_capped(wide_product(amount_in, sqrt_price), liquidity as u128, depth)
}

/// What a flashloan of `amount` costs to repay at a fee rate of `fee`:
/// `amount * (1 + fee)`, the fee on it rounded down.
pub open spec fn repayment_value(amount: int, fee: int) -> int {
    amount + (amount * fee) / (SCALE as int)
}

/// The repayment due on a flashloan.
pub fn flashloan_repayment(amount: u64, fee: u64) -> (r: u128)
    ensures
        r == repayment_value(amount as int, fee as int),
        r <= 0x1_0000_0000_0000_0000_0000_0000_0000,
{
    let charge: u128 = wide_product(amount, fee) / 1_000_000;
    amount as u128 + charge
}

/// The net result of borrowing `amount`, selling it to the buy pool, selling
/// what that pays to the sell pool, repaying the loan with its fee and paying
/// for gas: `out_sell - amount * (1 + fee) - gas_cost`.
pub open spec fn arbitrage_profit(
    buy_reserve_in: int,
    buy_reserve_out: int,
    sell_reserve_in: int,
    sell_reserve_out: int,
    amount: int,
    gas_cost: int,
    fee: int,
) -> int {
    amount_out_value(
        sell_reserve_in,
        sell_reserve_out,
        amount_out_value(buy_reserve_in, buy_reserve_out, amount),
    ) - repayment_value(amount, fee) - gas_cost
}

/// The expected profit of one arbitrage round trip; negative where it loses.
pub fn estimate_arbitrage_profit(
    buy_reserve_in: u64,
    buy_reserve_out: u64,
    sell_reserve_in: u64,
    sell_reserve_out: u64,
    amount_in: u64,
    gas_cost: u64,
    flashloan_fee_pct: u64,
) -> (r: i128)
    ensures
        r == arbitrage_profit(
            buy_reserve_in as int,
            buy_reserve_out as int,
            sell_reserve_in as int,
            sell_reserve_out as int,
            amount_in as int,
            gas_cost as int,
            flashloan_fee_pct as int,
        ),
{
    let bought: u64 = calculate_amount_out(buy_reserve_in, buy_reserve_out, amount_in);
    let sold: u64 = calculate_amount_out(sell_reserve_in, sell_reserve_out, bought);
    let due: u128 = flashloan_repayment(amount_in, flashloan_fee_pct);
    sold as i128 - due as i128 - gas_cost as i128
}

} // verus!
