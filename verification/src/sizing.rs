//! Size optimizers: bounded searches for the trade or flashloan size that
//! leaves the most after fees and gas.

use crate::fixed::wide_product;
use crate::pricing::{
    amount_out_value, arbitrage_profit, calculate_amount_out, concentrated_amount_out,
    concentrated_out_value, estimate_arbitrage_profit, flashloan_repayment, repayment_value,
};
use vstd::arithmetic::mul::*;
use vstd::prelude::*;

verus! {

/// The number of sizes that the scan of `optimize_trade_size_quadratic` tries.
pub const SCAN_POINTS: u64 = 100;

/// The largest size that a search between two pools considers: 30% of the
/// smaller of the two input reserves.
pub open spec fn size_limit(buy_reserve_in: int, sell_reserve_in: int) -> int {
    if (buy_reserve_in * 3) / 10 <= (sell_reserve_in * 3) / 10 {
        (buy_reserve_in * 3) / 10
    } else {
        (sell_reserve_in * 3) / 10
    }
}

/// The smaller of the input reserves of two pools.
pub open spec fn smaller_reserve(buy_reserve_in: int, sell_reserve_in: int) -> int {
    if buy_reserve_in <= sell_reserve_in {
        buy_reserve_in
    } else {
        sell_reserve_in
    }
}

/// Point `i` of the scan: `i` hundredths of 30% of the smaller input
/// reserve, rounded down once.
pub open spec fn scan_point(smaller: int, i: int) -> int {
    (3 * (i * smaller)) / 1000
}

/// The best size among the first `k` points of the scan, and its profit: the
/// first point, in scan order, whose profit is positive and exceeds that of
/// every point before it; `(0, 0)` while no point has a positive profit.
pub open spec fn scan_best(
    buy_reserve_in: int,
    buy_reserve_out: int,
    sell_reserve_in: int,
    sell_reserve_out: int,
    gas_cost: int,
    fee: int,
    k: nat,
) -> (int, int)
    decreases k,
{
    if k == 0 {
        (0, 0)
    } else {
        let before = scan_best(
            buy_reserve_in,
            buy_reserve_out,
            sell_reserve_in,
            sell_reserve_out,
            gas_cost,
            fee,
            (k - 1) as nat,
        );
        let size = scan_point(smaller_reserve(buy_reserve_in, sell_reserve_in), k - 1);
        let profit = arbitrage_profit(
            buy_reserve_in,
            buy_reserve_out,
            sell_reserve_in,
            sell_reserve_out,
            size,
            gas_cost,
            fee,
        );
        if size > 0 && profit > before.1 {
            (size, profit)
        } else {
            before
        }
    }
}

/// The size that the scan settles on: the best among all its points.
pub open spec fn optimal_size_value(
    buy_reserve_in: int,
    buy_reserve_out: int,
    sell_reserve_in: int,
    sell_reserve_out: int,
    gas_cost: int,
    fee: int,
) -> int {
    scan_best(
        buy_reserve_in,
        buy_reserve_out,
        sell_reserve_in,
        sell_reserve_out,
        gas_cost,
        fee,
        SCAN_POINTS as nat,
    ).0
}

/// What the scan holds after `k` points is either nothing, with profit 0, or
/// one of those points, with its own positive profit; and no positive point
/// among them has a higher profit.
pub proof fn lemma_scan_best_is_maximal(
    buy_reserve_in: int,
    buy_reserve_out: int,
    sell_reserve_in: int,
    sell_reserve_out: int,
    gas_cost: int,
    fee: int,
    k: nat,
)
    ensures
        ({
            let best = scan_best(
                buy_reserve_in,
                buy_reserve_out,
                sell_reserve_in,
                sell_reserve_out,
                gas_cost,
                fee,
                k,
            );
            let limit = smaller_reserve(buy_reserve_in, sell_reserve_in);
            &&& best.0 >= 0
            &&& best.1 >= 0
            &&& best.0 == 0 ==> best.1 == 0
            &&& best.0 > 0 ==> best.1 > 0 && best.1 == arbitrage_profit(
                buy_reserve_in,
                buy_reserve_out,
                sell_reserve_in,
                sell_reserve_out,
                best.0,
                gas_cost,
                fee,
            ) && exists|j: int| 0 <= j < k && best.0 == #[trigger] scan_point(limit, j)
            &&& forall|j: int|
                0 <= j < k && #[trigger] scan_point(limit, j) > 0 ==> arbitrage_profit(
                    buy_reserve_in,
                    buy_reserve_out,
                    sell_reserve_in,
                    sell_reserve_out,
                    scan_point(limit, j),
                    gas_cost,
                    fee,
                ) <= best.1
        }),
    decreases k,
{
    if k > 0 {
        lemma_scan_best_is_maximal(
            buy_reserve_in,
            buy_reserve_out,
            sell_reserve_in,
            sell_reserve_out,
            gas_cost,
            fee,
            (k - 1) as nat,
        );
    }
}

/// The size, among 100 evenly spaced ones that start at 0 and stay below 30%
/// of the smaller input reserve, at which a round trip through the two pools
/// leaves the most; 0 where none of them leaves anything. Each size is its
/// share of the reserve rounded down once.
pub fn optimize_trade_size_quadratic(
    buy_reserve_in: u64,
    buy_reserve_out: u64,
    sell_reserve_in: u64,
    sell_reserve_out: u64,
    gas_cost: u64,
    flashloan_fee_pct: u64,
) -> (r: u64)
    ensures
        r == optimal_size_value(
            buy_reserve_in as int,
            buy_reserve_out as int,
            sell_reserve_in as int,
            sell_reserve_out as int,
            gas_cost as int,
            flashloan_fee_pct as int,
        ),
        r <= size_limit(buy_reserve_in as int, sell_reserve_in as int),
        r == 0 || arbitrage_profit(
            buy_reserve_in as int,
            buy_reserve_out as int,
            sell_reserve_in as int,
            sell_reserve_out as int,
            r as int,
            gas_cost as int,
            flashloan_fee_pct as int,
        ) > 0,
{
    let smaller: u64 = if buy_reserve_in <= sell_reserve_in {
        buy_reserve_in
    } else {
        sell_reserve_in
    };
    let mut best_size: u64 = 0;
    let mut best_profit: i128 = 0;
    let mut i: u64 = 0;
    while i < SCAN_POINTS
        invariant
            0 <= i <= SCAN_POINTS,
            smaller == smaller_reserve(buy_reserve_in as int, sell_reserve_in as int),
            best_size <= (smaller * 3) / 10,
            (best_size as int, best_profit as int) == scan_best(
                buy_reserve_in as int,
                buy_reserve_out as int,
                sell_reserve_in as int,
                sell_reserve_out as int,
                gas_cost as int,
                flashloan_fee_pct as int,
                i as nat,
            ),
        decreases SCAN_POINTS - i,
    {
        let steps: u128 = wide_product(i, smaller);
        proof {
            lemma_mul_inequality(i as int, 99, smaller as int);
        }
        let amount: u64 = ((3 * steps) / 1000) as u64;
        if amount > 0 {
            let profit: i128 = estimate_arbitrage_profit(
                buy_reserve_in,
                buy_reserve_out,
                sell_reserve_in,
                sell_reserve_out,
                amount,
                gas_cost,
                flashloan_fee_pct,
            );
            if profit > best_profit {
                best_profit = profit;
                best_size = amount;
            }
        }
        i = i + 1;
    }
    proof {
        lemma_scan_best_is_maximal(
            buy_reserve_in as int,
            buy_reserve_out as int,
            sell_reserve_in as int,
            sell_reserve_out as int,
            gas_cost as int,
            flashloan_fee_pct as int,
            SCAN_POINTS as nat,
        );
    }
    best_size
}

/// The number of halvings that `optimal_trade_size` makes at most.
pub const TRADE_ROUNDS: u32 = 50;

/// The bracket width, 0.0001, below which `optimal_trade_size` stops.
pub const TRADE_TOLERANCE: u64 = 100;

/// The number of halvings that a flashloan search makes at most.
pub const LOAN_ROUNDS: u32 = 100;

/// The bracket width, 0.01, below which a flashloan search stops.
pub const LOAN_TOLERANCE: u64 = 10_000;

/// What a plain trade of `size` into a pool leaves: the output, less the size
/// itself and the gas.
pub open spec fn trade_profit(reserve_in: int, reserve_out: int, gas_cost: int, size: int) -> int {
    amount_out_value(reserve_in, reserve_out, size) - size - gas_cost
}

/// Whether a plain trade of `size` pays: its profit reaches `min_profit` and
/// is not a loss.
pub open spec fn trade_pays(
    reserve_in: int,
    reserve_out: int,
    gas_cost: int,
    min_profit: int,
    size: int,
) -> bool {
    trade_profit(reserve_in, reserve_out, gas_cost, size) >= min_profit && trade_profit(
        reserve_in,
        reserve_out,
        gas_cost,
        size,
    ) >= 0
}

/// The bisection of `optimal_trade_size` from a bracket `[low, high]` with
/// `rounds` halvings left. Each round tries the midpoint: where the trade
/// pays there it becomes the best size and the lower end, else the upper end. The search ends with the rounds or once the bracket is narrower
/// than the tolerance.
pub open spec fn trade_search(
    reserve_in: int,
    reserve_out: int,
    gas_cost: int,
    min_profit: int,
    low: int,
    high: int,
    best: int,
    rounds: nat,
) -> int
    decreases rounds,
{
    if rounds == 0 {
        best
    } else {
        let mid = (low + high) / 2;
        let reached = trade_pays(reserve_in, reserve_out, gas_cost, min_profit, mid);
        let next_low = if reached {
            mid
        } else {
            low
        };
        let next_high = if reached {
            high
        } else {
            mid
        };
        let next_best = if reached {
            mid
        } else {
            best
        };
        if next_high - next_low < TRADE_TOLERANCE {
            next_best
        } else {
            trade_search(
                reserve_in,
                reserve_out,
                gas_cost,
                min_profit,
                next_low,
                next_high,
                next_best,
                (rounds - 1) as nat,
            )
        }
    }
}

/// The bisection of `optimal_trade_size` stays within its bracket, and ends
/// on a size at which the trade pays, or on 0, where it started so.
pub proof fn lemma_trade_search_sound(
    reserve_in: int,
    reserve_out: int,
    gas_cost: int,
    min_profit: int,
    low: int,
    high: int,
    best: int,
    rounds: nat,
)
    requires
        0 <= best <= low <= high,
        best == 0 || trade_pays(reserve_in, reserve_out, gas_cost, min_profit, best),
    ensures
        ({
            let size = trade_search(
                reserve_in,
                reserve_out,
                gas_cost,
                min_profit,
                low,
                high,
                best,
                rounds,
            );
            &&& 0 <= size <= high
            &&& size == 0 || trade_pays(reserve_in, reserve_out, gas_cost, min_profit, size)
        }),
    decreases rounds,
{
    if rounds > 0 {
        let mid = (low + high) / 2;
        let reached = trade_pays(reserve_in, reserve_out, gas_cost, min_profit, mid);
        let next_low = if reached {
            mid
        } else {
            low
        };
        let next_high = if reached {
            high
        } else {
            mid
        };
        let next_best = if reached {
            mid
        } else {
            best
        };
        if next_high - next_low >= TRADE_TOLERANCE {
            lemma_trade_search_sound(
                reserve_in,
                reserve_out,
                gas_cost,
                min_profit,
                next_low,
                next_high,
                next_best,
                (rounds - 1) as nat,
            );
        }
    }
}

/// The size that `optimal_trade_size` returns: 0 for a pool with an empty
/// side, else the outcome of the bisection over `[0, reserve_in / 10]`.
pub open spec fn optimal_trade_size_value(
    reserve_in: int,
    reserve_out: int,
    gas_cost: int,
    min_profit: int,
) -> int {
    if reserve_in <= 0 || reserve_out <= 0 {
        0
    } else {
        trade_search(
            reserve_in,
            reserve_out,
            gas_cost,
            min_profit,
            0,
            reserve_in / 10,
            0,
            TRADE_ROUNDS as nat,
        )
    }
}

/// The largest size found by bisection, within 10% of the input reserve, at
/// which a plain trade leaves at least `min_profit` after gas and does not
/// lose; 0 where the bisection finds none.
pub fn optimal_trade_size(
    reserve_in: u64,
    reserve_out: u64,
    gas_cost: u64,
    min_profit: i128,
) -> (r: u64)
    ensures
        r == optimal_trade_size_value(
            reserve_in as int,
            reserve_out as int,
            gas_cost as int,
            min_profit as int,
        ),
        r <= reserve_in / 10,
        r == 0 || trade_pays(
            reserve_in as int,
            reserve_out as int,
            gas_cost as int,
            min_profit as int,
            r as int,
        ),
{
    if reserve_in == 0 || reserve_out == 0 {
        return 0;
    }
    let mut low: u64 = 0;
    let mut high: u64 = reserve_in / 10;
    let mut best_size: u64 = 0;
    let mut round: u32 = 0;
    while round < TRADE_ROUNDS
        invariant_except_break
            trade_search(
                reserve_in as int,
                reserve_out as int,
                gas_cost as int,
                min_profit as int,
                low as int,
                high as int,
                best_size as int,
                (TRADE_ROUNDS - round) as nat,
            ) == optimal_trade_size_value(
                reserve_in as int,
                reserve_out as int,
                gas_cost as int,
                min_profit as int,
            ),
        invariant
            round <= TRADE_ROUNDS,
            reserve_in > 0,
            reserve_out > 0,
            low <= high <= reserve_in / 10,
            best_size <= low,
            best_size == 0 || trade_pays(
                reserve_in as int,
                reserve_out as int,
                gas_cost as int,
                min_profit as int,
                best_size as int,
            ),
        ensures
            best_size == optimal_trade_size_value(
                reserve_in as int,
                reserve_out as int,
                gas_cost as int,
                min_profit as int,
            ),
        decreases TRADE_ROUNDS - round,
    {
        let mid: u64 = low + (high - low) / 2;
        let paid: u64 = calculate_amount_out(reserve_in, reserve_out, mid);
        let profit: i128 = paid as i128 - mid as i128 - gas_cost as i128;
        if profit >= min_profit && profit >= 0 {
            best_size = mid;
            low = mid;
        } else {
            high = mid;
        }
        round = round + 1;
        if high - low < TRADE_TOLERANCE {
            break ;
        }
    }
    best_size
}

/// The bisection of a flashloan search from a bracket `[low, high]` with
/// `rounds` halvings left, over any profit function. Each round tries the
/// midpoint: where its profit exceeds the best so far it is recorded; where
/// its profit is positive it becomes the lower end, else the upper end. The
/// search ends with the rounds or once the bracket is narrower than the
/// tolerance.
pub open spec fn loan_search(
    profit_at: spec_fn(int) -> int,
    low: int,
    high: int,
    best: int,
    best_profit: int,
    rounds: nat,
) -> int
    decreases rounds,
{
    if rounds == 0 {
        best
    } else {
        let mid = (low + high) / 2;
        let profit = profit_at(mid);
        let next_best = if profit > best_profit {
            mid
        } else {
            best
        };
        let next_profit = if profit > best_profit {
            profit
        } else {
            best_profit
        };
        let next_low = if profit > 0 {
            mid
        } else {
            low
        };
        let next_high = if profit > 0 {
            high
        } else {
            mid
        };
        if next_high - next_low < LOAN_TOLERANCE {
            next_best
        } else {
            loan_search(
                profit_at,
                next_low,
                next_high,
                next_best,
                next_profit,
                (rounds - 1) as nat,
            )
        }
    }
}

/// A flashloan search that starts from a recorded size with its own positive
/// profit, or from nothing, stays within its bracket and ends on a size with
/// a positive profit, or on 0.
pub proof fn lemma_loan_search_profitable(
    profit_at: spec_fn(int) -> int,
    low: int,
    high: int,
    best: int,
    best_profit: int,
    rounds: nat,
)
    requires
        0 <= best <= low <= high,
        best_profit >= 0,
        best_profit == 0 ==> best == 0,
        best_profit > 0 ==> profit_at(best) == best_profit,
    ensures
        ({
            let size = loan_search(profit_at, low, high, best, best_profit, rounds);
            &&& 0 <= size <= high
            &&& size == 0 || profit_at(size) > 0
        }),
    decreases rounds,
{
    if rounds > 0 {
        let mid = (low + high) / 2;
        let profit = profit_at(mid);
        let next_best = if profit > best_profit {
            mid
        } else {
            best
        };
        let next_profit = if profit > best_profit {
            profit
        } else {
            best_profit
        };
        let next_low = if profit > 0 {
            mid
        } else {
            low
        };
        let next_high = if profit > 0 {
            high
        } else {
            mid
        };
        if next_high - next_low >= LOAN_TOLERANCE {
            lemma_loan_search_profitable(
                profit_at,
                next_low,
                next_high,
                next_best,
                next_profit,
                (rounds - 1) as nat,
            );
        }
    }
}

/// The profit of a flashloan round trip through two constant-product pools,
/// as a function of the amount borrowed.
pub open spec fn loan_profit(
    reserve_in_buy: int,
    reserve_out_buy: int,
    reserve_in_sell: int,
    reserve_out_sell: int,
    flashloan_fee: int,
    gas_cost: int,
) -> spec_fn(int) -> int {
    |amount: int|
        arbitrage_profit(
            reserve_in_buy,
            reserve_out_buy,
            reserve_in_sell,
            reserve_out_sell,
            amount,
            gas_cost,
            flashloan_fee,
        )
}

/// The amount that `calculate_flashloan_amount` returns: 0 where a pool has
/// an empty side, else the outcome of the bisection over `[0, limit]`, the
/// limit being 30% of the smaller input reserve.
pub open spec fn flashloan_amount_value(
    reserve_in_buy: int,
    reserve_out_buy: int,
    reserve_in_sell: int,
    reserve_out_sell: int,
    flashloan_fee: int,
    gas_cost: int,
) -> int {
    if reserve_in_buy <= 0 || reserve_out_buy <= 0 || reserve_in_sell <= 0 || reserve_out_sell
        <= 0 {
        0
    } else {
        loan_search(
            loan_profit(
                reserve_in_buy,
                reserve_out_buy,
                reserve_in_sell,
                reserve_out_sell,
                flashloan_fee,
                gas_cost,
            ),
            0,
            size_limit(reserve_in_buy, reserve_in_sell),
            0,
            0,
            LOAN_ROUNDS as nat,
        )
    }
}

/// The flashloan amount, found by bisection within 30% of the smaller input
/// reserve, whose round trip through the buy pool and the sell pool leaves the
/// most after the loan fee and gas; 0 where the bisection finds no amount with
/// a positive profit.
pub fn calculate_flashloan_amount(
    reserve_in_buy: u64,
    reserve_out_buy: u64,
    reserve_in_sell: u64,
    reserve_out_sell: u64,
    flashloan_fee: u64,
    gas_cost: u64,
) -> (r: u64)
    ensures
        r == flashloan_amount_value(
            reserve_in_buy as int,
            reserve_out_buy as int,
            reserve_in_sell as int,
            reserve_out_sell as int,
            flashloan_fee as int,
            gas_cost as int,
        ),
        r <= size_limit(reserve_in_buy as int, reserve_in_sell as int),
        r == 0 || arbitrage_profit(
            reserve_in_buy as int,
            reserve_out_buy as int,
            reserve_in_sell as int,
            reserve_out_sell as int,
            r as int,
            gas_cost as int,
            flashloan_fee as int,
        ) > 0,
{
    if reserve_in_buy == 0 || reserve_out_buy == 0 || reserve_in_sell == 0 || reserve_out_sell
        == 0 {
        return 0;
    }
    let buy_limit: u64 = ((reserve_in_buy as u128 * 3) / 10) as u64;
    let sell_limit: u64 = ((reserve_in_sell as u128 * 3) / 10) as u64;
    let max_flashloan: u64 = if buy_limit <= sell_limit {
        buy_limit
    } else {
        sell_limit
    };
    let ghost profit_at = loan_profit(
        reserve_in_buy as int,
        reserve_out_buy as int,
        reserve_in_sell as int,
        reserve_out_sell as int,
        flashloan_fee as int,
        gas_cost as int,
    );
    let ghost target = loan_search(profit_at, 0, max_flashloan as int, 0, 0, LOAN_ROUNDS as nat);
    proof {
        lemma_loan_search_profitable(profit_at, 0, max_flashloan as int, 0, 0, LOAN_ROUNDS as nat);
    }
    let mut low: u64 = 0;
    let mut high: u64 = max_flashloan;
    let mut best_amount: u64 = 0;
    let mut best_profit: i128 = 0;
    let mut round: u32 = 0;
    while round < LOAN_ROUNDS
        invariant_except_break
            loan_search(
                profit_at,
                low as int,
                high as int,
                best_amount as int,
                best_profit as int,
                (LOAN_ROUNDS - round) as nat,
            ) == target,
        invariant
            round <= LOAN_ROUNDS,
            profit_at == loan_profit(
                reserve_in_buy as int,
                reserve_out_buy as int,
                reserve_in_sell as int,
                reserve_out_sell as int,
                flashloan_fee as int,
                gas_cost as int,
            ),
            low <= high <= max_flashloan,
            best_amount <= low,
            best_profit >= 0,
        ensures
            best_amount == target,
            best_amount <= max_flashloan,
        decreases LOAN_ROUNDS - round,
    {
        let mid: u64 = low + (high - low) / 2;
        let profit: i128 = estimate_arbitrage_profit(
            reserve_in_buy,
            reserve_out_buy,
            reserve_in_sell,
            reserve_out_sell,
            mid,
            gas_cost,
            flashloan_fee,
        );
        if profit > best_profit {
            best_profit = profit;
            best_amount = mid;
        }
        if profit > 0 {
            low = mid;
        } else {
            high = mid;
        }
        round = round + 1;
        if high - low < LOAN_TOLERANCE {
            break ;
        }
    }
    best_amount
}

/// The profit of a flashloan round trip through one concentrated-liquidity
/// position, bought at one square-root price and sold at another, as a
/// function of the amount borrowed.
pub open spec fn concentrated_loan_profit(
    liquidity: int,
    sqrt_price_buy: int,
    sqrt_price_sell: int,
    flashloan_fee: int,
    gas_cost: int,
) -> spec_fn(int) -> int {
    |amount: int|
        concentrated_out_value(
            liquidity,
            sqrt_price_sell,
            concentrated_out_value(liquidity, sqrt_price_buy, amount),
        ) - repayment_value(amount, flashloan_fee) - gas_cost
}

/// The amount that `calculate_flashloan_amount_v3` returns: 0 without
/// liquidity or without a price, else the outcome of the bisection over
/// `[0, liquidity * 0.3]`.
pub open spec fn flashloan_amount_v3_value(
    liquidity: int,
    sqrt_price_buy: int,
    sqrt_price_sell: int,
    flashloan_fee: int,
    gas_cost: int,
) -> int {
    if liquidity <= 0 || sqrt_price_buy <= 0 || sqrt_price_sell <= 0 {
        0
    } else {
        loan_search(
            concentrated_loan_profit(
                liquidity,
                sqrt_price_buy,
                sqrt_price_sell,
                flashloan_fee,
                gas_cost,
            ),
            0,
            (liquidity * 3) / 10,
            0,
            0,
            LOAN_ROUNDS as nat,
        )
    }
}

/// The flashloan amount, found by bisection within 30% of the liquidity,
/// whose round trip through a concentrated-liquidity position leaves the most
/// after the loan fee and gas; 0 where the bisection finds no amount with a
/// positive profit.
pub fn calculate_flashloan_amount_v3(
    liquidity: u64,
    sqrt_price_buy: u64,
    sqrt_price_sell: u64,
    flashloan_fee: u64,
    gas_cost: u64,
) -> (r: u64)
    ensures
        r == flashloan_amount_v3_value(
            liquidity as int,
            sqrt_price_buy as int,
            sqrt_price_sell as int,
            flashloan_fee as int,
            gas_cost as int,
        ),
        r <= (liquidity * 3) / 10,
        r == 0 || concentrated_loan_profit(
            liquidity as int,
            sqrt_price_buy as int,
            sqrt_price_sell as int,
            flashloan_fee as int,
            gas_cost as int,
        )(r as int) > 0,
{
    if liquidity == 0 || sqrt_price_buy == 0 || sqrt_price_sell == 0 {
        return 0;
    }
    let max_amount: u64 = ((liquidity as u128 * 3) / 10) as u64;
    let ghost profit_at = concentrated_loan_profit(
        liquidity as int,
        sqrt_price_buy as int,
        sqrt_price_sell as int,
        flashloan_fee as int,
        gas_cost as int,
    );
    let ghost target = loan_search(profit_at, 0, max_amount as int, 0, 0, LOAN_ROUNDS as nat);
    proof {
        lemma_loan_search_profitable(profit_at, 0, max_amount as int, 0, 0, LOAN_ROUNDS as nat);
    }
    let mut low: u64 = 0;
    let mut high: u64 = max_amount;
    let mut best_amount: u64 = 0;
    let mut best_profit: i128 = 0;
    let mut round: u32 = 0;
    while round < LOAN_ROUNDS
        invariant_except_break
            loan_search(
                profit_at,
                low as int,
                high as int,
                best_amount as int,
                best_profit as int,
                (LOAN_ROUNDS - round) as nat,
            ) == target,
        invariant
            round <= LOAN_ROUNDS,
            profit_at == concentrated_loan_profit(
                liquidity as int,
                sqrt_price_buy as int,
                sqrt_price_sell as int,
                flashloan_fee as int,
                gas_cost as int,
            ),
            low <= high <= max_amount,
            best_amount <= low,
            best_profit >= 0,
        ensures
            best_amount == target,
            best_amount <= max_amount,
        decreases LOAN_ROUNDS - round,
    {
        let mid: u64 = low + (high - low) / 2;
        let bought: u64 = concentrated_amount_out(liquidity, sqrt_price_buy, mid);
        let sold: u64 = concentrated_amount_out(liquidity, sqrt_price_sell, bought);
        let due: u128 = flashloan_repayment(mid, flashloan_fee);
        let profit: i128 = sold as i128 - due as i128 - gas_cost as i128;
        if profit > best_profit {
            best_profit = profit;
            best_amount = mid;
        }
        if profit > 0 {
            low = mid;
        } else {
            high = mid;
        }
        round = round + 1;
        if high - low < LOAN_TOLERANCE {
            break ;
        }
    }
    best_amount
}

} // verus!
