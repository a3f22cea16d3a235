//! The opportunity pipeline: find a price gap between two pools, check the
//! buy pool's price against its time-weighted average, size the trade,
//! estimate its profit and decide whether it is worth executing.

use crate::fixed::{cap64, distance, mul_div_capped, wide_product, PERCENT};
use crate::pricing::{arbitrage_profit, estimate_arbitrage_profit};
use crate::sizing::{optimal_size_value, optimize_trade_size_quadratic};
use crate::twap::{calculate_twap, twap_accepts_pool, twap_value, validate_pool_with_twap};
use vstd::arithmetic::mul::*;
use vstd::prelude::*;

verus! {

/// The policy of one evaluation, chosen by the caller.
pub struct ArbitrageConfig {
    /// What executing the trade costs in gas.
    pub gas_cost: u64,
    /// The flashloan fee, as a fraction of the amount borrowed.
    pub flashloan_fee_pct: u64,
    /// The smallest price gap between the pools, in percent, worth looking at.
    pub min_price_diff_pct: u64,
    /// How far, in percent, the buy price may be from its time-weighted average.
    pub max_twap_deviation_pct: u64,
    /// The smallest expected profit worth executing for.
    pub min_profit_threshold: i128,
}

/// The gap between the spot prices of two pools, in percent of the lower
/// one: `|price1 - price2| / min(price1, price2) * 100`, each price being
/// `reserve_out / reserve_in`. The ratio is taken over the reserves, with the
/// denominators multiplied out, rounded down once and capped to the range of
/// a quantity; it is 0 where a pool has an empty side and so no price.
pub open spec fn pool_gap_value(
    pool1_reserve_in: int,
    pool1_reserve_out: int,
    pool2_reserve_in: int,
    pool2_reserve_out: int,
) -> int {
    if pool1_reserve_in <= 0 || pool1_reserve_out <= 0 || pool2_reserve_in <= 0
        || pool2_reserve_out <= 0 {
        0
    } else {
        let first = pool1_reserve_out * pool2_reserve_in;
        let second = pool2_reserve_out * pool1_reserve_in;
        cap64(
            (distance(first, second) * PERCENT) / (if first <= second {
                first
            } else {
                second
            }),
        )
    }
}

/// Which way to trade between two pools: 0 for not at all, where a pool has
/// no price or the gap is below `min_price_diff_pct`; 1 to buy from pool 1,
/// the cheaper, and sell to pool 2; 2 for the reverse.
pub open spec fn direction_value(
    pool1_reserve_in: int,
    pool1_reserve_out: int,
    pool2_reserve_in: int,
    pool2_reserve_out: int,
    min_price_diff_pct: int,
) -> int {
    if pool1_reserve_in <= 0 || pool1_reserve_out <= 0 || pool2_reserve_in <= 0
        || pool2_reserve_out <= 0 || pool_gap_value(
        pool1_reserve_in,
        pool1_reserve_out,
        pool2_reserve_in,
        pool2_reserve_out,
    ) < min_price_diff_pct {
        0
    } else if pool1_reserve_out * pool2_reserve_in < pool2_reserve_out * pool1_reserve_in {
        1
    } else {
        2
    }
}

/// Compares the spot prices of two pools. Returns whether there is an
/// opportunity, the price gap in percent, and the direction of the trade.
pub fn identify_arbitrage_opportunity(
    pool1_reserve_in: u64,
    pool1_reserve_out: u64,
    pool2_reserve_in: u64,
    pool2_reserve_out: u64,
    min_price_diff_pct: u64,
) -> (r: (bool, u64, u8))
    ensures
        r.2 == direction_value(
            pool1_reserve_in as int,
            pool1_reserve_out as int,
            pool2_reserve_in as int,
            pool2_reserve_out as int,
            min_price_diff_pct as int,
        ),
        r.1 == pool_gap_value(
            pool1_reserve_in as int,
            pool1_reserve_out as int,
            pool2_reserve_in as int,
            pool2_reserve_out as int,
        ),
        r.0 == (r.2 != 0),
{
    if pool1_reserve_in == 0 || pool1_reserve_out == 0 || pool2_reserve_in == 0
        || pool2_reserve_out == 0 {
        return (false, 0, 0);
    }
    let price1: u128 = wide_product(pool1_reserve_out, pool2_reserve_in);
    let price2: u128 = wide_product(pool2_reserve_out, pool1_reserve_in);
    let apart: u128 = if price1 >= price2 {
        price1 - price2
    } else {
        price2 - price1
    };
    let lower: u128 = if price1 <= price2 {
        price1
    } else {
        price2
    };
    proof {
        lemma_mul_strictly_positive(pool1_reserve_out as int, pool2_reserve_in as int);
        lemma_mul_strictly_positive(pool2_reserve_out as int, pool1_reserve_in as int);
    }
    let price_diff: u64 = mul_div_capped(apart, PERCENT as u128, lower);
    if price_diff >= min_price_diff_pct {
        if price1 < price2 {
            (true, price_diff, 1)
        } else {
            (true, price_diff, 2)
        }
    } else {
        (false, price_diff, 0)
    }
}

/// What the pipeline decides once the direction of the trade is fixed and the
/// buy price has passed its check: the size from the scan, the profit
/// expected at that size, and whether that profit reaches the threshold.
/// Where the scan finds no size, nothing is executed.
pub open spec fn sized_decision(
    buy_reserve_in: int,
    buy_reserve_out: int,
    sell_reserve_in: int,
    sell_reserve_out: int,
    config: ArbitrageConfig,
) -> (bool, int, int) {
    let amount = optimal_size_value(
        buy_reserve_in,
        buy_reserve_out,
        sell_reserve_in,
        sell_reserve_out,
        config.gas_cost as int,
        config.flashloan_fee_pct as int,
    );
    if amount <= 0 {
        (false, 0, 0)
    } else {
        let profit = arbitrage_profit(
            buy_reserve_in,
            buy_reserve_out,
            sell_reserve_in,
            sell_reserve_out,
            amount,
            config.gas_cost as int,
            config.flashloan_fee_pct as int,
        );
        (profit >= config.min_profit_threshold, amount, profit)
    }
}

/// The outcome of the full pipeline, as `(should_execute, optimal_amount,
/// expected_profit)`: nothing where the pools show no opportunity or the
/// spot price of the buy pool strays from the time-weighted average of its
/// window, else the sized decision for the direction found.
pub open spec fn flow_value(
    pool1_reserve_in: int,
    pool1_reserve_out: int,
    pool2_reserve_in: int,
    pool2_reserve_out: int,
    samples_pool1: Seq<(u64, u64)>,
    samples_pool2: Seq<(u64, u64)>,
    config: ArbitrageConfig,
) -> (bool, int, int) {
    let direction = direction_value(
        pool1_reserve_in,
        pool1_reserve_out,
        pool2_reserve_in,
        pool2_reserve_out,
        config.min_price_diff_pct as int,
    );
    if direction == 0 {
        (false, 0, 0)
    } else if direction == 1 {
        if twap_accepts_pool(
            pool1_reserve_in,
            pool1_reserve_out,
            twap_value(samples_pool1),
            config.max_twap_deviation_pct as int,
        ) {
            sized_decision(
                pool1_reserve_in,
                pool1_reserve_out,
                pool2_reserve_in,
                pool2_reserve_out,
                config,
            )
        } else {
            (false, 0, 0)
        }
    } else {
        if twap_accepts_pool(
            pool2_reserve_in,
            pool2_reserve_out,
            twap_value(samples_pool2),
            config.max_twap_deviation_pct as int,
        ) {
            sized_decision(
                pool2_reserve_in,
                pool2_reserve_out,
                pool1_reserve_in,
                pool1_reserve_out,
                config,
            )
        } else {
            (false, 0, 0)
        }
    }
}

/// Sizes a trade whose direction is fixed, estimates its profit and gates it
/// on the profit threshold.
fn decide_sized(
    buy_reserve_in: u64,
    buy_reserve_out: u64,
    sell_reserve_in: u64,
    sell_reserve_out: u64,
    config: &ArbitrageConfig,
) -> (r: (bool, u64, i128))
    ensures
        (r.0, r.1 as int, r.2 as int) == sized_decision(
            buy_reserve_in as int,
            buy_reserve_out as int,
            sell_reserve_in as int,
            sell_reserve_out as int,
            *config,
        ),
{
    let optimal_amount: u64 = optimize_trade_size_quadratic(
        buy_reserve_in,
        buy_reserve_out,
        sell_reserve_in,
        sell_reserve_out,
        config.gas_cost,
        config.flashloan_fee_pct,
    );
    if optimal_amount == 0 {
        return (false, 0, 0);
    }
    let expected_profit: i128 = estimate_arbitrage_profit(
        buy_reserve_in,
        buy_reserve_out,
        sell_reserve_in,
        sell_reserve_out,
        optimal_amount,
        config.gas_cost,
        config.flashloan_fee_pct,
    );
    (expected_profit >= config.min_profit_threshold, optimal_amount, expected_profit)
}

/// Runs the full pipeline on two pools and their price windows. Returns
/// `(should_execute, optimal_amount, expected_profit)`; the amount and the
/// profit are reported also where the profit misses the threshold.
pub fn execute_arbitrage_flow(
    pool1_reserve_in: u64,
    pool1_reserve_out: u64,
    pool2_reserve_in: u64,
    pool2_reserve_out: u64,
    price_samples_pool1: &Vec<(u64, u64)>,
    price_samples_pool2: &Vec<(u64, u64)>,
    config: &ArbitrageConfig,
) -> (r: (bool, u64, i128))
    ensures
        (r.0, r.1 as int, r.2 as int) == flow_value(
            pool1_reserve_in as int,
            pool1_reserve_out as int,
            pool2_reserve_in as int,
            pool2_reserve_out as int,
            price_samples_pool1@,
            price_samples_pool2@,
            *config,
        ),
        pool_gap_value(
            pool1_reserve_in as int,
            pool1_reserve_out as int,
            pool2_reserve_in as int,
            pool2_reserve_out as int,
        ) < config.min_price_diff_pct ==> r == (false, 0u64, 0i128),
        r.0 ==> r.1 > 0 && r.2 >= config.min_profit_threshold,
{
    let (has_opportunity, _price_diff, direction) = identify_arbitrage_opportunity(
        pool1_reserve_in,
        pool1_reserve_out,
        pool2_reserve_in,
        pool2_reserve_out,
        config.min_price_diff_pct,
    );
    if !has_opportunity {
        return (false, 0, 0);
    }
    let buy_first: bool = direction == 1;
    let buy_reserve_in: u64 = if buy_first {
        pool1_reserve_in
    } else {
        pool2_reserve_in
    };
    let buy_reserve_out: u64 = if buy_first {
        pool1_reserve_out
    } else {
        pool2_reserve_out
    };
    let sell_reserve_in: u64 = if buy_first {
        pool2_reserve_in
    } else {
        pool1_reserve_in
    };
    let sell_reserve_out: u64 = if buy_first {
        pool2_reserve_out
    } else {
        pool1_reserve_out
    };
    let twap: u64 = if buy_first {
        calculate_twap(price_samples_pool1)
    } else {
        calculate_twap(price_samples_pool2)
    };
    if !validate_pool_with_twap(
        buy_reserve_in,
        buy_reserve_out,
        twap,
        config.max_twap_deviation_pct,
    ) {
        return (false, 0, 0);
    }
    decide_sized(buy_reserve_in, buy_reserve_out, sell_reserve_in, sell_reserve_out, config)
}

/// The outcome for one pair of pools without a price window: the sized
/// decision for the direction found, or nothing where there is no
/// opportunity. The pair is `(pool1_reserve_in, pool1_reserve_out,
/// pool2_reserve_in, pool2_reserve_out)`.
pub open spec fn opportunity_value(pools: (u64, u64, u64, u64), config: ArbitrageConfig) -> (
    bool,
    int,
    int,
) {
    let direction = direction_value(
        pools.0 as int,
        pools.1 as int,
        pools.2 as int,
        pools.3 as int,
        config.min_price_diff_pct as int,
    );
    if direction == 0 {
        (false, 0, 0)
    } else if direction == 1 {
        sized_decision(pools.0 as int, pools.1 as int, pools.2 as int, pools.3 as int, config)
    } else {
        sized_decision(pools.2 as int, pools.3 as int, pools.0 as int, pools.1 as int, config)
    }
}

/// Evaluates each pair of pools on its own, without the check against a
/// time-weighted average. The outcomes come in the order of the pairs, one
/// for each.
pub fn batch_evaluate_opportunities(
    opportunities: &Vec<(u64, u64, u64, u64)>,
    config: &ArbitrageConfig,
) -> (r: Vec<(bool, u64, i128)>)
    ensures
        r.len() == opportunities.len(),
        forall|i: int|
            0 <= i < r.len() ==> (r[i].0, r[i].1 as int, r[i].2 as int) == opportunity_value(
                #[trigger] opportunities[i],
                *config,
            ),
{
    let mut results: Vec<(bool, u64, i128)> = Vec::new();
    let mut i: usize = 0;
    while i < opportunities.len()
        invariant
            0 <= i <= opportunities.len(),
            results.len() == i,
            forall|j: int|
                0 <= j < i ==> (results[j].0, results[j].1 as int, results[j].2 as int)
                    == opportunity_value(#[trigger] opportunities[j], *config),
        decreases opportunities.len() - i,
    {
        let (pool1_in, pool1_out, pool2_in, pool2_out) = opportunities[i];
        let (has_opportunity, _price_diff, direction) = identify_arbitrage_opportunity(
            pool1_in,
            pool1_out,
            pool2_in,
            pool2_out,
            config.min_price_diff_pct,
        );
        let outcome: (bool, u64, i128) = if !has_opportunity {
            (false, 0, 0)
        } else if direction == 1 {
            decide_sized(pool1_in, pool1_out, pool2_in, pool2_out, config)
        } else {
            decide_sized(pool2_in, pool2_out, pool1_in, pool1_out, config)
        };
        results.push(outcome);
        i = i + 1;
    }
    results
}

} // verus!
