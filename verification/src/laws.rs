//! What holds of the engine for every input, stated over the values that the
//! functions' contracts name.

use crate::fixed::{lemma_fraction_order, lemma_ratio_at_most, PERCENT, SCALE};
use crate::paths::{amount_after, multihop_slippage_value, slippage_through};
use crate::pipeline::{
    direction_value, flow_value, opportunity_value, pool_gap_value, ArbitrageConfig,
};
use crate::pricing::{
    amount_out_value, arbitrage_profit, concentrated_out_value, market_impact_value,
};
use crate::sizing::{
    concentrated_loan_profit, flashloan_amount_v3_value, flashloan_amount_value,
    lemma_loan_search_profitable, lemma_scan_best_is_maximal, lemma_trade_search_sound,
    loan_profit, optimal_size_value, optimal_trade_size_value, scan_point, size_limit,
    smaller_reserve,
    trade_profit, LOAN_ROUNDS, SCAN_POINTS, TRADE_ROUNDS,
};
use crate::slippage::{
    curve_short, curve_slippage_value, curve_whole, AMPLIFICATION_PIVOT, lemma_curve_short_bounded, lemma_uniswap_v2_slippage_bounded,
    uniswap_v2_slippage_value, uniswap_v3_slippage_value,
};
use crate::quadratic::{
    discriminant, is_root_floor, lemma_root_exists, lemma_root_floor_is, quadratic_roots,
    root_ceiling, root_floor,
    scaled_discriminant,
};
use crate::twap::{
    elapsed, lemma_sums_grow, lemma_weighted_between, twap_accepts_pool, twap_value, weighted,
};
use vstd::arithmetic::div_mod::*;
use vstd::arithmetic::mul::*;
use vstd::prelude::*;

verus! {

/// Nothing in, nothing out: for an input of 0 every pool pays 0, and the
/// slippage and the price impact are 0.
pub proof fn law_nothing_in_nothing_out(
    reserve_in: u64,
    reserve_out: u64,
    parameter: u64,
    path: Seq<(u64, u64)>,
)
    ensures
        amount_out_value(reserve_in as int, reserve_out as int, 0) == 0,
        concentrated_out_value(reserve_in as int, parameter as int, 0) == 0,
        uniswap_v2_slippage_value(reserve_in as int, reserve_out as int, 0) == 0,
        uniswap_v3_slippage_value(reserve_in as int, parameter as int, 0) == 0,
        curve_slippage_value(reserve_in as int, reserve_out as int, 0, parameter as int) == 0,
        market_impact_value(reserve_in as int, reserve_out as int, 0) == 0,
        multihop_slippage_value(path, 0) == 0,
{
}

/// A constant-product pool never pays out more than it holds.
pub proof fn law_pool_pays_no_more_than_it_holds(reserve_in: u64, reserve_out: u64, amount_in: u64)
    ensures
        0 <= amount_out_value(reserve_in as int, reserve_out as int, amount_in as int)
            <= reserve_out,
{
    if reserve_in > 0 && reserve_out > 0 && amount_in > 0 {
        lemma_ratio_at_most(
            reserve_out as int,
            amount_in * 997,
            reserve_in * 1000 + amount_in * 997,
        );
    }
}

/// The slippage of a single trade is a percentage from 0 to 100, never
/// negative, for every pool and every amount.
pub proof fn law_slippage_is_a_percentage(
    reserve_in: u64,
    reserve_out: u64,
    amount_in: u64,
    parameter: u64,
)
    ensures
        0 <= uniswap_v2_slippage_value(reserve_in as int, reserve_out as int, amount_in as int)
            <= PERCENT,
        0 <= uniswap_v3_slippage_value(reserve_in as int, parameter as int, amount_in as int)
            <= PERCENT,
        0 <= curve_slippage_value(
            reserve_in as int,
            reserve_out as int,
            amount_in as int,
            parameter as int,
        ) <= PERCENT,
{
    lemma_uniswap_v2_slippage_bounded(reserve_in as int, reserve_out as int, amount_in as int);
    if amount_in > 0 && reserve_in > 0 && parameter > 0 {
        lemma_ratio_at_most(PERCENT as int, amount_in as int, reserve_in + amount_in);
    }
    if amount_in > 0 && reserve_in > 0 && reserve_out > 0 {
        lemma_curve_short_bounded(
            reserve_in as int,
            reserve_out as int,
            amount_in as int,
            parameter as int,
        );
    }
}

/// The slippage of a trade into a constant-product pool does not depend on
/// what the pool holds of the output, as long as it holds any.
pub proof fn law_constant_product_slippage_ignores_output(
    reserve_in: u64,
    reserve_out: u64,
    other_reserve_out: u64,
    amount_in: u64,
)
    requires
        reserve_out > 0,
        other_reserve_out > 0,
    ensures
        uniswap_v2_slippage_value(reserve_in as int, reserve_out as int, amount_in as int)
            == uniswap_v2_slippage_value(
            reserve_in as int,
            other_reserve_out as int,
            amount_in as int,
        ),
{
}

/// The ratio that the constant-product estimator rounds is the shortfall of
/// the output after the fee against the output at the spot price: with
/// `actual = 997 * amount_in * reserve_out / (1000 * reserve_in + 997 * amount_in)`
/// and `ideal = amount_in * reserve_out / reserve_in`, the fraction
/// `(ideal - actual) / ideal` equals
/// `(3 * reserve_in + 997 * amount_in) / (1000 * reserve_in + 997 * amount_in)`,
/// stated here with the denominators multiplied out.
pub proof fn law_constant_product_shortfall(reserve_in: int, reserve_out: int, amount_in: int)
    ensures
        ({
            let depth = 1000 * reserve_in + 997 * amount_in;
            let ideal_top = amount_in * reserve_out;
            let actual_top = 997 * amount_in * reserve_out;
            (ideal_top * depth - actual_top * reserve_in) * depth == (3 * reserve_in + 997
                * amount_in) * (ideal_top * depth)
        }),
{
    let depth = 1000 * reserve_in + 997 * amount_in;
    let ideal_top = amount_in * reserve_out;
    let actual_top = 997 * amount_in * reserve_out;
    assert((ideal_top * depth - actual_top * reserve_in) * depth == (3 * reserve_in + 997
        * amount_in) * (ideal_top * depth)) by (nonlinear_arith)
        requires
            depth == 1000 * reserve_in + 997 * amount_in,
            ideal_top == amount_in * reserve_out,
            actual_top == 997 * amount_in * reserve_out,
    ;
}

/// The slippage of a trade into a concentrated-liquidity position does not
/// depend on the price, as long as there is one.
pub proof fn law_concentrated_slippage_ignores_price(
    liquidity: u64,
    sqrt_price: u64,
    other_sqrt_price: u64,
    amount_in: u64,
)
    requires
        sqrt_price > 0,
        other_sqrt_price > 0,
    ensures
        uniswap_v3_slippage_value(liquidity as int, sqrt_price as int, amount_in as int)
            == uniswap_v3_slippage_value(
            liquidity as int,
            other_sqrt_price as int,
            amount_in as int,
        ),
{
}

/// A larger trade into the same pool has no less slippage, in a
/// constant-product pool and in a concentrated-liquidity position alike.
pub proof fn law_slippage_grows_with_the_amount(
    reserve_in: u64,
    reserve_out: u64,
    parameter: u64,
    smaller_amount: u64,
    larger_amount: u64,
)
    requires
        smaller_amount <= larger_amount,
    ensures
        uniswap_v2_slippage_value(reserve_in as int, reserve_out as int, smaller_amount as int)
            <= uniswap_v2_slippage_value(
            reserve_in as int,
            reserve_out as int,
            larger_amount as int,
        ),
        uniswap_v3_slippage_value(reserve_in as int, parameter as int, smaller_amount as int)
            <= uniswap_v3_slippage_value(
            reserve_in as int,
            parameter as int,
            larger_amount as int,
        ),
{
    let r = reserve_in as int;
    let small = smaller_amount as int;
    let large = larger_amount as int;
    lemma_uniswap_v2_slippage_bounded(r, reserve_out as int, large);
    if r > 0 && small > 0 {
        assert((3 * r + 997 * small) * (1000 * r + 997 * large) <= (3 * r + 997 * large) * (1000
            * r + 997 * small)) by (nonlinear_arith)
            requires
                r > 0,
                0 < small <= large,
        ;
        lemma_fraction_order(
            PERCENT as int,
            3 * r + 997 * large,
            1000 * r + 997 * large,
            3 * r + 997 * small,
            1000 * r + 997 * small,
        );
        assert(small * (r + large) <= large * (r + small)) by (nonlinear_arith)
            requires
                r > 0,
                0 < small <= large,
        ;
        lemma_fraction_order(PERCENT as int, large, r + large, small, r + small);
    }
    if r > 0 && parameter > 0 && large > 0 {
        lemma_ratio_at_most(PERCENT as int, large, r + large);
    }
}

/// In a balanced stableswap pool the slippage of a trade does not grow with
/// the amplification: more weight on the constant-sum output brings the
/// blend closer to the ideal output.
pub proof fn law_curve_slippage_falls_with_amplification(
    balance: u64,
    amount_in: u64,
    lower_amplification: u64,
    higher_amplification: u64,
)
    requires
        lower_amplification <= higher_amplification,
    ensures
        curve_slippage_value(
            balance as int,
            balance as int,
            amount_in as int,
            higher_amplification as int,
        ) <= curve_slippage_value(
            balance as int,
            balance as int,
            amount_in as int,
            lower_amplification as int,
        ),
{
    if balance > 0 && amount_in > 0 {
        let b = balance as int;
        let a = amount_in as int;
        let low = lower_amplification as int;
        let high = higher_amplification as int;
        let h = AMPLIFICATION_PIVOT as int;
        let d1 = 2500 * b;
        let d2 = 2500 * b + 2499 * a;
        let x = (d1 - 2499 * b) * d2;
        let y = (b + 2499 * a) * d1;
        let dd = d1 * d2;
        assert(0 < x <= y && dd > 0) by (nonlinear_arith)
            requires
                x == (d1 - 2499 * b) * d2,
                y == (b + 2499 * a) * d1,
                dd == d1 * d2,
                d1 == 2500 * b,
                d2 == 2500 * b + 2499 * a,
                b > 0,
                a > 0,
        ;
        let short_low = curve_short(b, b, a, low);
        let short_high = curve_short(b, b, a, high);
        let whole_low = curve_whole(b, b, a, low);
        let whole_high = curve_whole(b, b, a, high);
        assert(short_low == low * x + h * y && short_high == high * x + h * y && whole_low == dd
            * (low + h) && whole_high == dd * (high + h)) by (nonlinear_arith)
            requires
                short_low == low * (2500 * b - 2499 * b) * (2500 * b + 2499 * a) + h * (b + 2499
                    * a) * (2500 * b),
                short_high == high * (2500 * b - 2499 * b) * (2500 * b + 2499 * a) + h * (b
                    + 2499 * a) * (2500 * b),
                whole_low == (2500 * b) * (2500 * b + 2499 * a) * (low + h),
                whole_high == (2500 * b) * (2500 * b + 2499 * a) * (high + h),
                x == (d1 - 2499 * b) * d2,
                y == (b + 2499 * a) * d1,
                dd == d1 * d2,
                d1 == 2500 * b,
                d2 == 2500 * b + 2499 * a,
        ;
        assert(short_high * whole_low <= short_low * whole_high && short_low > 0 && short_high
            > 0 && whole_low > 0 && whole_high > 0) by (nonlinear_arith)
            requires
                short_low == low * x + h * y,
                short_high == high * x + h * y,
                whole_low == dd * (low + h),
                whole_high == dd * (high + h),
                0 < x <= y,
                dd > 0,
                0 <= low <= high,
                h > 0,
        ;
        lemma_fraction_order(PERCENT as int, short_low, whole_low, short_high, whole_high);
    }
}

/// The slippages of the first `k` hops of a path add up to no less than 0.
pub proof fn law_hop_slippages_not_negative(path: Seq<(u64, u64)>, amount: int, k: int)
    ensures
        0 <= slippage_through(path, amount, k),
    decreases k,
{
    if k > 0 {
        law_hop_slippages_not_negative(path, amount, k - 1);
        lemma_uniswap_v2_slippage_bounded(
            path[k - 1].0 as int,
            path[k - 1].1 as int,
            amount_after(path, amount, k - 1),
        );
    }
}

/// The slippage of a path is never negative.
pub proof fn law_path_slippage_not_negative(path: Seq<(u64, u64)>, amount: u64)
    ensures
        0 <= multihop_slippage_value(path, amount as int),
{
    law_hop_slippages_not_negative(path, amount as int, path.len() as int);
}

/// A path without pools, or an amount of 0, has no slippage; a path with any
/// pool that has an empty side has a slippage of exactly 100 percent.
pub proof fn law_multihop_edges(path: Seq<(u64, u64)>, amount: u64, broken: int)
    ensures
        path.len() == 0 || amount == 0 ==> multihop_slippage_value(path, amount as int) == 0,
        path.len() > 0 && amount > 0 && 0 <= broken < path.len() && (path[broken].0 == 0
            || path[broken].1 == 0) ==> multihop_slippage_value(path, amount as int) == PERCENT,
{
}

/// The size of a plain trade is within 10% of the input reserve, and is
/// either 0 or a size whose profit reaches `min_profit` and is not a loss,
/// whatever the floor.
pub proof fn law_trade_size_reaches_its_floor(
    reserve_in: u64,
    reserve_out: u64,
    gas_cost: u64,
    min_profit: i128,
)
    ensures
        ({
            let size = optimal_trade_size_value(
                reserve_in as int,
                reserve_out as int,
                gas_cost as int,
                min_profit as int,
            );
            &&& 0 <= size <= reserve_in / 10
            &&& size == 0 || (trade_profit(
                reserve_in as int,
                reserve_out as int,
                gas_cost as int,
                size,
            ) >= min_profit && trade_profit(
                reserve_in as int,
                reserve_out as int,
                gas_cost as int,
                size,
            ) >= 0)
        }),
{
    lemma_trade_search_sound(
        reserve_in as int,
        reserve_out as int,
        gas_cost as int,
        min_profit as int,
        0,
        reserve_in as int / 10,
        0,
        TRADE_ROUNDS as nat,
    );
}

/// A flashloan amount is within 30% of the smaller input reserve, and is
/// either 0 or an amount whose round trip leaves a profit above 0.
pub proof fn law_flashloan_amount_profits(
    reserve_in_buy: u64,
    reserve_out_buy: u64,
    reserve_in_sell: u64,
    reserve_out_sell: u64,
    flashloan_fee: u64,
    gas_cost: u64,
)
    ensures
        ({
            let amount = flashloan_amount_value(
                reserve_in_buy as int,
                reserve_out_buy as int,
                reserve_in_sell as int,
                reserve_out_sell as int,
                flashloan_fee as int,
                gas_cost as int,
            );
            &&& 0 <= amount <= size_limit(reserve_in_buy as int, reserve_in_sell as int)
            &&& amount == 0 || arbitrage_profit(
                reserve_in_buy as int,
                reserve_out_buy as int,
                reserve_in_sell as int,
                reserve_out_sell as int,
                amount,
                gas_cost as int,
                flashloan_fee as int,
            ) > 0
        }),
{
    lemma_loan_search_profitable(
        loan_profit(
            reserve_in_buy as int,
            reserve_out_buy as int,
            reserve_in_sell as int,
            reserve_out_sell as int,
            flashloan_fee as int,
            gas_cost as int,
        ),
        0,
        size_limit(reserve_in_buy as int, reserve_in_sell as int),
        0,
        0,
        LOAN_ROUNDS as nat,
    );
}

/// A flashloan amount for a concentrated-liquidity position is within 30% of
/// the liquidity, and is either 0 or an amount whose round trip leaves a
/// profit above 0.
pub proof fn law_flashloan_amount_v3_profits(
    liquidity: u64,
    sqrt_price_buy: u64,
    sqrt_price_sell: u64,
    flashloan_fee: u64,
    gas_cost: u64,
)
    ensures
        ({
            let amount = flashloan_amount_v3_value(
                liquidity as int,
                sqrt_price_buy as int,
                sqrt_price_sell as int,
                flashloan_fee as int,
                gas_cost as int,
            );
            &&& 0 <= amount <= (liquidity * 3) / 10
            &&& amount == 0 || concentrated_loan_profit(
                liquidity as int,
                sqrt_price_buy as int,
                sqrt_price_sell as int,
                flashloan_fee as int,
                gas_cost as int,
            )(amount) > 0
        }),
{
    lemma_loan_search_profitable(
        concentrated_loan_profit(
            liquidity as int,
            sqrt_price_buy as int,
            sqrt_price_sell as int,
            flashloan_fee as int,
            gas_cost as int,
        ),
        0,
        (liquidity * 3) / 10,
        0,
        0,
        LOAN_ROUNDS as nat,
    );
}

/// The size that the scan settles on is either 0 or one of its points, with a
/// profit above 0 that no other point of the scan exceeds; it is 0 exactly
/// where no point of the scan has a profit above 0.
pub proof fn law_scan_size_is_the_best_point(
    buy_reserve_in: u64,
    buy_reserve_out: u64,
    sell_reserve_in: u64,
    sell_reserve_out: u64,
    gas_cost: u64,
    fee: u64,
)
    ensures
        ({
            let size = optimal_size_value(
                buy_reserve_in as int,
                buy_reserve_out as int,
                sell_reserve_in as int,
                sell_reserve_out as int,
                gas_cost as int,
                fee as int,
            );
            let limit = smaller_reserve(buy_reserve_in as int, sell_reserve_in as int);
            let best = if size == 0 {
                0
            } else {
                arbitrage_profit(
                    buy_reserve_in as int,
                    buy_reserve_out as int,
                    sell_reserve_in as int,
                    sell_reserve_out as int,
                    size,
                    gas_cost as int,
                    fee as int,
                )
            };
            &&& size >= 0
            &&& size > 0 ==> best > 0 && exists|j: int|
                0 <= j < SCAN_POINTS && size == #[trigger] scan_point(limit, j)
            &&& forall|j: int|
                0 <= j < SCAN_POINTS && #[trigger] scan_point(limit, j) > 0 ==> arbitrage_profit(
                    buy_reserve_in as int,
                    buy_reserve_out as int,
                    sell_reserve_in as int,
                    sell_reserve_out as int,
                    scan_point(limit, j),
                    gas_cost as int,
                    fee as int,
                ) <= best
        }),
{
    lemma_scan_best_is_maximal(
        buy_reserve_in as int,
        buy_reserve_out as int,
        sell_reserve_in as int,
        sell_reserve_out as int,
        gas_cost as int,
        fee as int,
        SCAN_POINTS as nat,
    );
}

/// The time-weighted average price of a window lies between the lowest and
/// the highest of the prices it weighs, which are those of all samples but the
/// last.
pub proof fn law_twap_within_prices(samples: Seq<(u64, u64)>, lo: int, hi: int)
    requires
        samples.len() >= 2,
        elapsed(samples, samples.len() - 1) > 0,
        forall|i: int| 0 <= i < samples.len() - 1 ==> lo <= (#[trigger] samples[i]).1 <= hi,
    ensures
        lo <= twap_value(samples) <= hi,
{
    let n = samples.len() - 1;
    let e = elapsed(samples, n);
    let w = weighted(samples, n);
    lemma_weighted_between(samples, n, lo, hi);
    lemma_mul_is_commutative(lo, e);
    lemma_mul_is_commutative(hi, e);
    lemma_div_is_ordered(e * lo, w, e);
    lemma_div_is_ordered(w, e * hi, e);
    lemma_div_multiples_vanish(lo, e);
    lemma_div_multiples_vanish(hi, e);
}

/// Without a price gap of at least `min_price_diff_pct` between the pools
/// nothing is traded: the pipeline and the batch evaluation both return
/// `(false, 0, 0)`, whatever the price windows hold.
pub proof fn law_no_gap_no_trade(
    pools: (u64, u64, u64, u64),
    samples_pool1: Seq<(u64, u64)>,
    samples_pool2: Seq<(u64, u64)>,
    config: ArbitrageConfig,
)
    requires
        pool_gap_value(pools.0 as int, pools.1 as int, pools.2 as int, pools.3 as int)
            < config.min_price_diff_pct,
    ensures
        flow_value(
            pools.0 as int,
            pools.1 as int,
            pools.2 as int,
            pools.3 as int,
            samples_pool1,
            samples_pool2,
            config,
        ) == (false, 0int, 0int),
        opportunity_value(pools, config) == (false, 0int, 0int),
{
}

/// What the pipeline decides to execute has a size above 0 and an expected
/// profit, positive, that reaches the threshold of the policy.
pub proof fn law_executed_trades_profit(
    pools: (u64, u64, u64, u64),
    samples_pool1: Seq<(u64, u64)>,
    samples_pool2: Seq<(u64, u64)>,
    config: ArbitrageConfig,
)
    ensures
        ({
            let outcome = flow_value(
                pools.0 as int,
                pools.1 as int,
                pools.2 as int,
                pools.3 as int,
                samples_pool1,
                samples_pool2,
                config,
            );
            &&& outcome.0 ==> outcome.1 > 0 && outcome.2 >= config.min_profit_threshold
            &&& outcome.1 >= 0
            &&& outcome.1 > 0 ==> outcome.2 > 0
            &&& outcome.1 == 0 ==> outcome == (false, 0int, 0int)
        }),
{
    law_scan_size_is_the_best_point(
        pools.0,
        pools.1,
        pools.2,
        pools.3,
        config.gas_cost,
        config.flashloan_fee_pct,
    );
    law_scan_size_is_the_best_point(
        pools.2,
        pools.3,
        pools.0,
        pools.1,
        config.gas_cost,
        config.flashloan_fee_pct,
    );
}

/// The batch evaluation is the pipeline without the check of the buy price:
/// where that check passes, or there is no opportunity to check, both decide
/// the same.
pub proof fn law_batch_is_the_unchecked_flow(
    pools: (u64, u64, u64, u64),
    samples_pool1: Seq<(u64, u64)>,
    samples_pool2: Seq<(u64, u64)>,
    config: ArbitrageConfig,
)
    requires
        ({
            let direction = direction_value(
                pools.0 as int,
                pools.1 as int,
                pools.2 as int,
                pools.3 as int,
                config.min_price_diff_pct as int,
            );
            &&& direction == 1 ==> twap_accepts_pool(
                pools.0 as int,
                pools.1 as int,
                twap_value(samples_pool1),
                config.max_twap_deviation_pct as int,
            )
            &&& direction == 2 ==> twap_accepts_pool(
                pools.2 as int,
                pools.3 as int,
                twap_value(samples_pool2),
                config.max_twap_deviation_pct as int,
            )
        }),
    ensures
        flow_value(
            pools.0 as int,
            pools.1 as int,
            pools.2 as int,
            pools.3 as int,
            samples_pool1,
            samples_pool2,
            config,
        ) == opportunity_value(pools, config),
{
}

/// Over a window whose timestamps strictly ascend, the time covered up to a
/// sample is the time from the first sample to that one.
pub proof fn law_ascending_window_covers_its_span(samples: Seq<(u64, u64)>, k: int)
    requires
        0 <= k < samples.len(),
        forall|i: int|
            0 <= i < samples.len() - 1 ==> (#[trigger] samples[i]).0 < samples[i + 1].0,
    ensures
        elapsed(samples, k) == samples[k].0 - samples[0].0,
    decreases k,
{
    if k > 0 {
        law_ascending_window_covers_its_span(samples, k - 1);
        assert(samples[k - 1].0 < samples[k - 1 + 1].0);
    }
}

/// Over a window of at least two samples whose timestamps strictly ascend,
/// the time-weighted average price is the weighted sum of the prices over the
/// time from the first sample to the last, rounded down, and lies between
/// the lowest and the highest of the prices of all samples but the last.
pub proof fn law_twap_of_ascending_window(samples: Seq<(u64, u64)>, lo: int, hi: int)
    requires
        samples.len() >= 2,
        forall|i: int|
            0 <= i < samples.len() - 1 ==> (#[trigger] samples[i]).0 < samples[i + 1].0,
        forall|i: int| 0 <= i < samples.len() - 1 ==> lo <= (#[trigger] samples[i]).1 <= hi,
    ensures
        samples[samples.len() - 1].0 - samples[0].0 > 0,
        twap_value(samples) == weighted(samples, samples.len() - 1) / (samples[samples.len()
            - 1].0 - samples[0].0),
        lo <= twap_value(samples) <= hi,
{
    law_ascending_window_covers_its_span(samples, samples.len() - 1);
    law_ascending_window_covers_its_span(samples, 1);
    lemma_sums_grow(samples, 1, samples.len() - 1);
    law_twap_within_prices(samples, lo, hi);
}

/// Two windows with the same timestamps, and the same prices in their first
/// `k` samples, have the same sums over their first `k` intervals.
pub proof fn law_window_sums_agree(first: Seq<(u64, u64)>, second: Seq<(u64, u64)>, k: int)
    requires
        first.len() == second.len(),
        0 <= k < first.len(),
        forall|i: int| 0 <= i < first.len() ==> (#[trigger] first[i]).0 == second[i].0,
        forall|i: int| 0 <= i < k ==> (#[trigger] first[i]).1 == second[i].1,
    ensures
        elapsed(first, k) == elapsed(second, k),
        weighted(first, k) == weighted(second, k),
    decreases k,
{
    if k > 0 {
        law_window_sums_agree(first, second, k - 1);
        assert(first[k - 1].0 == second[k - 1].0 && first[k].0 == second[k].0);
        assert(first[k - 1].1 == second[k - 1].1);
    }
}

/// The price of the last sample of a window does not enter its
/// time-weighted average price.
pub proof fn law_twap_ignores_the_last_price(samples: Seq<(u64, u64)>, price: u64)
    requires
        samples.len() >= 1,
    ensures
        twap_value(samples.update(samples.len() - 1, (samples[samples.len() - 1].0, price)))
            == twap_value(samples),
{
    let last = samples.len() - 1;
    let other = samples.update(last, (samples[last].0, price));
    law_window_sums_agree(samples, other, last);
}

/// The roots of an equation that opens downward are those of the equation
/// with every coefficient negated, which opens upward, in the other order.
pub proof fn law_roots_of_the_negated_equation(a: int, b: int, c: int)
    requires
        a < 0,
    ensures
        quadratic_roots(a, b, c).0 == quadratic_roots(-a, -b, -c).1,
        quadratic_roots(a, b, c).1 == quadratic_roots(-a, -b, -c).0,
{
    assert(discriminant(-a, -b, -c) == discriminant(a, b, c)) by (nonlinear_arith)
        requires
            discriminant(-a, -b, -c) == (-b) * (-b) - 4 * ((-a) * (-c)),
            discriminant(a, b, c) == b * b - 4 * (a * c),
    ;
    assert((-b) * SCALE == -(b * SCALE) && -(-b) * SCALE == b * SCALE) by (nonlinear_arith);
}

/// An equation whose discriminant is 0 has its two roots equal.
pub proof fn law_equal_roots(a: int, b: int, c: int)
    requires
        discriminant(a, b, c) == 0,
    ensures
        a != 0 ==> quadratic_roots(a, b, c).0 == quadratic_roots(a, b, c).1,
{
    assert(is_root_floor(0, 0));
    lemma_root_floor_is(0, 0);
}

/// Each root of an equation that opens upward is the real root rounded down
/// to the grid. With `k` the discriminant on the grid and `x` a real root,
/// `2 * a * x + b == sqrt(k)` for the first root and `-sqrt(k)` for the
/// second; the root returned is the largest whole `r` with `r <= x`, which is
/// stated here by comparing squares.
pub proof fn law_roots_round_down(a: int, b: int, c: int)
    requires
        a > 0,
        discriminant(a, b, c) >= 0,
    ensures
        ({
            let k = scaled_discriminant(a, b, c);
            let first = 2 * a * quadratic_roots(a, b, c).0 + b * SCALE;
            let second = -(2 * a * quadratic_roots(a, b, c).1 + b * SCALE);
            &&& first <= 0 || first * first <= k
            &&& first + 2 * a > 0 && (first + 2 * a) * (first + 2 * a) > k
            &&& second >= 0 && second * second >= k
            &&& second - 2 * a < 0 || (second - 2 * a) * (second - 2 * a) < k
        }),
{
    let k = scaled_discriminant(a, b, c);
    assert(exists|s: int| is_root_floor(k, s)) by {
        lemma_root_exists(k);
    }
    let lower = root_floor(k);
    let upper = root_ceiling(k);
    let d = 2 * a;
    let m = -b * SCALE;
    assert(m == -(b * SCALE)) by (nonlinear_arith)
        requires
            m == -b * SCALE,
    ;
    let r0 = (m + lower) / d;
    let r1 = (m - upper) / d;
    lemma_fundamental_div_mod(m + lower, d);
    lemma_mod_bound(m + lower, d);
    lemma_fundamental_div_mod(m - upper, d);
    lemma_mod_bound(m - upper, d);
    let first = d * r0 - m;
    let second = m - d * r1;
    assert(2 * a * r0 == d * r0 && 2 * a * r1 == d * r1) by (nonlinear_arith)
        requires
            d == 2 * a,
    ;
    assert((first <= 0 || first * first <= k) && (first + d) * (first + d) > k && second * second
        >= k && (second - d < 0 || (second - d) * (second - d) < k)) by (nonlinear_arith)
        requires
            0 <= lower,
            lower * lower <= k < (lower + 1) * (lower + 1),
            upper == lower || upper == lower + 1,
            upper == lower ==> lower * lower == k,
            upper == lower + 1 ==> lower * lower < k,
            first <= lower,
            first + d >= lower + 1,
            second >= upper,
            second - d <= upper - 1,
            k >= 0,
    ;
}

} // verus!
