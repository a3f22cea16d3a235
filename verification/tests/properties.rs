use arbitrage_engine::fixed::{mul_div, mul_div_capped, wide_product};
use arbitrage_engine::paths::path_output;
use arbitrage_engine::pricing::{concentrated_amount_out, flashloan_repayment};
use arbitrage_engine::rows::{pairs_from_rows, paths_from_rows, quads_from_rows};
use arbitrage_engine::{
    batch_evaluate_opportunities, calculate_amount_in, calculate_amount_out,
    calculate_flashloan_amount, calculate_flashloan_amount_v3, calculate_market_impact,
    calculate_multihop_slippage, calculate_pool_price, calculate_twap, compute_aggregator_slippage,
    compute_curve_slippage, compute_uniswap_v2_slippage, compute_uniswap_v3_slippage,
    estimate_arbitrage_profit, execute_arbitrage_flow, identify_arbitrage_opportunity,
    optimal_trade_size, optimize_trade_size_quadratic, simulate_parallel_flashloan_paths,
    solve_quadratic, validate_pool_with_twap, validate_with_twap, ArbitrageConfig, PERCENT, SCALE,
};

const TOP: u64 = u64::MAX;

fn q(x: f64) -> u64 {
    (x * 1_000_000.0).round() as u64
}

fn signed(x: f64) -> i128 {
    (x * 1_000_000.0).round() as i128
}

fn policy(threshold: i128) -> ArbitrageConfig {
    ArbitrageConfig {
        gas_cost: q(100.0),
        flashloan_fee_pct: q(0.0009),
        min_price_diff_pct: q(5.0),
        max_twap_deviation_pct: q(10.0),
        min_profit_threshold: threshold,
    }
}

#[test]
fn scale_constants() {
    assert_eq!(SCALE, 1_000_000);
    assert_eq!(PERCENT, 100 * SCALE);
    assert_eq!(q(2.05), 2_050_000);
}

#[test]
fn wide_product_is_exact() {
    assert_eq!(wide_product(TOP, TOP), 0xFFFF_FFFF_FFFF_FFFE_0000_0000_0000_0001);
    assert_eq!(wide_product(0, TOP), 0);
    assert_eq!(wide_product(7, 6), 42);
}

#[test]
fn mul_div_small_values() {
    assert_eq!(mul_div(6, 7, 4), Some(10));
    assert_eq!(mul_div(0, 7, 4), Some(0));
    assert_eq!(mul_div(5, 0, 4), Some(0));
    assert_eq!(mul_div(1, 1, 2), Some(0));
}

#[test]
fn mul_div_wide_product() {
    let half: u128 = 1 << 127;
    assert_eq!(mul_div(half, half, half + 1), Some(170141183460469231731687303715884105727));
    assert_eq!(mul_div(u128::MAX, u128::MAX, u128::MAX), Some(u128::MAX));
    assert_eq!(mul_div(u128::MAX, 3, 3), Some(u128::MAX));
    assert_eq!(mul_div(u128::MAX, 1_000_003, 1_000_003), Some(u128::MAX));
    assert_eq!(
        mul_div(u128::MAX - 1, u128::MAX - 2, u128::MAX),
        Some(u128::MAX - 3)
    );
}

#[test]
fn mul_div_quotient_too_wide() {
    assert_eq!(mul_div(u128::MAX, 2, 1), None);
    assert_eq!(mul_div(u128::MAX, u128::MAX, 1), None);
    assert_eq!(mul_div(1 << 127, 4, 2), None);
    assert_eq!(mul_div(u128::MAX, u128::MAX, u128::MAX - 1), None);
}

#[test]
fn mul_div_capped_caps() {
    assert_eq!(mul_div_capped(6, 7, 4), 10);
    assert_eq!(mul_div_capped(TOP as u128, 2, 1), TOP);
    assert_eq!(mul_div_capped(TOP as u128, 2, 2), TOP);
    assert_eq!(mul_div_capped(u128::MAX, u128::MAX, 1), TOP);
    assert_eq!(
        mul_div_capped(TOP as u128, TOP as u128, 7),
        TOP
    );
}

#[test]
fn amount_out_exact_values() {
    assert_eq!(calculate_amount_out(q(1e6), q(2e6), q(1e4)), 19_743_160_687);
    assert_eq!(calculate_amount_out(q(1000.0), q(1000.0), q(100.0)), 90_661_089);
    assert_eq!(calculate_amount_out(TOP, TOP, TOP), 9_209_516_195_036_766_630);
    assert_eq!(calculate_amount_out(1, TOP, TOP), TOP - 2);
}

#[test]
fn amount_out_of_nothing_is_nothing() {
    assert_eq!(calculate_amount_out(q(1e6), q(2e6), 0), 0);
    assert_eq!(calculate_amount_out(0, q(2e6), q(10.0)), 0);
    assert_eq!(calculate_amount_out(q(1e6), 0, q(10.0)), 0);
    assert_eq!(concentrated_amount_out(q(1e6), q(1.5), 0), 0);
    assert_eq!(concentrated_amount_out(0, q(1.5), q(10.0)), 0);
    assert_eq!(concentrated_amount_out(q(1e6), 0, q(10.0)), 0);
}

#[test]
fn concentrated_amount_out_values() {
    assert_eq!(concentrated_amount_out(q(1000.0), q(2.0), q(1000.0)), q(1000.0));
    assert_eq!(concentrated_amount_out(TOP, TOP, TOP), TOP);
}

#[test]
fn amount_in_exact_values() {
    assert_eq!(calculate_amount_in(q(1e6), q(2e6), q(1e4)), 5_041_246_367);
    assert_eq!(calculate_amount_in(q(1000.0), q(1000.0), q(100.0)), 112_445_447);
    assert_eq!(
        calculate_amount_in(q(1000.0), q(1000.0), q(999.999999)),
        1_003_009_026_079_234_704
    );
    assert_eq!(calculate_amount_in(TOP, TOP, TOP - 1), TOP);
}

#[test]
fn amount_in_edge_cases() {
    assert_eq!(calculate_amount_in(q(1000.0), q(1000.0), 0), 0);
    assert_eq!(calculate_amount_in(q(1000.0), q(1000.0), q(1000.0)), 0);
    assert_eq!(calculate_amount_in(q(1000.0), q(1000.0), q(2000.0)), 0);
    assert_eq!(calculate_amount_in(0, q(1000.0), q(10.0)), 0);
}

#[test]
fn pool_price_values() {
    assert_eq!(calculate_pool_price(q(3.0), q(1.0)), 333_333);
    assert_eq!(calculate_pool_price(q(1e6), q(2.2e6)), q(2.2));
    assert_eq!(calculate_pool_price(0, q(5.0)), 0);
    assert_eq!(calculate_pool_price(q(5.0), 0), 0);
    assert_eq!(calculate_pool_price(3, TOP), TOP);
}

#[test]
fn market_impact_values() {
    assert_eq!(calculate_market_impact(q(1e6), q(2e6), q(5e4)), 9_284_092);
    assert_eq!(calculate_market_impact(q(1000.0), q(1000.0), q(1000.0)), 74_962_443);
    assert_eq!(calculate_market_impact(30_000_000, 500, 300_000), 1_967_483);
    assert_eq!(calculate_market_impact(30_000_000, 7, 300_000), 1_967_483);
    assert_eq!(calculate_market_impact(1, TOP, TOP), 99_999_999);
    assert_eq!(calculate_market_impact(TOP, TOP, TOP), 74_962_443);
    assert_eq!(calculate_market_impact(0, q(1000.0), q(10.0)), 0);
    assert_eq!(calculate_market_impact(q(1000.0), 0, q(10.0)), 0);
    assert_eq!(calculate_market_impact(q(1000.0), q(1000.0), 0), 0);
    assert!(calculate_market_impact(1, TOP, TOP) <= PERCENT);
}

#[test]
fn repayment_values() {
    assert_eq!(flashloan_repayment(q(1000.0), q(0.0009)), 1_000_900_000);
    assert_eq!(flashloan_repayment(q(1000.0), 0), 1_000_000_000);
    assert_eq!(flashloan_repayment(0, q(0.5)), 0);
    assert_eq!(flashloan_repayment(TOP, TOP), 340282366920956910170554828835964);
}

#[test]
fn arbitrage_profit_values() {
    assert_eq!(
        estimate_arbitrage_profit(q(1e6), q(2e6), q(2e6), q(1e6), q(1e4), q(100.0), q(0.0009)),
        -362_954_641
    );
    assert_eq!(
        estimate_arbitrage_profit(q(1e6), q(2e6), q(1e6), q(2.5e6), q(1000.0), q(100.0), q(0.0009)),
        3_854_353_478
    );
    assert_eq!(
        estimate_arbitrage_profit(q(1e6), q(2e6), q(1e6), q(2.5e6), 0, q(100.0), q(0.0009)),
        -signed(100.0)
    );
}

#[test]
fn slippage_exact_values() {
    assert_eq!(compute_uniswap_v2_slippage(q(1e6), q(2e6), q(1e4)), 1_284_196);
    assert_eq!(compute_uniswap_v2_slippage(q(1000.0), q(1000.0), q(1000.0)), 50_075_112);
    assert_eq!(compute_uniswap_v3_slippage(q(1e6), q(1.5), q(1e4)), 990_099);
    assert_eq!(compute_uniswap_v3_slippage(q(1000.0), q(2.0), q(1000.0)), q(50.0));
    assert_eq!(compute_curve_slippage(q(1e6), q(1e6), q(1e4), q(100.0)), 534_655);
    assert_eq!(compute_curve_slippage(q(1000.0), q(1000.0), q(10.0), 0), 1_029_311);
    assert_eq!(compute_curve_slippage(q(1000.0), q(1000.0), q(10.0), q(1000.0)), 129_937);
    assert_eq!(compute_curve_slippage(q(1000.0), q(3000.0), q(10.0), q(50.0)), 22_912_874);
}

#[test]
fn slippage_of_no_amount_is_zero() {
    assert_eq!(compute_uniswap_v2_slippage(q(1e6), q(2e6), 0), 0);
    assert_eq!(compute_uniswap_v3_slippage(q(1e6), q(1.5), 0), 0);
    assert_eq!(compute_curve_slippage(q(1e6), q(1e6), 0, q(100.0)), 0);
    assert_eq!(calculate_multihop_slippage(&vec![(q(1e6), q(2e6))], 0), 0);
}

#[test]
fn slippage_of_an_empty_pool_is_zero() {
    assert_eq!(compute_uniswap_v2_slippage(0, q(2e6), q(10.0)), 0);
    assert_eq!(compute_uniswap_v2_slippage(q(2e6), 0, q(10.0)), 0);
    assert_eq!(compute_uniswap_v3_slippage(0, q(1.5), q(10.0)), 0);
    assert_eq!(compute_uniswap_v3_slippage(q(1e6), 0, q(10.0)), 0);
    assert_eq!(compute_curve_slippage(0, q(1e6), q(10.0), q(100.0)), 0);
    assert_eq!(compute_curve_slippage(q(1e6), 0, q(10.0), q(100.0)), 0);
}

#[test]
fn slippage_stays_within_percent() {
    for &(a, b, c) in &[(1u64, 1u64, 1u64), (1, TOP, TOP), (TOP, 1, TOP), (TOP, TOP, TOP), (7, 3, 1)] {
        assert!(compute_uniswap_v2_slippage(a, b, c) <= PERCENT);
        assert!(compute_uniswap_v3_slippage(a, b, c) <= PERCENT);
        assert!(compute_curve_slippage(a, b, c, a) <= PERCENT);
        assert!(compute_curve_slippage(a, b, c, TOP) <= PERCENT);
    }
    assert_eq!(compute_uniswap_v2_slippage(TOP, TOP, TOP), 50_075_112);
    assert_eq!(compute_uniswap_v2_slippage(1, TOP, TOP), 99_999_999);
    assert_eq!(compute_uniswap_v3_slippage(TOP, TOP, TOP), q(50.0));
    assert_eq!(compute_curve_slippage(1, TOP, 1, TOP), 99_999_999);
    assert_eq!(compute_curve_slippage(TOP, TOP, TOP, TOP), 40_000);
    assert_eq!(compute_curve_slippage(TOP, TOP, TOP, 0), 50_010_002);
}

#[test]
fn slippage_of_the_smallest_amounts() {
    assert_eq!(compute_uniswap_v2_slippage(1000, 1000, 1), 399_301);
    assert_eq!(compute_uniswap_v2_slippage(TOP, 1, 1), q(0.3));
    assert_eq!(compute_uniswap_v3_slippage(SCALE, SCALE, 1), 99);
    assert_eq!(compute_curve_slippage(1000, 1000, 1, 0), 139_820);
}

#[test]
fn constant_product_slippage_ignores_the_output_reserve() {
    assert_eq!(compute_uniswap_v2_slippage(30_000_000, 500, 1_000_000), 3_506_790);
    assert_eq!(compute_uniswap_v2_slippage(30_000_000, 500_000_000, 1_000_000), 3_506_790);
    assert_eq!(compute_uniswap_v2_slippage(q(30_000_000.0), 500, q(1.0)), 300_003);
    assert_eq!(compute_uniswap_v2_slippage(q(30_000_000.0), q(500.0), q(1.0)), 300_003);
    assert_eq!(compute_uniswap_v3_slippage(q(1e6), q(0.000001), q(1e4)), 990_099);
    assert_eq!(compute_uniswap_v3_slippage(q(1e6), q(77.0), q(1e4)), 990_099);
}

#[test]
fn curve_slippage_where_the_blend_does_not_fall_short() {
    assert_eq!(compute_curve_slippage(q(3000.0), q(1000.0), q(10.0), q(50.0)), 0);
    assert_eq!(compute_curve_slippage(q(3000.0), q(1000.0), q(10.0), q(5000.0)), 0);
    assert_eq!(compute_curve_slippage(TOP, 1, TOP, TOP), 0);
}

#[test]
fn curve_slippage_falls_as_amplification_grows() {
    let mut last = PERCENT;
    for &amplification in &[0.0, 1.0, 10.0, 100.0, 1000.0, 1e6] {
        let slippage = compute_curve_slippage(q(1000.0), q(1000.0), q(10.0), q(amplification));
        assert!(slippage <= last);
        last = slippage;
    }
}

#[test]
fn aggregator_takes_the_lowest() {
    assert_eq!(compute_aggregator_slippage(&vec![q(1.5), q(0.3), q(2.0)]), q(0.3));
    assert_eq!(compute_aggregator_slippage(&vec![q(0.3), q(1.5)]), q(0.3));
    assert_eq!(compute_aggregator_slippage(&vec![q(7.0)]), q(7.0));
    assert_eq!(compute_aggregator_slippage(&vec![TOP, TOP]), TOP);
    assert_eq!(compute_aggregator_slippage(&vec![q(2.0), 0, q(1.0)]), 0);
}

#[test]
fn aggregator_of_no_route_is_zero() {
    assert_eq!(compute_aggregator_slippage(&Vec::new()), 0);
}

#[test]
fn optimal_trade_size_values() {
    assert_eq!(optimal_trade_size(q(1e6), q(2e6), q(100.0), signed(50.0)), 99_999_999_906);
    assert_eq!(optimal_trade_size(q(1000.0), q(4000.0), q(1.0), signed(5.0)), 99_999_904);
    assert_eq!(optimal_trade_size(q(1000.0), q(4000.0), q(1.0), signed(-1000.0)), 99_999_904);
}

#[test]
fn optimal_trade_size_without_profit_is_zero() {
    assert_eq!(optimal_trade_size(q(1000.0), q(1000.0), q(1.0), 0), 0);
    assert_eq!(optimal_trade_size(q(1e6), q(1e6), 0, signed(-1e6)), 0);
    assert_eq!(optimal_trade_size(q(1e6), q(1e6), 0, i128::MIN), 0);
    assert_eq!(optimal_trade_size(0, q(1000.0), 0, signed(-5.0)), 0);
    assert_eq!(optimal_trade_size(q(1000.0), 0, 0, signed(-5.0)), 0);
    assert_eq!(optimal_trade_size(q(1e6), q(2e6), q(100.0), i128::MAX), 0);
}

#[test]
fn flashloan_amount_values() {
    assert_eq!(
        calculate_flashloan_amount(q(1e6), q(2e6), q(1.8e6), q(1e6), q(0.0009), q(100.0)),
        37_500_000_000
    );
    assert_eq!(
        calculate_flashloan_amount(q(1e6), q(2e6), q(1e6), q(1e6), q(0.0009), q(100.0)),
        150_000_000_000
    );
}

#[test]
fn flashloan_amount_without_profit_is_zero() {
    assert_eq!(calculate_flashloan_amount(q(1e6), q(1e6), q(1e6), q(1e6), q(0.0009), q(100.0)), 0);
    assert_eq!(calculate_flashloan_amount(0, q(2e6), q(1e6), q(1e6), 0, 0), 0);
    assert_eq!(calculate_flashloan_amount(q(1e6), 0, q(1e6), q(1e6), 0, 0), 0);
    assert_eq!(calculate_flashloan_amount(q(1e6), q(2e6), 0, q(1e6), 0, 0), 0);
    assert_eq!(calculate_flashloan_amount(q(1e6), q(2e6), q(1e6), 0, 0, 0), 0);
    assert_eq!(calculate_flashloan_amount(q(1e6), q(2e6), q(1e6), q(1e6), 0, TOP), 0);
}

#[test]
fn flashloan_amount_leaves_a_profit() {
    let amount = calculate_flashloan_amount(q(1e6), q(2e6), q(1.8e6), q(1e6), q(0.0009), q(100.0));
    assert!(amount <= q(0.3 * 1e6));
    assert!(
        estimate_arbitrage_profit(q(1e6), q(2e6), q(1.8e6), q(1e6), amount, q(100.0), q(0.0009)) > 0
    );
}

#[test]
fn flashloan_amount_v3_values() {
    assert_eq!(
        calculate_flashloan_amount_v3(q(1e6), q(1.2), q(1.1), q(0.0009), q(10.0)),
        75_000_000_000
    );
    assert_eq!(calculate_flashloan_amount_v3(q(1e6), q(0.9), q(0.9), q(0.0009), q(10.0)), 0);
    assert_eq!(calculate_flashloan_amount_v3(0, q(1.2), q(1.1), 0, 0), 0);
    assert_eq!(calculate_flashloan_amount_v3(q(1e6), 0, q(1.1), 0, 0), 0);
    assert_eq!(calculate_flashloan_amount_v3(q(1e6), q(1.2), 0, 0, 0), 0);
}

#[test]
fn scan_values() {
    assert_eq!(
        optimize_trade_size_quadratic(q(1e6), q(2e6), q(1e6), q(2.5e6), q(100.0), q(0.0009)),
        297_000_000_000
    );
    assert_eq!(
        optimize_trade_size_quadratic(q(1e6), q(2e6), q(1e6), q(1e6), q(100.0), q(0.0009)),
        138_000_000_000
    );
}

#[test]
fn scan_points_round_once() {
    assert_eq!(optimize_trade_size_quadratic(9, TOP, 9, TOP, 0, 0), 2);
    assert_eq!(optimize_trade_size_quadratic(3, TOP, 3, TOP, 0, 0), 0);
}

#[test]
fn scan_without_profit_is_zero() {
    assert_eq!(optimize_trade_size_quadratic(q(1e6), q(1e6), q(1e6), q(1e6), q(1.0), 0), 0);
    assert_eq!(optimize_trade_size_quadratic(0, q(1e6), q(1e6), q(1e6), 0, 0), 0);
    assert_eq!(optimize_trade_size_quadratic(q(1e6), q(2e6), q(1e6), q(2.5e6), TOP, 0), 0);
}

#[test]
fn multihop_slippage_values() {
    let path = vec![(q(1e6), q(2e6)), (q(2e6), q(1e6))];
    assert_eq!(calculate_multihop_slippage(&path, q(1e4)), 2_555_876);
    assert_eq!(calculate_multihop_slippage(&vec![(q(500.0), q(800.0))], q(10.0)), 2_249_151);
    assert_eq!(
        calculate_multihop_slippage(&vec![(q(1e6), q(2e6))], q(1e4)),
        compute_uniswap_v2_slippage(q(1e6), q(2e6), q(1e4))
    );
}

#[test]
fn multihop_slippage_of_nothing_is_zero() {
    assert_eq!(calculate_multihop_slippage(&Vec::new(), q(10.0)), 0);
    assert_eq!(calculate_multihop_slippage(&vec![(q(1e6), q(2e6))], 0), 0);
    assert_eq!(calculate_multihop_slippage(&vec![(0, 0)], 0), 0);
}

#[test]
fn multihop_slippage_of_an_empty_pool_is_all() {
    assert_eq!(calculate_multihop_slippage(&vec![(0, q(2e6))], q(10.0)), PERCENT);
    assert_eq!(calculate_multihop_slippage(&vec![(q(2e6), 0)], q(10.0)), PERCENT);
    assert_eq!(
        calculate_multihop_slippage(&vec![(q(1e6), q(2e6)), (q(2e6), q(1e6)), (0, q(5.0))], q(1e4)),
        PERCENT
    );
    assert_eq!(
        calculate_multihop_slippage(&vec![(q(5.0), 0), (q(1e6), q(2e6))], q(1e4)),
        PERCENT
    );
}

#[test]
fn path_output_values() {
    let path = vec![(q(1e6), q(2e6)), (q(2e6), q(1e6))];
    assert_eq!(path_output(&path, q(1e4)), 9_746_045_359);
    assert_eq!(path_output(&Vec::new(), q(1e4)), q(1e4));
    assert_eq!(path_output(&vec![(q(500.0), q(800.0))], q(10.0)), 15_640_135);
}

#[test]
fn parallel_paths_values() {
    let paths = vec![
        vec![(q(1e6), q(2e6)), (q(2e6), q(1e6))],
        Vec::new(),
        vec![(q(500.0), q(800.0))],
        vec![(q(500.0), q(800.0))],
    ];
    let amounts = vec![q(1e4), q(5.0), q(10.0), 0];
    let gas = vec![q(100.0), q(1.0), q(1.0), q(1.0)];
    let out = simulate_parallel_flashloan_paths(&paths, &amounts, q(0.0009), &gas);
    assert_eq!(
        out,
        vec![
            (-362_954_641, 2_555_876, 0),
            (0, 0, 1),
            (15_640_135 - 10_009_000 - 1_000_000, 2_249_151, 2),
            (0, 0, 3),
        ]
    );
}

#[test]
fn parallel_paths_stop_at_the_shortest_list() {
    let paths = vec![vec![(q(500.0), q(800.0))], vec![(q(500.0), q(800.0))], Vec::new()];
    let one = simulate_parallel_flashloan_paths(&paths, &vec![q(10.0)], 0, &vec![0, 0, 0]);
    assert_eq!(one, vec![(5_640_135, 2_249_151, 0)]);
    let two = simulate_parallel_flashloan_paths(&paths, &vec![q(10.0), q(10.0), 1, 1], 0, &vec![0, 0]);
    assert_eq!(two, vec![(5_640_135, 2_249_151, 0), (5_640_135, 2_249_151, 1)]);
    let all = simulate_parallel_flashloan_paths(&paths, &vec![1, 1, 1, 1], 0, &vec![0, 0, 0, 0]);
    assert_eq!(all.len(), 3);
    assert_eq!(all[2], (0, 0, 2));
    let none = simulate_parallel_flashloan_paths(&paths, &Vec::new(), 0, &vec![0]);
    assert!(none.is_empty());
    let no_paths = simulate_parallel_flashloan_paths(&Vec::new(), &vec![1], 0, &vec![0]);
    assert!(no_paths.is_empty());
}

#[test]
fn parallel_path_with_an_empty_pool() {
    let paths = vec![vec![(q(500.0), q(800.0)), (0, q(5.0))]];
    let out = simulate_parallel_flashloan_paths(&paths, &vec![q(10.0)], 0, &vec![q(1.0)]);
    assert_eq!(out, vec![(-signed(11.0), PERCENT, 0)]);
}

#[test]
fn twap_values() {
    assert_eq!(calculate_twap(&vec![(q(0.0), q(100.0)), (q(10.0), q(110.0)), (q(20.0), q(105.0))]), q(105.0));
    assert_eq!(calculate_twap(&vec![(0, 5), (10, 7)]), 5);
    assert_eq!(
        calculate_twap(&vec![(q(0.0), q(100.0)), (q(10.0), q(110.0)), (q(5.0), q(1.0)), (q(25.0), q(3.0))]),
        q(34.0)
    );
    assert_eq!(calculate_twap(&vec![(q(0.0), q(2.0)), (q(10.0), q(2.05)), (q(20.0), q(2.1))]), 2_025_000);
    assert_eq!(calculate_twap(&vec![(0, TOP), (TOP, 1)]), TOP);
}

#[test]
fn twap_without_a_window_is_zero() {
    assert_eq!(calculate_twap(&Vec::new()), 0);
    assert_eq!(calculate_twap(&vec![(q(1.0), q(100.0))]), 0);
    assert_eq!(calculate_twap(&vec![(q(5.0), q(100.0)), (q(5.0), q(110.0))]), 0);
    assert_eq!(calculate_twap(&vec![(q(9.0), q(100.0)), (q(5.0), q(110.0)), (q(1.0), q(3.0))]), 0);
}

#[test]
fn twap_of_a_sum_wider_than_128_bits() {
    assert_eq!(calculate_twap(&vec![(0, TOP), (TOP, TOP), (0, TOP), (TOP, 1)]), TOP);
    assert_eq!(
        calculate_twap(&vec![(0, TOP), (TOP, TOP - 1), (0, 7), (TOP, 1)]),
        9_223_372_036_854_775_811
    );
}

#[test]
fn twap_validation_edges() {
    assert!(validate_with_twap(q(105.0), q(100.0), q(5.0)));
    assert!(validate_with_twap(q(95.0), q(100.0), q(5.0)));
    assert!(!validate_with_twap(q(105.000002), q(100.0), q(5.0)));
    assert!(!validate_with_twap(q(94.9), q(100.0), q(5.0)));
    assert!(validate_with_twap(q(100.0), q(100.0), 0));
    assert!(!validate_with_twap(q(100.0), 0, TOP));
    assert!(!validate_with_twap(0, 0, TOP));
    assert!(validate_with_twap(0, q(100.0), q(100.0)));
    assert!(!validate_with_twap(TOP, 1, q(100.0)));
}

#[test]
fn pool_validation_takes_the_spot_price_from_the_reserves() {
    assert!(validate_pool_with_twap(30_000_000, 500, 17, q(5.0)));
    assert!(!validate_with_twap(calculate_pool_price(30_000_000, 500), 17, q(5.0)));
    assert!(validate_pool_with_twap(q(1e6), q(2e6), q(2.1), q(5.0)));
    assert!(!validate_pool_with_twap(q(1e6), q(2e6), q(2.2), q(5.0)));
    assert!(validate_pool_with_twap(q(1e6), q(2e6), q(2.0), 0));
    assert!(!validate_pool_with_twap(q(1e6), q(2e6), 0, TOP));
    assert!(!validate_pool_with_twap(0, q(2e6), q(2.0), TOP));
    assert!(validate_pool_with_twap(q(1e6), 0, q(2.0), q(100.0)));
    assert!(!validate_pool_with_twap(1, TOP, 1, TOP));
}

#[test]
fn flow_of_pools_with_small_prices() {
    let window = vec![(0, 17), (10, 17)];
    let mut cfg = policy(0);
    cfg.gas_cost = 0;
    cfg.flashloan_fee_pct = 0;
    cfg.min_price_diff_pct = q(0.5);
    cfg.max_twap_deviation_pct = q(5.0);
    let out = execute_arbitrage_flow(30_000_000, 500, 30_000_000, 503, &window, &window, &cfg);
    assert_eq!(out, (false, 0, 0));
    assert_eq!(
        identify_arbitrage_opportunity(30_000_000, 500, 30_000_000, 503, q(0.5)).2,
        1
    );
}

#[test]
fn identify_values() {
    assert_eq!(
        identify_arbitrage_opportunity(q(1e6), q(2e6), q(1e6), q(2.2e6), q(5.0)),
        (true, q(10.0), 1)
    );
    assert_eq!(
        identify_arbitrage_opportunity(q(1e6), q(2.2e6), q(1e6), q(2e6), q(5.0)),
        (true, q(10.0), 2)
    );
    assert_eq!(
        identify_arbitrage_opportunity(q(1e6), q(2e6), q(1e6), q(2.2e6), q(10.0)),
        (true, q(10.0), 1)
    );
    assert_eq!(
        identify_arbitrage_opportunity(q(1e6), q(2e6), q(1e6), q(2.2e6), q(10.000001)),
        (false, q(10.0), 0)
    );
    assert_eq!(
        identify_arbitrage_opportunity(q(1e6), q(2e6), q(1e6), q(2e6), 0),
        (true, 0, 2)
    );
    assert_eq!(
        identify_arbitrage_opportunity(30_000_000, 500, 30_000_000, 503, q(0.5)),
        (true, q(0.6), 1)
    );
    assert_eq!(identify_arbitrage_opportunity(1, TOP, TOP, 1, TOP), (true, TOP, 2));
}

#[test]
fn identify_without_a_price() {
    assert_eq!(identify_arbitrage_opportunity(0, q(2e6), q(1e6), q(2.2e6), 0), (false, 0, 0));
    assert_eq!(identify_arbitrage_opportunity(q(1e6), 0, q(1e6), q(2.2e6), 0), (false, 0, 0));
    assert_eq!(identify_arbitrage_opportunity(q(1e6), q(2e6), 0, q(2.2e6), 0), (false, 0, 0));
    assert_eq!(identify_arbitrage_opportunity(q(1e6), q(2e6), q(1e6), 0, 0), (false, 0, 0));
}

#[test]
fn flow_values() {
    let window = vec![(q(0.0), q(2.0)), (q(10.0), q(2.05)), (q(20.0), q(2.1))];
    let out = execute_arbitrage_flow(
        q(1e6), q(2e6), q(1e6), q(2.5e6), &window, &window, &policy(signed(50.0)),
    );
    assert_eq!(out, (true, 297_000_000_000, 485_067_882_888));
    let reversed = execute_arbitrage_flow(
        q(1e6), q(2.5e6), q(1e6), q(2e6), &window, &window, &policy(signed(50.0)),
    );
    assert_eq!(reversed, (true, 297_000_000_000, 485_067_882_888));
}

#[test]
fn flow_reports_what_it_does_not_execute() {
    let window = vec![(q(0.0), q(2.0)), (q(10.0), q(2.05)), (q(20.0), q(2.1))];
    let out = execute_arbitrage_flow(
        q(1e6), q(2e6), q(1e6), q(2.5e6), &window, &window, &policy(signed(1e9)),
    );
    assert_eq!(out, (false, 297_000_000_000, 485_067_882_888));
}

#[test]
fn flow_without_a_gap_does_nothing() {
    let window = vec![(q(0.0), q(2.0)), (q(10.0), q(2.05)), (q(20.0), q(2.1))];
    let out = execute_arbitrage_flow(
        q(1e6), q(2e6), q(1e6), q(2.05e6), &window, &window, &policy(signed(50.0)),
    );
    assert_eq!(out, (false, 0, 0));
    let again = execute_arbitrage_flow(
        q(1e6), q(2e6), q(1e6), q(2.05e6), &window, &window, &policy(signed(50.0)),
    );
    assert_eq!(again, out);
}

#[test]
fn flow_takes_the_window_of_the_buy_pool() {
    let good = vec![(q(0.0), q(2.0)), (q(10.0), q(2.0))];
    let bad = vec![(q(0.0), q(3.0)), (q(10.0), q(3.0))];
    let cfg = policy(signed(50.0));
    let first = execute_arbitrage_flow(q(1e6), q(2e6), q(1e6), q(2.5e6), &good, &bad, &cfg);
    assert!(first.0);
    let second = execute_arbitrage_flow(q(1e6), q(2e6), q(1e6), q(2.5e6), &bad, &good, &cfg);
    assert_eq!(second, (false, 0, 0));
    let third = execute_arbitrage_flow(q(1e6), q(2.5e6), q(1e6), q(2e6), &bad, &good, &cfg);
    assert!(third.0);
}

#[test]
fn flow_fails_closed_without_a_window() {
    let cfg = policy(signed(50.0));
    let out = execute_arbitrage_flow(
        q(1e6), q(2e6), q(1e6), q(2.5e6), &Vec::new(), &Vec::new(), &cfg,
    );
    assert_eq!(out, (false, 0, 0));
    let one = vec![(q(0.0), q(2.0))];
    assert_eq!(
        execute_arbitrage_flow(q(1e6), q(2e6), q(1e6), q(2.5e6), &one, &one, &cfg),
        (false, 0, 0)
    );
}

#[test]
fn flow_without_a_size_does_nothing() {
    let window = vec![(q(0.0), q(2.0)), (q(10.0), q(2.0))];
    let mut cfg = policy(signed(-1e12));
    cfg.gas_cost = TOP;
    let out = execute_arbitrage_flow(q(1e6), q(2e6), q(1e6), q(2.5e6), &window, &window, &cfg);
    assert_eq!(out, (false, 0, 0));
}

#[test]
fn batch_values_in_order() {
    let pools = vec![
        (q(1e6), q(2e6), q(1e6), q(2.5e6)),
        (q(1e6), q(2e6), q(1e6), q(2.05e6)),
        (q(1e6), q(2.5e6), q(1e6), q(2e6)),
        (0, q(2e6), q(1e6), q(2.5e6)),
    ];
    let out = batch_evaluate_opportunities(&pools, &policy(signed(50.0)));
    assert_eq!(
        out,
        vec![
            (true, 297_000_000_000, 485_067_882_888),
            (false, 0, 0),
            (true, 297_000_000_000, 485_067_882_888),
            (false, 0, 0),
        ]
    );
    let high = batch_evaluate_opportunities(&pools, &policy(signed(1e9)));
    assert_eq!(high[0], (false, 297_000_000_000, 485_067_882_888));
    assert!(batch_evaluate_opportunities(&Vec::new(), &policy(0)).is_empty());
}

#[test]
fn batch_needs_no_window() {
    let pools = vec![(q(1e6), q(2e6), q(1e6), q(2.5e6))];
    let cfg = policy(signed(50.0));
    let flow = execute_arbitrage_flow(
        q(1e6), q(2e6), q(1e6), q(2.5e6), &Vec::new(), &Vec::new(), &cfg,
    );
    assert_eq!(flow, (false, 0, 0));
    assert_eq!(batch_evaluate_opportunities(&pools, &cfg), vec![(true, 297_000_000_000, 485_067_882_888)]);
}

#[test]
fn quadratic_roots_values() {
    assert_eq!(solve_quadratic(1_000_000, -5_000_000, 6_000_000), (3_000_000, 2_000_000));
    assert_eq!(solve_quadratic(1_000_000, 1_000_000, -1_000_000), (618_033, -1_618_034));
    assert_eq!(solve_quadratic(-2_000_000, 3_000_000, 5_000_000), (-1_000_000, 2_500_000));
    assert_eq!(solve_quadratic(1_000_000, 2_000_000, 1_000_000), (-1_000_000, -1_000_000));
    assert_eq!(solve_quadratic(1_000_000, 0, -2_000_000), (1_414_213, -1_414_214));
}

#[test]
fn quadratic_roots_of_the_smallest_coefficients() {
    assert_eq!(solve_quadratic(1, 0, -2), (1_414_213, -1_414_214));
    assert_eq!(solve_quadratic(3, -7, -11), (3_408_937, -1_075_605));
}

#[test]
fn quadratic_roots_of_the_largest_coefficients() {
    assert_eq!(solve_quadratic(i64::MIN, i64::MAX, i64::MAX), (-618_034, 1_618_033));
    assert_eq!(solve_quadratic(i64::MAX, i64::MIN, i64::MIN), (1_618_033, -618_034));
    assert_eq!(solve_quadratic(i64::MIN, i64::MIN, i64::MAX), (-1_618_034, 618_033));
    assert_eq!(solve_quadratic(1, i64::MIN, 0), (9_223_372_036_854_775_808_000_000, 0));
    assert_eq!(solve_quadratic(-1, i64::MAX, i64::MAX), (-1_000_000, 9_223_372_036_854_775_807_999_999));
}

#[test]
fn quadratic_without_real_roots() {
    assert_eq!(solve_quadratic(1_000_000, 0, 1_000_000), (0, 0));
    assert_eq!(solve_quadratic(i64::MIN, 0, i64::MIN), (0, 0));
    assert_eq!(solve_quadratic(i64::MAX, 1, i64::MAX), (0, 0));
}

#[test]
fn quadratic_that_is_linear() {
    assert_eq!(solve_quadratic(0, 2_000_000, -3_000_000), (1_500_000, 0));
    assert_eq!(solve_quadratic(0, -2_000_000, -3_000_000), (-1_500_000, 0));
    assert_eq!(solve_quadratic(0, 3, 1), (-333_334, 0));
    assert_eq!(solve_quadratic(0, -3, 1), (333_333, 0));
    assert_eq!(solve_quadratic(0, 3, -1), (333_333, 0));
    assert_eq!(solve_quadratic(0, 0, 5_000_000), (0, 0));
    assert_eq!(solve_quadratic(0, 0, 0), (0, 0));
}

#[test]
fn rows_to_pairs() {
    let rows = vec![vec![1, 2], vec![3], Vec::new(), vec![4, 5, 6], vec![7, 8]];
    assert_eq!(pairs_from_rows(&rows), vec![(1, 2), (4, 5), (7, 8)]);
    assert!(pairs_from_rows(&Vec::new()).is_empty());
    assert!(pairs_from_rows(&vec![vec![9]]).is_empty());
}

#[test]
fn rows_to_quads() {
    let rows = vec![vec![1, 2, 3, 4], vec![1, 2, 3], vec![5, 6, 7, 8, 9]];
    assert_eq!(quads_from_rows(&rows), vec![(1, 2, 3, 4), (5, 6, 7, 8)]);
    assert!(quads_from_rows(&Vec::new()).is_empty());
}

#[test]
fn rows_to_paths() {
    let rows = vec![vec![vec![1, 2], vec![3]], Vec::new(), vec![vec![4, 5], vec![6, 7]]];
    assert_eq!(
        paths_from_rows(&rows),
        vec![vec![(1, 2)], Vec::new(), vec![(4, 5), (6, 7)]]
    );
}

#[test]
fn trade_size_reaches_its_floor() {
    for &(reserve_in, reserve_out, gas, floor) in &[
        (q(1e6), q(2e6), q(100.0), signed(50.0)),
        (q(1000.0), q(4000.0), q(1.0), signed(5.0)),
        (q(1000.0), q(4000.0), q(1.0), 0),
        (q(123.456), q(9876.5), q(0.5), signed(1.0)),
    ] {
        let size = optimal_trade_size(reserve_in, reserve_out, gas, floor);
        assert!(size <= reserve_in / 10);
        if size > 0 {
            let paid = calculate_amount_out(reserve_in, reserve_out, size) as i128;
            assert!(paid - size as i128 - gas as i128 >= floor);
        }
    }
}

#[test]
fn scan_size_is_the_best_point() {
    let (bi, bo, si, so, gas, fee) = (q(1e6), q(2e6), q(1e6), q(2.5e6), q(100.0), q(0.0009));
    let size = optimize_trade_size_quadratic(bi, bo, si, so, gas, fee);
    let best = estimate_arbitrage_profit(bi, bo, si, so, size, gas, fee);
    assert!(size > 0 && best > 0);
    let mut seen = false;
    for i in 0..100u128 {
        let point = (3 * i * bi as u128 / 1000) as u64;
        if point == size {
            seen = true;
        }
        if point > 0 {
            assert!(estimate_arbitrage_profit(bi, bo, si, so, point, gas, fee) <= best);
        }
    }
    assert!(seen);
}

#[test]
fn flashloan_amount_v3_leaves_a_profit() {
    let (liquidity, buy, sell, fee, gas) = (q(1e6), q(1.2), q(1.1), q(0.0009), q(10.0));
    let amount = calculate_flashloan_amount_v3(liquidity, buy, sell, fee, gas);
    assert!(amount > 0 && amount <= (liquidity as u128 * 3 / 10) as u64);
    let bought = concentrated_amount_out(liquidity, buy, amount);
    let sold = concentrated_amount_out(liquidity, sell, bought);
    let profit = sold as i128 - flashloan_repayment(amount, fee) as i128 - gas as i128;
    assert_eq!(profit, 9_901_040_772);
}
