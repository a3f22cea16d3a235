//! The engine against the same formulas in double precision: on ordinary
//! pools the two agree to within the resolution of the fixed-point grid.

use arbitrage_engine::{
    calculate_amount_in, calculate_amount_out, calculate_flashloan_amount,
    calculate_flashloan_amount_v3, calculate_market_impact, calculate_multihop_slippage,
    calculate_pool_price, calculate_twap, compute_curve_slippage, compute_uniswap_v2_slippage,
    compute_uniswap_v3_slippage, estimate_arbitrage_profit, optimal_trade_size,
    optimize_trade_size_quadratic, solve_quadratic,
};

fn grid(x: f64) -> u64 {
    (x * 1_000_000.0).round() as u64
}

fn decimal(q: u64) -> f64 {
    q as f64 / 1_000_000.0
}

fn decimal_signed(m: i128) -> f64 {
    m as f64 / 1_000_000.0
}

fn close(fixed: f64, float: f64, tolerance: f64) -> bool {
    (fixed - float).abs() <= tolerance
}

fn product_out(reserve_in: f64, reserve_out: f64, amount_in: f64) -> f64 {
    let with_fee = amount_in * 0.997;
    with_fee * reserve_out / (reserve_in + with_fee)
}

fn round_trip(pools: (f64, f64, f64, f64), amount: f64, gas: f64, fee: f64) -> f64 {
    let bought = product_out(pools.0, pools.1, amount);
    product_out(pools.2, pools.3, bought) - amount * (1.0 + fee) - gas
}

const POOLS: [(f64, f64, f64); 5] = [
    (1_000_000.0, 2_000_000.0, 10_000.0),
    (1_000_000.0, 1_000_000.0, 250_000.0),
    (5_000.0, 80_000.0, 12.5),
    (123_456.789, 98_765.4321, 1_000.0),
    (750.0, 750.0, 750.0),
];

#[test]
fn amount_out_agrees() {
    for &(reserve_in, reserve_out, amount) in &POOLS {
        let fixed = decimal(calculate_amount_out(grid(reserve_in), grid(reserve_out), grid(amount)));
        assert!(close(fixed, product_out(reserve_in, reserve_out, amount), 1e-5));
    }
}

#[test]
fn amount_in_agrees() {
    for &(reserve_in, reserve_out, amount) in &POOLS {
        let wanted = amount / 2.0;
        let float = reserve_in * wanted * 1000.0 / ((reserve_out - wanted) * 997.0) + 1.0;
        let fixed = decimal(calculate_amount_in(grid(reserve_in), grid(reserve_out), grid(wanted)));
        assert!(close(fixed, float, 1e-5));
    }
}

#[test]
fn pool_price_agrees() {
    for &(reserve_in, reserve_out, _) in &POOLS {
        let fixed = decimal(calculate_pool_price(grid(reserve_in), grid(reserve_out)));
        assert!(close(fixed, reserve_out / reserve_in, 1e-6));
    }
}

#[test]
fn uniswap_v2_slippage_agrees() {
    for &(reserve_in, reserve_out, amount) in &POOLS {
        let ideal = amount / reserve_in * reserve_out;
        let float = ((ideal - product_out(reserve_in, reserve_out, amount)) / ideal * 100.0).max(0.0);
        let fixed =
            decimal(compute_uniswap_v2_slippage(grid(reserve_in), grid(reserve_out), grid(amount)));
        assert!(close(fixed, float, 1e-4));
    }
}

#[test]
fn uniswap_v3_slippage_agrees() {
    for &(liquidity, _, amount) in &POOLS {
        for &sqrt_price in &[0.5, 1.0, 1.5, 40.0] {
            let actual = amount * sqrt_price * liquidity / (liquidity + amount);
            let ideal = amount * sqrt_price;
            let float = ((ideal - actual) / ideal * 100.0).max(0.0);
            let fixed =
                decimal(compute_uniswap_v3_slippage(grid(liquidity), grid(sqrt_price), grid(amount)));
            assert!(close(fixed, float, 1e-4));
        }
    }
}

#[test]
fn curve_slippage_agrees() {
    for &(balance_in, balance_out, amount) in &POOLS {
        for &amplification in &[0.0, 10.0, 100.0, 2000.0] {
            let with_fee = amount * 0.9996;
            let sum_out = with_fee;
            let prod_out = with_fee * balance_out / (balance_in + with_fee);
            let weight = amplification / (amplification + 100.0);
            let actual = sum_out * weight + prod_out * (1.0 - weight);
            let ideal = amount * (balance_out / balance_in);
            let float = ((ideal - actual) / ideal * 100.0).max(0.0);
            let fixed = decimal(compute_curve_slippage(
                grid(balance_in),
                grid(balance_out),
                grid(amount),
                grid(amplification),
            ));
            assert!(close(fixed, float, 1e-4));
        }
    }
}

#[test]
fn market_impact_agrees() {
    for &(reserve_in, reserve_out, amount) in &POOLS {
        let before = reserve_out / reserve_in;
        let after = (reserve_out - product_out(reserve_in, reserve_out, amount))
            / (reserve_in + amount);
        let float = ((before - after) / before * 100.0).abs();
        let fixed =
            decimal(calculate_market_impact(grid(reserve_in), grid(reserve_out), grid(amount)));
        assert!(close(fixed, float, 1e-3));
    }
}

#[test]
fn multihop_slippage_agrees() {
    let path = [(1_000_000.0, 2_000_000.0), (2_000_000.0, 1_000_000.0), (40_000.0, 90_000.0)];
    let mut amount = 10_000.0;
    let mut float = 0.0;
    for &(reserve_in, reserve_out) in &path {
        let ideal = amount / reserve_in * reserve_out;
        let paid = product_out(reserve_in, reserve_out, amount);
        float += ((ideal - paid) / ideal * 100.0f64).max(0.0);
        amount = paid;
    }
    let pools: Vec<(u64, u64)> = path.iter().map(|p| (grid(p.0), grid(p.1))).collect();
    let fixed = decimal(calculate_multihop_slippage(&pools, grid(10_000.0)));
    assert!(close(fixed, float, 1e-4));
}

#[test]
fn arbitrage_profit_agrees() {
    let pools = (1_000_000.0, 2_000_000.0, 1_000_000.0, 2_500_000.0);
    for &amount in &[1.0, 1_000.0, 50_000.0, 297_000.0] {
        let fixed = decimal_signed(estimate_arbitrage_profit(
            grid(pools.0),
            grid(pools.1),
            grid(pools.2),
            grid(pools.3),
            grid(amount),
            grid(100.0),
            grid(0.0009),
        ));
        assert!(close(fixed, round_trip(pools, amount, 100.0, 0.0009), 1e-4));
    }
}

#[test]
fn twap_agrees() {
    let window = [(0.0, 100.0), (10.0, 110.0), (12.5, 90.25), (40.0, 105.0), (41.0, 1.0)];
    let mut weighted = 0.0;
    let mut total = 0.0;
    for i in 0..window.len() - 1 {
        let dt = window[i + 1].0 - window[i].0;
        weighted += window[i].1 * dt;
        total += dt;
    }
    let samples: Vec<(u64, u64)> = window.iter().map(|s| (grid(s.0), grid(s.1))).collect();
    assert!(close(decimal(calculate_twap(&samples)), weighted / total, 1e-6));
}

#[test]
fn optimal_trade_size_agrees() {
    let (reserve_in, reserve_out, gas, floor) = (1_000_000.0, 2_000_000.0, 100.0, 50.0);
    let mut low = 0.0;
    let mut high = reserve_in * 0.1;
    let mut best = 0.0;
    for _ in 0..50 {
        let mid = (low + high) / 2.0;
        if product_out(reserve_in, reserve_out, mid) - mid - gas >= floor {
            best = mid;
            low = mid;
        } else {
            high = mid;
        }
        if high - low < 0.0001 {
            break;
        }
    }
    let fixed = decimal(optimal_trade_size(grid(reserve_in), grid(reserve_out), grid(gas), 50_000_000));
    assert!(close(fixed, best, 1e-3));
}

#[test]
fn flashloan_amount_agrees() {
    let pools = (1_000_000.0, 2_000_000.0, 1_800_000.0, 1_000_000.0);
    let mut low = 0.0;
    let mut high = (pools.0 * 0.3f64).min(pools.2 * 0.3);
    let mut best = 0.0;
    let mut best_profit = 0.0;
    for _ in 0..100 {
        let mid = (low + high) / 2.0;
        let profit = round_trip(pools, mid, 100.0, 0.0009);
        if profit > best_profit {
            best_profit = profit;
            best = mid;
        }
        if profit > 0.0 {
            low = mid;
        } else {
            high = mid;
        }
        if high - low < 0.01 {
            break;
        }
    }
    let fixed = decimal(calculate_flashloan_amount(
        grid(pools.0),
        grid(pools.1),
        grid(pools.2),
        grid(pools.3),
        grid(0.0009),
        grid(100.0),
    ));
    assert!(close(fixed, best, 1e-2));
}

#[test]
fn flashloan_amount_v3_agrees() {
    let (liquidity, buy, sell, fee, gas) = (1_000_000.0, 1.2, 1.1, 0.0009, 10.0);
    let mut low = 0.0;
    let mut high = liquidity * 0.3;
    let mut best = 0.0;
    let mut best_profit = 0.0;
    for _ in 0..100 {
        let mid = (low + high) / 2.0;
        let bought = mid * buy * liquidity / (liquidity + mid);
        let sold = bought * sell * liquidity / (liquidity + bought);
        let profit = sold - mid * (1.0 + fee) - gas;
        if profit > best_profit {
            best_profit = profit;
            best = mid;
        }
        if profit > 0.0 {
            low = mid;
        } else {
            high = mid;
        }
        if high - low < 0.01 {
            break;
        }
    }
    let fixed = decimal(calculate_flashloan_amount_v3(
        grid(liquidity),
        grid(buy),
        grid(sell),
        grid(fee),
        grid(gas),
    ));
    assert!(close(fixed, best, 1e-2));
}

#[test]
fn scan_agrees() {
    let pools = (1_000_000.0, 2_000_000.0, 1_000_000.0, 2_500_000.0);
    let limit = (pools.0 * 0.3f64).min(pools.2 * 0.3);
    let mut best = 0.0;
    let mut best_profit = 0.0;
    for i in 0..100 {
        let amount = i as f64 / 100.0 * limit;
        if amount <= 0.0 {
            continue;
        }
        let profit = round_trip(pools, amount, 100.0, 0.0009);
        if profit > best_profit {
            best_profit = profit;
            best = amount;
        }
    }
    let fixed = decimal(optimize_trade_size_quadratic(
        grid(pools.0),
        grid(pools.1),
        grid(pools.2),
        grid(pools.3),
        grid(100.0),
        grid(0.0009),
    ));
    assert!(close(fixed, best, 1e-5));
}

#[test]
fn quadratic_roots_agree() {
    for &(a, b, c) in &[(1.0, -5.0, 6.0), (2.0, 3.0, -7.0), (-0.5, 0.25, 9.0), (1.0, 2.0, 1.0)] {
        let root = (b * b - 4.0 * a * c as f64).sqrt();
        let float = ((-b + root) / (2.0 * a), (-b - root) / (2.0 * a));
        let (first, second) = solve_quadratic(
            (a * 1e6) as i64,
            (b * 1e6) as i64,
            (c * 1e6) as i64,
        );
        assert!(close(decimal_signed(first), float.0, 1e-5));
        assert!(close(decimal_signed(second), float.1, 1e-5));
    }
}
