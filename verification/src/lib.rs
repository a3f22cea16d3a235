//! A pricing and sizing engine for arbitrage between automated-market-maker
//! pools, in fixed-point arithmetic.
//!
//! Every quantity is a decimal number with six fractional digits, held as an
//! integer count of millionths: `fixed::SCALE` stands for 1.0. A result is
//! its formula rounded down to that grid; the contracts say where the
//! rounding happens. The functions are total: an empty pool, an empty window
//! or an empty path gives the result that its contract names, never a fault.

pub mod fixed;
pub mod laws;
pub mod paths;
pub mod pipeline;
pub mod pricing;
pub mod quadratic;
pub mod rows;
pub mod sizing;
pub mod slippage;
pub mod twap;

pub use fixed::{PERCENT, SCALE};
pub use paths::{calculate_multihop_slippage, simulate_parallel_flashloan_paths};
pub use pipeline::{
    batch_evaluate_opportunities, execute_arbitrage_flow, identify_arbitrage_opportunity,
    ArbitrageConfig,
};
pub use pricing::{
    calculate_amount_in, calculate_amount_out, calculate_market_impact, calculate_pool_price,
    estimate_arbitrage_profit,
};
pub use quadratic::solve_quadratic;
pub use sizing::{
    calculate_flashloan_amount, calculate_flashloan_amount_v3, optimal_trade_size,
    optimize_trade_size_quadratic,
};
pub use slippage::{
    compute_aggregator_slippage, compute_curve_slippage, compute_uniswap_v2_slippage,
    compute_uniswap_v3_slippage,
};
pub use twap::{calculate_twap, validate_pool_with_twap, validate_with_twap};
