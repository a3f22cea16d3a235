//! Path composers: slippage and profit along a chain of constant-product
//! pools, and the evaluation of several such paths side by side.

use crate::fixed::{cap64, PERCENT};
use crate::pricing::{amount_out_value, calculate_amount_out, flashloan_repayment, repayment_value};
use crate::slippage::{compute_uniswap_v2_slippage, uniswap_v2_slippage_value};
use vstd::prelude::*;

verus! {

/// What is left of `amount` after the first `k` hops of a path, each hop
/// paying out what the one before it paid in. A hop is `(reserve_in,
/// reserve_out)`.
pub open spec fn amount_after(path: Seq<(u64, u64)>, amount: int, k: int) -> int
    decreases k,
{
    if k <= 0 {
        amount
    } else {
        amount_out_value(
            path[k - 1].0 as int,
            path[k - 1].1 as int,
            amount_after(path, amount, k - 1),
        )
    }
}

/// The sum of the slippages of the first `k` hops of a path, each taken at
/// the amount that reaches it.
pub open spec fn slippage_through(path: Seq<(u64, u64)>, amount: int, k: int) -> int
    decreases k,
{
    if k <= 0 {
        0
    } else {
        slippage_through(path, amount, k - 1) + uniswap_v2_slippage_value(
            path[k - 1].0 as int,
            path[k - 1].1 as int,
            amount_after(path, amount, k - 1),
        )
    }
}

/// Whether every pool of a path holds something on both sides.
pub open spec fn path_is_sound(path: Seq<(u64, u64)>) -> bool {
    forall|i: int| 0 <= i < path.len() ==> (#[trigger] path[i]).0 > 0 && path[i].1 > 0
}

/// The slippage of a path: 0 for no path or no amount; exactly 100 percent
/// where any pool of the path has an empty side; else the sum of the
/// slippages of its hops, capped to the range of a quantity.
pub open spec fn multihop_slippage_value(path: Seq<(u64, u64)>, amount: int) -> int {
    if path.len() == 0 || amount <= 0 {
        0
    } else if !path_is_sound(path) {
        PERCENT as int
    } else {
        cap64(slippage_through(path, amount, path.len() as int))
    }
}

/// The total slippage, in percent, of sending `flashloan_amount` through the
/// pools of a path in order.
pub fn calculate_multihop_slippage(reserves: &Vec<(u64, u64)>, flashloan_amount: u64) -> (r: u64)
    ensures
        r == multihop_slippage_value(reserves@, flashloan_amount as int),
        reserves.len() == 0 || flashloan_amount == 0 ==> r == 0,
        reserves.len() > 0 && flashloan_amount > 0 && !path_is_sound(reserves@) ==> r == PERCENT,
{
    if reserves.len() == 0 || flashloan_amount == 0 {
        return 0;
    }
    let mut current_amount: u64 = flashloan_amount;
    let mut total_slippage: u128 = 0;
    let mut i: usize = 0;
    while i < reserves.len()
        invariant
            0 <= i <= reserves.len(),
            flashloan_amount > 0,
            forall|j: int| 0 <= j < i ==> (#[trigger] reserves[j]).0 > 0 && reserves[j].1 > 0,
            current_amount == amount_after(reserves@, flashloan_amount as int, i as int),
            total_slippage == slippage_through(reserves@, flashloan_amount as int, i as int),
            total_slippage <= i * PERCENT,
        decreases reserves.len() - i,
    {
        let (reserve_in, reserve_out) = reserves[i];
        if reserve_in == 0 || reserve_out == 0 {
            return PERCENT;
        }
        let hop_slippage: u64 = compute_uniswap_v2_slippage(reserve_in, reserve_out, current_amount);
        total_slippage = total_slippage + hop_slippage as u128;
        current_amount = calculate_amount_out(reserve_in, reserve_out, current_amount);
        i = i + 1;
    }
    if total_slippage > u64::MAX as u128 {
        u64::MAX
    } else {
        total_slippage as u64
    }
}

/// What comes out at the end of a path for `amount` put in at its start.
pub fn path_output(path: &Vec<(u64, u64)>, amount: u64) -> (r: u64)
    ensures
        r == amount_after(path@, amount as int, path.len() as int),
{
    let mut current_amount: u64 = amount;
    let mut i: usize = 0;
    while i < path.len()
        invariant
            0 <= i <= path.len(),
            current_amount == amount_after(path@, amount as int, i as int),
        decreases path.len() - i,
    {
        let (reserve_in, reserve_out) = path[i];
        current_amount = calculate_amount_out(reserve_in, reserve_out, current_amount);
        i = i + 1;
    }
    current_amount
}

/// The outcome of one flashloan path, as `(profit, slippage, index)`: for no
/// path or no amount, no profit and no slippage; else what the path pays out
/// less the repayment of the loan and the gas, and the slippage of the path.
pub open spec fn path_outcome(
    path: Seq<(u64, u64)>,
    amount: u64,
    flashloan_fee: u64,
    gas_cost: u64,
    index: int,
) -> (int, int, int) {
    if path.len() == 0 || amount == 0 {
        (0, 0, index)
    } else {
        (
            amount_after(path, amount as int, path.len() as int) - repayment_value(
                amount as int,
                flashloan_fee as int,
            ) - gas_cost,
            multihop_slippage_value(path, amount as int),
            index,
        )
    }
}

/// How many paths a batch evaluates: those that have both an amount and a
/// gas cost at their index.
pub open spec fn batch_len(paths: int, amounts: int, gas_costs: int) -> int {
    if paths <= amounts && paths <= gas_costs {
        paths
    } else if amounts <= gas_costs {
        amounts
    } else {
        gas_costs
    }
}

/// Evaluates flashloan paths side by side, each with the amount and the gas
/// cost at its own index and all at one fee. Returns `(profit, slippage,
/// index)` for each path in the order given, as far as all three lists reach.
pub fn simulate_parallel_flashloan_paths(
    paths: &Vec<Vec<(u64, u64)>>,
    flashloan_amounts: &Vec<u64>,
    flashloan_fee: u64,
    gas_costs: &Vec<u64>,
) -> (r: Vec<(i128, u64, usize)>)
    ensures
        r.len() == batch_len(
            paths.len() as int,
            flashloan_amounts.len() as int,
            gas_costs.len() as int,
        ),
        forall|i: int|
            0 <= i < r.len() ==> (r[i].0 as int, r[i].1 as int, r[i].2 as int) == path_outcome(
                (#[trigger] paths[i])@,
                flashloan_amounts[i],
                flashloan_fee,
                gas_costs[i],
                i,
            ),
{
    let mut results: Vec<(i128, u64, usize)> = Vec::new();
    let mut idx: usize = 0;
    while idx < paths.len() && idx < flashloan_amounts.len() && idx < gas_costs.len()
        invariant
            idx <= paths.len(),
            idx <= flashloan_amounts.len(),
            idx <= gas_costs.len(),
            results.len() == idx,
            forall|i: int|
                0 <= i < idx ==> (results[i].0 as int, results[i].1 as int, results[i].2 as int)
                    == path_outcome(
                    (#[trigger] paths[i])@,
                    flashloan_amounts[i],
                    flashloan_fee,
                    gas_costs[i],
                    i,
                ),
        decreases paths.len() - idx,
    {
        let path: &Vec<(u64, u64)> = &paths[idx];
        let flashloan_amount: u64 = flashloan_amounts[idx];
        let gas_cost: u64 = gas_costs[idx];
        if path.len() == 0 || flashloan_amount == 0 {
            results.push((0, 0, idx));
        } else {
            let paid: u64 = path_output(path, flashloan_amount);
            let due: u128 = flashloan_repayment(flashloan_amount, flashloan_fee);
            let profit: i128 = paid as i128 - due as i128 - gas_cost as i128;
            let slippage: u64 = calculate_multihop_slippage(path, flashloan_amount);
            results.push((profit, slippage, idx));
        }
        idx = idx + 1;
    }
    results
}

} // verus!
