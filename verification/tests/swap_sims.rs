//! Swap pricing scenarios: the stableswap invariant solver, forward and
//! reverse constant-product computation, heterogeneous decimals, and the
//! value-conservation bound that fee rounding never pays out more than the
//! offer covers.

use pool_manager::error::ContractError;
use pool_manager::model::{Asset, Fee, PoolFees, PoolInfo, PoolType, FEE_SCALE};
use pool_manager::stable::compute_d;
use pool_manager::swap::{compute_offer_amount, compute_swap, simulate_swap};

fn asset(denom: &str, amount: u128) -> Asset {
    Asset { denom: denom.to_string(), amount }
}

fn no_fees() -> PoolFees {
    PoolFees {
        swap_fee: Fee { share: 0 },
        protocol_fee: Fee { share: 0 },
        burn_fee: Fee { share: 0 },
        extra_fees: Vec::new(),
    }
}

fn percent_fees(swap_pct: u128, protocol_pct: u128) -> PoolFees {
    PoolFees {
        swap_fee: Fee { share: swap_pct * (FEE_SCALE / 100) },
        protocol_fee: Fee { share: protocol_pct * (FEE_SCALE / 100) },
        burn_fee: Fee { share: 0 },
        extra_fees: Vec::new(),
    }
}

fn cp_pool(id: &str, a: u128, b: u128, fees: PoolFees) -> PoolInfo {
    PoolInfo {
        pool_identifier: id.to_string(),
        lp_denom: format!("factory/{}/lp", id),
        assets: vec![asset("uusd", a), asset("uom", b)],
        asset_decimals: vec![6, 6],
        pool_type: PoolType::ConstantProduct,
        pool_fees: fees,
    }
}

#[test]
fn compute_d_balanced_pool_converges_to_the_sum() {
    // a balanced 2-asset pool (100, 100) has invariant D = 200
    let balances = vec![100u128, 100u128];
    assert_eq!(compute_d(85, &balances).unwrap(), 200);
}

#[test]
fn compute_d_amplification_zero_still_converges() {
    // an adversarial amplification of 0 must not crash; on a balanced pool
    // the iteration still settles on the sum
    let balances = vec![100u128, 100u128];
    assert_eq!(compute_d(0, &balances).unwrap(), 200);
}

#[test]
fn compute_d_empty_balances_give_zero() {
    let balances = vec![0u128, 0u128];
    assert_eq!(compute_d(85, &balances).unwrap(), 0);
}

#[test]
fn constant_product_swap_with_fee() {
    // pool 1_000_000 / 1_000_000, swap fee 1%, offer 1_000:
    // gross = 1_000_000 - floor(10^12 / 1_001_000) = 1_000
    // swap fee = floor(1% of 1_000) = 10, return = 990, spread = 0
    let fees = percent_fees(1, 0);
    let c = compute_swap(
        2,
        1_000_000,
        1_000_000,
        1_000,
        &fees,
        &PoolType::ConstantProduct,
        6,
        6,
    )
    .unwrap();
    assert_eq!(c.return_amount, 990);
    assert_eq!(c.swap_fee_amount, 10);
    assert_eq!(c.protocol_fee_amount, 0);
    assert_eq!(c.burn_fee_amount, 0);
    assert_eq!(c.extra_fees_amount, 0);
    assert_eq!(c.spread_amount, 0);
    // fee rounding favors the pool: everything adds back up to the offer
    assert_eq!(
        c.return_amount + c.swap_fee_amount + c.protocol_fee_amount + c.burn_fee_amount
            + c.extra_fees_amount + c.spread_amount,
        1_000
    );
}

#[test]
fn huge_constant_product_pools_are_priced() {
    // pool balances near 2^127: the curve product runs through the 256-bit
    // intermediate instead of failing
    let fees = no_fees();
    let half: u128 = u128::MAX / 2;
    let c = compute_swap(
        2,
        half,
        half,
        1_000_000,
        &fees,
        &PoolType::ConstantProduct,
        6,
        6,
    )
    .unwrap();
    assert!(c.return_amount > 0);
    assert!(c.return_amount <= 1_000_000);
}

#[test]
fn compute_d_handles_large_balances() {
    // balances of 10^19 each: the dp iteration runs through the 256-bit
    // intermediates; the balanced invariant is still the sum
    let big: u128 = 10_000_000_000_000_000_000;
    let balances = vec![big, big];
    assert_eq!(compute_d(85, &balances).unwrap(), 2 * big);
}

#[test]
fn constant_product_swap_shows_spread() {
    // a large trade moves the price: gross falls short of the offer amount
    let fees = no_fees();
    let c = compute_swap(
        2,
        1_000_000,
        1_000_000,
        500_000,
        &fees,
        &PoolType::ConstantProduct,
        6,
        6,
    )
    .unwrap();
    // gross = 1_000_000 - floor(10^12 / 1_500_000) = 1_000_000 - 666_666 = 333_334
    assert_eq!(c.return_amount, 333_334);
    assert_eq!(c.spread_amount, 500_000 - 333_334);
    assert_eq!(c.return_amount + c.spread_amount, 500_000);
}

#[test]
fn swap_normalizes_heterogeneous_decimals() {
    // offer asset with 6 decimals, ask asset with 12: amounts are brought to
    // 12 decimals before the curve math
    let fees = no_fees();
    let c = compute_swap(
        2,
        1_000_000,
        1_000_000_000_000,
        1_000,
        &fees,
        &PoolType::ConstantProduct,
        6,
        12,
    )
    .unwrap();
    // normalized: pools 10^12 each, offer 10^9:
    // gross = 10^12 - floor(10^24 / (10^12 + 10^9)) = 999_001_000
    assert_eq!(c.return_amount, 999_001_000);
    assert_eq!(c.spread_amount, 1_000_000_000 - 999_001_000);
}

#[test]
fn stableswap_swap_conserves_value_with_low_slippage() {
    // near-balanced stableswap pools price close to 1:1, and with equal
    // decimals the identity return + fees + spread == offer holds exactly
    let fees = percent_fees(1, 1);
    let c = compute_swap(
        2,
        1_000_000,
        1_000_000,
        1_000,
        &fees,
        &PoolType::StableSwap { amp: 85 },
        6,
        6,
    )
    .unwrap();
    assert!(c.return_amount > 0);
    assert!(c.return_amount < 1_000);
    assert_eq!(
        c.return_amount + c.swap_fee_amount + c.protocol_fee_amount + c.burn_fee_amount
            + c.extra_fees_amount + c.spread_amount,
        1_000
    );
    // the stableswap curve beats constant product on slippage here: the
    // gross return stays within one unit of the offer
    assert!(c.spread_amount <= 1);
}

#[test]
fn reverse_computation_inverts_the_forward_swap() {
    // forward: offering 1_000 with a 1% fee returns 990; the reverse
    // computation for a desired 990 must ask for the original 1_000 again,
    // within the rounding the ceilings add (here 2 units)
    let fees = percent_fees(1, 0);
    let c = compute_offer_amount(1_000_000, 1_000_000, 990, &fees).unwrap();
    assert_eq!(c.offer_amount, 1_002);
    assert!(c.offer_amount >= 1_000);
    assert!(c.offer_amount - 1_000 <= 3);
    // the fees the reverse direction reports match the gross it solved for
    assert_eq!(c.swap_fee_amount, 10);
}

#[test]
fn reverse_computation_rejects_draining_the_pool() {
    // asking for (almost) the whole ask balance cannot be served
    let fees = no_fees();
    assert!(compute_offer_amount(1_000_000, 1_000_000, 1_000_000, &fees).is_err());
}

#[test]
fn simulate_swap_rejects_unknown_and_equal_denoms() {
    let pool = cp_pool("p1", 1_000_000, 1_000_000, no_fees());
    let missing = simulate_swap(&pool, &asset("uatom", 100), &"uom".to_string());
    assert!(matches!(missing, Err(ContractError::AssetMismatch)));
    let same = simulate_swap(&pool, &asset("uusd", 100), &"uusd".to_string());
    assert!(matches!(same, Err(ContractError::SameAsset)));
}

#[test]
fn extra_fees_are_charged_in_order_and_summed() {
    let fees = PoolFees {
        swap_fee: Fee { share: 0 },
        protocol_fee: Fee { share: 0 },
        burn_fee: Fee { share: 0 },
        extra_fees: vec![
            Fee { share: FEE_SCALE / 100 },
            Fee { share: FEE_SCALE / 200 },
        ],
    };
    let c = compute_swap(
        2,
        1_000_000,
        1_000_000,
        1_000,
        &fees,
        &PoolType::ConstantProduct,
        6,
        6,
    )
    .unwrap();
    // gross = 1_000; extra fees: floor(1%) = 10 and floor(0.5%) = 5
    assert_eq!(c.extra_fees_amount, 15);
    assert_eq!(c.return_amount, 985);
}
