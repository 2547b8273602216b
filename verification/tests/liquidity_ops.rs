//! Liquidity scenarios: initial and subsequent deposits on both curve types,
//! value conservation, the permanently locked minimum, single-sided deposits,
//! withdrawal refunds, and the authorization rules around locked positions.

use pool_manager::error::ContractError;
use pool_manager::liquidity::{
    provide_liquidity, withdraw_liquidity, LpAction, ProvideLiquidityOutcome,
};
use pool_manager::model::{
    Asset, Fee, PoolFees, PoolInfo, PoolType, Position, FEE_SCALE, MINIMUM_LIQUIDITY_AMOUNT,
};

fn asset(denom: &str, amount: u128) -> Asset {
    Asset { denom: denom.to_string(), amount }
}

fn no_fees() -> PoolFees {
    PoolFees {
        swap_fee: Fee { share: 0 },
        protocol_fee: Fee { share: 0 },
        burn_fee: Fee { share: 0 },
        extra_fees: Vec::new(),
    }
}

fn pool(id: &str, a: u128, b: u128, pool_type: PoolType) -> PoolInfo {
    PoolInfo {
        pool_identifier: id.to_string(),
        lp_denom: format!("factory/{}/lp", id),
        assets: vec![asset("uusd", a), asset("uom", b)],
        asset_decimals: vec![6, 6],
        pool_type,
        pool_fees: no_fees(),
    }
}

fn provide_simple(
    p: &PoolInfo,
    funds: Vec<Asset>,
    total_share: u128,
) -> Result<ProvideLiquidityOutcome, ContractError> {
    provide_liquidity(
        p,
        &funds,
        total_share,
        true,
        &"alice".to_string(),
        &None,
        &None,
        &None,
        &None,
        &None,
        &None,
        &Vec::new(),
    )
}

fn sum(assets: &[Asset]) -> u128 {
    let mut total: u128 = 0;
    for a in assets {
        total += a.amount;
    }
    total
}

#[test]
fn initial_constant_product_deposit_mints_sqrt_minus_minimum() {
    // floor(sqrt(10^6 * 10^6)) = 10^6; the minimum stays locked forever
    let p = pool("p1", 0, 0, PoolType::ConstantProduct);
    let outcome = provide_simple(&p, vec![asset("uusd", 1_000_000), asset("uom", 1_000_000)], 0)
        .unwrap();
    match outcome {
        ProvideLiquidityOutcome::Symmetric { updated_pool, share, actions } => {
            assert_eq!(share, 1_000_000 - MINIMUM_LIQUIDITY_AMOUNT);
            assert_eq!(share, 999_000);
            assert!(matches!(
                actions[0],
                LpAction::MintToContract { amount: MINIMUM_LIQUIDITY_AMOUNT }
            ));
            // the share itself goes to the receiver (the sender by default)
            assert_eq!(actions.len(), 2);
            assert!(matches!(
                &actions[1],
                LpAction::MintToReceiver { receiver, amount: 999_000 } if receiver == "alice"
            ));
            assert_eq!(updated_pool.assets[0].amount, 1_000_000);
            assert_eq!(updated_pool.assets[1].amount, 1_000_000);
        },
        _ => panic!("expected a symmetric deposit"),
    }
}

#[test]
fn tiny_initial_deposit_is_below_the_minimum() {
    // floor(sqrt(1 * 1)) = 1 cannot cover the locked minimum
    let p = pool("p1", 0, 0, PoolType::ConstantProduct);
    let r = provide_simple(&p, vec![asset("uusd", 1), asset("uom", 1)], 0);
    assert!(matches!(
        r,
        Err(ContractError::InvalidInitialLiquidityAmount(MINIMUM_LIQUIDITY_AMOUNT))
    ));
}

#[test]
fn genesis_deposit_of_realistic_size_succeeds() {
    // two 18-decimals deposits of 10^19 base units each: the share product
    // runs through the 256-bit intermediate, floor(sqrt(10^38)) = 10^19
    let p = pool("p1", 0, 0, PoolType::ConstantProduct);
    let big: u128 = 10_000_000_000_000_000_000;
    let outcome = provide_simple(&p, vec![asset("uusd", big), asset("uom", big)], 0).unwrap();
    match outcome {
        ProvideLiquidityOutcome::Symmetric { share, .. } => {
            assert_eq!(share, big - MINIMUM_LIQUIDITY_AMOUNT);
        },
        _ => panic!("expected a symmetric deposit"),
    }
}

#[test]
fn withdrawing_from_a_huge_pool_succeeds() {
    // balance * burned far exceeds 128 bits; the refund math is exact anyway
    let p = pool("p1", u128::MAX / 2, u128::MAX / 3, PoolType::ConstantProduct);
    let total: u128 = u128::MAX / 2;
    let burned: u128 = total / 4;
    let (updated, refunds) = withdraw_liquidity(&p, burned, total, true).unwrap();
    assert_eq!(refunds[0].amount, (u128::MAX / 2) / 4);
    assert_eq!(updated.assets[0].amount, u128::MAX / 2 - (u128::MAX / 2) / 4);
}

#[test]
fn subsequent_deposit_conserves_value_and_prices_by_ratio() {
    let p = pool("p1", 1_000_000, 2_000_000, PoolType::ConstantProduct);
    let before = sum(&p.assets);
    let funds = vec![asset("uusd", 100_000), asset("uom", 200_000)];
    let deposited = sum(&funds);
    let outcome = provide_simple(&p, funds, 1_000_000).unwrap();
    match outcome {
        ProvideLiquidityOutcome::Symmetric { updated_pool, share, .. } => {
            // min(100_000 * 10^6 / 10^6, 200_000 * 10^6 / (2 * 10^6)) = 100_000
            assert_eq!(share, 100_000);
            assert_eq!(sum(&updated_pool.assets), before + deposited);
        },
        _ => panic!("expected a symmetric deposit"),
    }
}

#[test]
fn deposits_must_match_the_pool() {
    let p = pool("p1", 1_000_000, 1_000_000, PoolType::ConstantProduct);
    let r = provide_simple(&p, vec![asset("uusd", 10), asset("uatom", 10)], 1_000_000);
    assert!(matches!(r, Err(ContractError::AssetMismatch)));
    let empty = provide_simple(&p, Vec::new(), 1_000_000);
    assert!(matches!(empty, Err(ContractError::EmptyAssets)));
}

#[test]
fn deposits_can_be_switched_off() {
    let p = pool("p1", 1_000_000, 1_000_000, PoolType::ConstantProduct);
    let r = provide_liquidity(
        &p,
        &vec![asset("uusd", 10), asset("uom", 10)],
        1_000_000,
        false,
        &"alice".to_string(),
        &None,
        &None,
        &None,
        &None,
        &None,
        &None,
        &Vec::new(),
    );
    assert!(matches!(r, Err(ContractError::OperationDisabled(_))));
}

#[test]
fn initial_stableswap_deposit_mints_the_invariant_minus_minimum() {
    let p = pool("p1", 0, 0, PoolType::StableSwap { amp: 85 });
    let outcome = provide_simple(&p, vec![asset("uusd", 1_000_000), asset("uom", 1_000_000)], 0)
        .unwrap();
    match outcome {
        ProvideLiquidityOutcome::Symmetric { share, .. } => {
            // D of a balanced (10^6, 10^6) pool is 2 * 10^6
            assert_eq!(share, 2_000_000 - MINIMUM_LIQUIDITY_AMOUNT);
        },
        _ => panic!("expected a symmetric deposit"),
    }
}

#[test]
fn stableswap_deposit_mints_by_invariant_growth() {
    let p = pool("p1", 1_000_000, 1_000_000, PoolType::StableSwap { amp: 85 });
    let outcome = provide_simple(
        &p,
        vec![asset("uusd", 100_000), asset("uom", 100_000)],
        2_000_000,
    )
    .unwrap();
    match outcome {
        ProvideLiquidityOutcome::Symmetric { share, updated_pool, .. } => {
            // D grows from 2_000_000 to 2_200_000: a 10% share of the supply
            assert_eq!(share, 200_000);
            assert_eq!(sum(&updated_pool.assets), 2_200_000);
        },
        _ => panic!("expected a symmetric deposit"),
    }
}

#[test]
fn single_sided_deposit_needs_a_two_asset_pool() {
    // a third asset makes the pool ineligible, before anything is decided
    let three = PoolInfo {
        pool_identifier: "p3".to_string(),
        lp_denom: "factory/p3/lp".to_string(),
        assets: vec![asset("uusd", 1_000), asset("uom", 1_000), asset("uatom", 1_000)],
        asset_decimals: vec![6, 6, 6],
        pool_type: PoolType::ConstantProduct,
        pool_fees: no_fees(),
    };
    let r = provide_simple(&three, vec![asset("uusd", 500)], 1_000_000);
    assert!(matches!(
        r,
        Err(ContractError::InvalidPoolAssetsForSingleSideLiquidityProvision)
    ));
}

#[test]
fn single_sided_deposit_needs_nonzero_balances() {
    let p = pool("p1", 0, 0, PoolType::ConstantProduct);
    let r = provide_simple(&p, vec![asset("uusd", 500)], 0);
    assert!(matches!(
        r,
        Err(ContractError::EmptyPoolForSingleSideLiquidityProvision)
    ));
}

#[test]
fn single_sided_deposit_defers_half_as_a_swap() {
    let p = pool("p1", 1_000_000, 1_000_000, PoolType::ConstantProduct);
    let balances = vec![asset("uusd", 10_000), asset("uom", 50)];
    let outcome = provide_liquidity(
        &p,
        &vec![asset("uusd", 10_000)],
        1_000_000,
        true,
        &"alice".to_string(),
        &Some("bob".to_string()),
        &None,
        &None,
        &None,
        &None,
        &None,
        &balances,
    )
    .unwrap();
    match outcome {
        ProvideLiquidityOutcome::SingleSided { buffer, swap } => {
            assert_eq!(buffer.receiver, "bob");
            assert_eq!(buffer.offer_asset_half.denom, "uusd");
            assert_eq!(buffer.offer_asset_half.amount, 5_000);
            assert_eq!(swap.offer_asset.amount, 5_000);
            assert_eq!(swap.ask_asset_denom, "uom");
            assert_eq!(swap.pool_identifier, "p1");
            // expected balances reflect the oracle snapshot; no fees leave
            // the contract in a fee-less pool
            assert_eq!(buffer.expected_offer_asset_balance_in_contract.amount, 10_000);
            assert_eq!(buffer.expected_ask_asset_balance_in_contract.amount, 50);
            // the recorded expected ask amount is the simulated return
            assert!(buffer.expected_ask_asset.amount > 0);
            // the buffer records the phase-2 parameters unchanged
            assert_eq!(buffer.liquidity_provision_data.pool_identifier, "p1");
            assert!(buffer.liquidity_provision_data.max_spread.is_none());
            assert!(buffer.liquidity_provision_data.unlocking_duration.is_none());
            assert!(buffer.liquidity_provision_data.lock_position_identifier.is_none());
        },
        _ => panic!("expected a single-sided deposit"),
    }
}

#[test]
fn locking_requires_the_receiver_to_be_the_sender() {
    let p = pool("p1", 1_000_000, 1_000_000, PoolType::ConstantProduct);
    let r = provide_liquidity(
        &p,
        &vec![asset("uusd", 1_000), asset("uom", 1_000)],
        1_000_000,
        true,
        &"alice".to_string(),
        &Some("mallory".to_string()),
        &None,
        &None,
        &Some(86_400),
        &None,
        &None,
        &Vec::new(),
    );
    assert!(matches!(r, Err(ContractError::Unauthorized)));
}

#[test]
fn locking_expands_a_matching_position() {
    let p = pool("p1", 1_000_000, 1_000_000, PoolType::ConstantProduct);
    let position = Position { identifier: "pos-7".to_string(), receiver: "alice".to_string() };
    let outcome = provide_liquidity(
        &p,
        &vec![asset("uusd", 1_000), asset("uom", 1_000)],
        1_000_000,
        true,
        &"alice".to_string(),
        &None,
        &None,
        &None,
        &Some(86_400),
        &Some("pos-7".to_string()),
        &Some(position),
        &Vec::new(),
    )
    .unwrap();
    match outcome {
        ProvideLiquidityOutcome::Symmetric { actions, share, .. } => {
            assert_eq!(share, 1_000);
            assert!(matches!(actions[0], LpAction::MintToContract { amount: 1_000 }));
            assert!(matches!(
                &actions[1],
                LpAction::ExpandPosition { identifier, lp_amount: 1_000 } if identifier == "pos-7"
            ));
        },
        _ => panic!("expected a symmetric deposit"),
    }
}

#[test]
fn locking_rejects_someone_elses_position() {
    let p = pool("p1", 1_000_000, 1_000_000, PoolType::ConstantProduct);
    let position = Position { identifier: "pos-7".to_string(), receiver: "bob".to_string() };
    let r = provide_liquidity(
        &p,
        &vec![asset("uusd", 1_000), asset("uom", 1_000)],
        1_000_000,
        true,
        &"alice".to_string(),
        &None,
        &None,
        &None,
        &Some(86_400),
        &Some("pos-7".to_string()),
        &Some(position),
        &Vec::new(),
    );
    assert!(matches!(r, Err(ContractError::Unauthorized)));
}

#[test]
fn slippage_tolerance_is_enforced() {
    // pool ratio 1:1, deposit ratio 2:1, tolerance 1% — rejected
    let p = pool("p1", 1_000_000, 1_000_000, PoolType::ConstantProduct);
    let r = provide_liquidity(
        &p,
        &vec![asset("uusd", 20_000), asset("uom", 10_000)],
        1_000_000,
        true,
        &"alice".to_string(),
        &None,
        &Some(Fee { share: FEE_SCALE / 100 }),
        &None,
        &None,
        &None,
        &None,
        &Vec::new(),
    );
    assert!(matches!(r, Err(ContractError::MaxSlippageAssertion)));
}

#[test]
fn withdrawing_part_of_the_supply_refunds_the_floor_share() {
    let p = pool("p1", 1_000_000, 2_000_001, PoolType::ConstantProduct);
    let (updated, refunds) = withdraw_liquidity(&p, 500_000, 1_000_000, true).unwrap();
    // uusd: floor(10^6 / 2) = 500_000; uom: floor(2_000_001 / 2) = 1_000_000
    assert_eq!(refunds.len(), 2);
    assert_eq!(refunds[0].amount, 500_000);
    assert_eq!(refunds[1].amount, 1_000_000);
    assert_eq!(updated.assets[0].amount, 500_000);
    assert_eq!(updated.assets[1].amount, 1_000_001);
    assert_eq!(
        sum(&updated.assets) + sum(&refunds),
        sum(&p.assets)
    );
}

#[test]
fn withdrawing_everything_empties_the_pool() {
    let p = pool("p1", 123_456, 789_012, PoolType::ConstantProduct);
    let (updated, refunds) = withdraw_liquidity(&p, 1_000_000, 1_000_000, true).unwrap();
    assert_eq!(refunds.len(), 2);
    assert_eq!(refunds[0].amount, 123_456);
    assert_eq!(refunds[1].amount, 789_012);
    assert_eq!(updated.assets[0].amount, 0);
    assert_eq!(updated.assets[1].amount, 0);
}

#[test]
fn zero_refunds_are_dropped() {
    // a tiny burn refunds nothing of a tiny balance
    let p = pool("p1", 1, 1_000_000, PoolType::ConstantProduct);
    let (updated, refunds) = withdraw_liquidity(&p, 1_000, 1_000_000, true).unwrap();
    // uusd: floor(1 * 1_000 / 10^6) = 0 is dropped; uom: 1_000 stays
    assert_eq!(refunds.len(), 1);
    assert_eq!(refunds[0].denom, "uom");
    assert_eq!(refunds[0].amount, 1_000);
    assert_eq!(updated.assets[0].amount, 1);
}

#[test]
fn withdraw_rejects_bad_inputs() {
    let p = pool("p1", 1_000_000, 1_000_000, PoolType::ConstantProduct);
    assert!(matches!(
        withdraw_liquidity(&p, 2_000_000, 1_000_000, true),
        Err(ContractError::InvalidLpShareToWithdraw)
    ));
    assert!(matches!(
        withdraw_liquidity(&p, 0, 1_000_000, true),
        Err(ContractError::PaymentError)
    ));
    assert!(matches!(
        withdraw_liquidity(&p, 1, 0, true),
        Err(ContractError::DivideByZeroError)
    ));
    assert!(matches!(
        withdraw_liquidity(&p, 1, 1_000_000, false),
        Err(ContractError::OperationDisabled(_))
    ));
}
