//! Registry and router scenarios: configuration and decimal queries, pool
//! listing with pagination, and multi-hop swap chains forward and backward —
//! including the round trip that reverse-simulating a forward simulation
//! reproduces the original amount within a per-hop rounding bound.

use pool_manager::error::ContractError;
use pool_manager::model::{
    Asset, Config, Fee, PoolFees, PoolInfo, PoolType, SwapOperation, FEE_SCALE,
};
use pool_manager::queries::{
    get_pools, query_asset_decimals, query_config, query_reverse_simulation, query_simulation,
    reverse_simulate_swap_operations, save_pool, simulate_swap_operations, PoolRegistry,
};

fn asset(denom: &str, amount: u128) -> Asset {
    Asset { denom: denom.to_string(), amount }
}

fn fees_1pct() -> PoolFees {
    PoolFees {
        swap_fee: Fee { share: FEE_SCALE / 100 },
        protocol_fee: Fee { share: 0 },
        burn_fee: Fee { share: 0 },
        extra_fees: Vec::new(),
    }
}

fn cp_pool(id: &str, denom_a: &str, a: u128, denom_b: &str, b: u128) -> PoolInfo {
    PoolInfo {
        pool_identifier: id.to_string(),
        lp_denom: format!("factory/{}/lp", id),
        assets: vec![asset(denom_a, a), asset(denom_b, b)],
        asset_decimals: vec![6, 6],
        pool_type: PoolType::ConstantProduct,
        pool_fees: fees_1pct(),
    }
}

fn registry() -> PoolRegistry {
    PoolRegistry {
        config: Config { deposits_enabled: true, withdrawals_enabled: true },
        pools: vec![
            cp_pool("p1", "uusd", 1_000_000, "uom", 1_000_000),
            cp_pool("p2", "uom", 2_000_000, "uatom", 2_000_000),
            cp_pool("p3", "uatom", 3_000_000, "uusd", 3_000_000),
        ],
    }
}

fn hop(pool: &str, token_in: &str, token_out: &str) -> SwapOperation {
    SwapOperation::MantraSwap {
        token_in_denom: token_in.to_string(),
        token_out_denom: token_out.to_string(),
        pool_identifier: pool.to_string(),
    }
}

#[test]
fn config_is_returned_as_stored() {
    let reg = registry();
    let c = query_config(&reg).unwrap();
    assert!(c.deposits_enabled);
    assert!(c.withdrawals_enabled);
}

#[test]
fn asset_decimals_come_from_the_pool_record() {
    let reg = registry();
    let resp = query_asset_decimals(&reg, "p1".to_string(), "uom".to_string()).unwrap();
    assert_eq!(resp.pool_identifier, "p1");
    assert_eq!(resp.denom, "uom");
    assert_eq!(resp.decimals, 6);
    assert!(matches!(
        query_asset_decimals(&reg, "p1".to_string(), "uatom".to_string()),
        Err(ContractError::AssetMismatch)
    ));
    assert!(matches!(
        query_asset_decimals(&reg, "nope".to_string(), "uom".to_string()),
        Err(ContractError::UnExistingPool)
    ));
}

#[test]
fn simulation_against_the_registry() {
    let reg = registry();
    let s = query_simulation(&reg, asset("uusd", 1_000), "uom".to_string(), "p1".to_string())
        .unwrap();
    assert_eq!(s.return_amount, 990);
    assert_eq!(s.swap_fee_amount, 10);
    assert!(matches!(
        query_simulation(&reg, asset("uusd", 1_000), "uom".to_string(), "nope".to_string()),
        Err(ContractError::UnExistingPool)
    ));
}

#[test]
fn listing_one_pool_by_identifier() {
    let reg = registry();
    let supplies = vec![asset("factory/p2/lp", 77)];
    let resp = get_pools(&reg, &supplies, Some("p2".to_string()), None, None).unwrap();
    assert_eq!(resp.pools.len(), 1);
    assert_eq!(resp.pools[0].pool_info.pool_identifier, "p2");
    assert_eq!(resp.pools[0].total_share, 77);
}

#[test]
fn listing_pages_through_the_registry() {
    let reg = registry();
    let supplies: Vec<Asset> = Vec::new();
    let all = get_pools(&reg, &supplies, None, None, None).unwrap();
    assert_eq!(all.pools.len(), 3);
    assert_eq!(all.pools[0].total_share, 0);
    let limited = get_pools(&reg, &supplies, None, None, Some(2)).unwrap();
    assert_eq!(limited.pools.len(), 2);
    assert_eq!(limited.pools[0].pool_info.pool_identifier, "p1");
    let after = get_pools(&reg, &supplies, None, Some("p1".to_string()), None).unwrap();
    assert_eq!(after.pools.len(), 2);
    assert_eq!(after.pools[0].pool_info.pool_identifier, "p2");
    // the bound is exclusive whether or not it names a stored pool: "p15"
    // sorts between "p1" and "p2", so the page starts at "p2"
    let between = get_pools(&reg, &supplies, None, Some("p15".to_string()), None).unwrap();
    assert_eq!(between.pools.len(), 2);
    assert_eq!(between.pools[0].pool_info.pool_identifier, "p2");
    // a bound past the last identifier yields an empty page
    let past = get_pools(&reg, &supplies, None, Some("p9".to_string()), None).unwrap();
    assert_eq!(past.pools.len(), 0);
}

#[test]
fn saving_keeps_identifiers_ascending() {
    let mut reg = registry();
    // "p0" sorts before everything and lands at the front
    save_pool(&mut reg, cp_pool("p0", "uusd", 1, "uom", 1));
    assert_eq!(reg.pools.len(), 4);
    assert_eq!(reg.pools[0].pool_identifier, "p0");
    assert_eq!(reg.pools[1].pool_identifier, "p1");
    // "p21" sorts between "p2" and "p3"
    save_pool(&mut reg, cp_pool("p21", "uusd", 1, "uom", 1));
    assert_eq!(reg.pools.len(), 5);
    assert_eq!(reg.pools[3].pool_identifier, "p21");
    assert_eq!(reg.pools[4].pool_identifier, "p3");
}

#[test]
fn saving_a_pool_replaces_or_registers_it() {
    let mut reg = registry();
    // replacing keeps the position and the other pools
    let mut p2 = cp_pool("p2", "uom", 5_000_000, "uatom", 5_000_000);
    save_pool(&mut reg, p2);
    assert_eq!(reg.pools.len(), 3);
    assert_eq!(reg.pools[1].pool_identifier, "p2");
    assert_eq!(reg.pools[1].assets[0].amount, 5_000_000);
    // an unknown identifier is appended
    p2 = cp_pool("p9", "uom", 1, "uatom", 1);
    save_pool(&mut reg, p2);
    assert_eq!(reg.pools.len(), 4);
    assert_eq!(reg.pools[3].pool_identifier, "p9");
}

#[test]
fn forward_chain_threads_amounts_and_aggregates_fees() {
    let reg = registry();
    let ops = vec![hop("p1", "uusd", "uom"), hop("p2", "uom", "uatom")];
    let resp = simulate_swap_operations(&reg, 1_000, &ops).unwrap();
    // hop 1: 1_000 uusd -> 990 uom; hop 2: 990 uom -> gross 990, fee 9
    assert_eq!(resp.return_amount, 981);
    assert_eq!(resp.swap_fees.len(), 2);
    assert_eq!(resp.swap_fees[0].denom, "uom");
    assert_eq!(resp.swap_fees[0].amount, 10);
    assert_eq!(resp.swap_fees[1].denom, "uatom");
    assert_eq!(resp.swap_fees[1].amount, 9);
}

#[test]
fn empty_chains_are_rejected() {
    let reg = registry();
    assert!(matches!(
        simulate_swap_operations(&reg, 1_000, &Vec::new()),
        Err(ContractError::NoSwapOperationsProvided)
    ));
    assert!(matches!(
        reverse_simulate_swap_operations(&reg, 1_000, &Vec::new()),
        Err(ContractError::NoSwapOperationsProvided)
    ));
}

#[test]
fn reverse_simulation_inverts_a_single_hop() {
    let reg = registry();
    let forward = query_simulation(&reg, asset("uusd", 1_000), "uom".to_string(), "p1".to_string())
        .unwrap();
    let back = query_reverse_simulation(
        &reg,
        asset("uom", forward.return_amount),
        "uusd".to_string(),
        "p1".to_string(),
    )
    .unwrap();
    // the ceilings of the reverse direction may ask for a few units more,
    // never less than the pool needs
    assert!(back.offer_amount >= 1_000);
    assert!(back.offer_amount - 1_000 <= 3);
}

#[test]
fn reverse_chain_inverts_the_forward_chain_within_hop_rounding() {
    let reg = registry();
    let ops = vec![hop("p1", "uusd", "uom"), hop("p2", "uom", "uatom")];
    let forward = simulate_swap_operations(&reg, 1_000, &ops).unwrap();
    let back = reverse_simulate_swap_operations(&reg, forward.return_amount, &ops).unwrap();
    // each hop rounds at most a few units in the pool's favor
    assert!(back.offer_amount >= 1_000);
    assert!(back.offer_amount - 1_000 <= 3 * 2);
}

#[test]
fn reverse_chain_walks_back_to_front() {
    let reg = registry();
    let ops = vec![hop("p1", "uusd", "uom"), hop("p2", "uom", "uatom")];
    let back = reverse_simulate_swap_operations(&reg, 980, &ops).unwrap();
    // asking for the forward chain's output demands roughly the original input
    assert!(back.offer_amount >= 1_000);
    assert!(back.offer_amount <= 1_010);
    assert_eq!(back.swap_fees.len(), 2);
}

#[test]
fn stableswap_reverse_simulation_round_trips() {
    let mut reg = registry();
    reg.pools.push(PoolInfo {
        pool_identifier: "ps".to_string(),
        lp_denom: "factory/ps/lp".to_string(),
        assets: vec![asset("uusd", 1_000_000), asset("uusdc", 1_000_000)],
        asset_decimals: vec![6, 6],
        pool_type: PoolType::StableSwap { amp: 85 },
        pool_fees: fees_1pct(),
    });
    let forward = query_simulation(&reg, asset("uusd", 10_000), "uusdc".to_string(),
        "ps".to_string()).unwrap();
    assert!(forward.return_amount > 0);
    let back = query_reverse_simulation(
        &reg,
        asset("uusdc", forward.return_amount),
        "uusd".to_string(),
        "ps".to_string(),
    )
    .unwrap();
    assert!(back.offer_amount >= 9_990);
    assert!(back.offer_amount <= 10_010);
}
