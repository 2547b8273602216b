//! The liquidity controller: providing liquidity (symmetric and the first,
//! synchronous phase of single-sided deposits) and withdrawing it.
//!
//! Both operations are pure functions from a pool snapshot and point-in-time
//! oracle reads to an outcome; the caller persists the updated pool and
//! performs the returned actions.  Value conservation — pool balances grow by
//! exactly the deposits and shrink by exactly the refunds, and never go
//! negative — is part of each contract.

use vstd::prelude::*;
use vstd::pervasive::VecAdditionalExecFns;
use vstd::arithmetic::div_mod::{lemma_div_is_ordered, lemma_div_multiples_vanish};
use vstd::arithmetic::mul::lemma_mul_inequality;

use crate::error::ContractError;
use crate::math::{
    isqrt_prod, lemma_denom_amount_absent, lemma_denom_amount_prefix_le, lemma_denom_amount_push,
    lemma_denom_amount_take_next, lemma_denom_amount_unique_at, lemma_denom_amount_update,
    lemma_denom_amount_take_all, lemma_sum_amounts_take_all, lemma_sum_amounts_take_next,
    lemma_sum_amounts_update,
    mul_div_floor, spec_denom_amount, spec_isqrt, spec_mul_div_floor, spec_sum_amounts,
};
use crate::model::{
    spec_denoms_unique, Asset, Fee, PoolInfo, PoolType, Position, FEE_SCALE,
    MINIMUM_LIQUIDITY_AMOUNT,
};
use crate::stable::{
    asset_amounts, compute_d, compute_lp_mint_amount_for_stableswap_deposit, spec_d_result,
};
use crate::swap::{
    aggregate_outgoing_fees, assert_slippage_tolerance, find_asset_amount, find_asset_index,
    simulate_swap, spec_amount_of,
};

verus! {

/// An instruction the caller must carry out after a successful symmetric
/// deposit: minting LP shares, or managing a locked position with the
/// external position-lock service.
pub enum LpAction {
    /// Mint LP shares to the contract itself (the permanently locked minimum,
    /// or shares about to be locked into a position).
    MintToContract { amount: u128 },
    /// Mint LP shares to the receiver of the deposit.
    MintToReceiver { receiver: String, amount: u128 },
    /// Create a locked position holding the minted shares.
    CreatePosition {
        identifier: Option<String>,
        unlocking_duration: u64,
        receiver: String,
        lp_amount: u128,
    },
    /// Expand an existing locked position by the minted shares.
    ExpandPosition { identifier: String, lp_amount: u128 },
}

/// Everything phase 2 of a single-sided deposit needs, recorded by phase 1.
pub struct LiquidityProvisionData {
    pub max_spread: Option<Fee>,
    pub slippage_tolerance: Option<Fee>,
    pub pool_identifier: String,
    pub unlocking_duration: Option<u64>,
    pub lock_position_identifier: Option<String>,
}

/// The transient record a single-sided deposit leaves behind between its
/// deferred half-swap and the confirmation that consumes it: expected
/// post-swap contract balances and the deferred provision parameters.  It
/// fully determines phase 2's behavior.
pub struct SingleSideLiquidityProvisionBuffer {
    pub receiver: String,
    pub expected_offer_asset_balance_in_contract: Asset,
    pub expected_ask_asset_balance_in_contract: Asset,
    pub offer_asset_half: Asset,
    pub expected_ask_asset: Asset,
    pub liquidity_provision_data: LiquidityProvisionData,
}

/// The deferred half-swap phase 1 of a single-sided deposit emits.
pub struct SwapInstruction {
    pub offer_asset: Asset,
    pub ask_asset_denom: String,
    pub max_spread: Option<Fee>,
    pub pool_identifier: String,
}

/// What providing liquidity decides: either the first phase of a single-sided
/// deposit (a buffer plus a deferred swap, with no state touched yet), or a
/// completed symmetric deposit (the updated pool, the shares minted, and the
/// actions to carry out).
pub enum ProvideLiquidityOutcome {
    SingleSided { buffer: SingleSideLiquidityProvisionBuffer, swap: SwapInstruction },
    Symmetric { updated_pool: PoolInfo, share: u128, actions: Vec<LpAction> },
}

/// Copies a sequence of assets.
pub fn clone_assets(assets: &Vec<Asset>) -> (r: Vec<Asset>)
    ensures
        r@ == assets@,
{
    let mut r: Vec<Asset> = Vec::new();
    let mut i: usize = 0;
    while i < assets.len()
        invariant
            i <= assets@.len(),
            r@ == assets@.take(i as int),
        decreases assets@.len() - i,
    {
        r.push(assets[i].clone());
        proof {
            assert(r@ =~= assets@.take(i + 1));
        }
        i = i + 1;
    }
    proof {
        assert(r@ =~= assets@);
    }
    r
}

/// Merges assets of the same denomination by adding their amounts, keeping
/// the order of first occurrence.  The result bears each denomination once
/// and carries, per denomination, exactly what the input carried; it succeeds
/// exactly when no denomination's total exceeds 128 bits.
pub fn aggregate_coins(assets: &Vec<Asset>) -> (r: Result<Vec<Asset>, ContractError>)
    ensures
        r matches Ok(agg) ==> ({
            &&& spec_denoms_unique(agg@)
            &&& spec_sum_amounts(agg@) == spec_sum_amounts(assets@)
            &&& (agg@.len() == 0 <==> assets@.len() == 0)
            &&& forall|d: Seq<char>|
                #[trigger] spec_denom_amount(agg@, d) == spec_denom_amount(assets@, d)
            &&& forall|i: int|
                0 <= i < assets@.len() ==> crate::swap::spec_has_denom(
                    agg@,
                    (#[trigger] assets@[i]).denom@,
                )
            &&& ((forall|i: int| 0 <= i < assets@.len() ==> (#[trigger] assets@[i]).amount > 0)
                ==> (forall|j: int| 0 <= j < agg@.len() ==> (#[trigger] agg@[j]).amount > 0))
        }),
        r is Ok <==> (forall|d: Seq<char>| #[trigger] spec_denom_amount(assets@, d)
            <= u128::MAX as int),
        spec_denoms_unique(assets@) ==> (r matches Ok(agg) && agg@ == assets@),
        !(r is Ok) ==> r == Err::<Vec<Asset>, ContractError>(ContractError::OverflowError),
{
    let mut agg: Vec<Asset> = Vec::new();
    let mut i: usize = 0;
    while i < assets.len()
        invariant
            i <= assets@.len(),
            spec_denoms_unique(agg@),
            spec_sum_amounts(agg@) == spec_sum_amounts(assets@.take(i as int)),
            agg@.len() == 0 <==> i == 0,
            spec_denoms_unique(assets@) ==> agg@ == assets@.take(i as int),
            forall|d: Seq<char>|
                #[trigger] spec_denom_amount(agg@, d) == spec_denom_amount(
                    assets@.take(i as int),
                    d,
                ),
            forall|j: int|
                0 <= j < i ==> crate::swap::spec_has_denom(agg@, (#[trigger] assets@[j]).denom@),
            (forall|j: int| 0 <= j < assets@.len() ==> (#[trigger] assets@[j]).amount > 0) ==> (
            forall|j: int| 0 <= j < agg@.len() ==> (#[trigger] agg@[j]).amount > 0),
        decreases assets@.len() - i,
    {
        let ghost pre = agg@;
        match find_asset_index(&agg, &assets[i].denom) {
            Some(j) => {
                let new_amount = match agg[j].amount.checked_add(assets[i].amount) {
                    Some(v) => v,
                    None => {
                        proof {
                            // the overflowing entry is this denomination's
                            // whole prefix total, so the input total overflows
                            let d = assets@[i as int].denom@;
                            lemma_denom_amount_unique_at(pre, d, j as int);
                            lemma_denom_amount_take_next(assets@, d, i as int);
                            lemma_denom_amount_prefix_le(assets@, d, i + 1);
                            if spec_denoms_unique(assets@) {
                                assert(false);
                            }
                        }
                        return Err(ContractError::OverflowError);
                    },
                };
                let merged = Asset { denom: agg[j].denom.clone(), amount: new_amount };
                proof {
                    lemma_sum_amounts_update(pre, j as int, merged);
                    lemma_sum_amounts_take_next(assets@, i as int);
                    if spec_denoms_unique(assets@) {
                        // a duplicate in the aggregate would mean a duplicate
                        // in the (unique) input prefix
                        assert(false);
                    }
                }
                agg.set(j, merged);
                proof {
                    assert(spec_sum_amounts(agg@) == spec_sum_amounts(pre)
                        + assets@[i as int].amount);
                    assert forall|d: Seq<char>|
                        #[trigger] spec_denom_amount(agg@, d) == spec_denom_amount(
                            assets@.take(i + 1),
                            d,
                        ) by {
                        lemma_denom_amount_update(pre, d, j as int, merged);
                        lemma_denom_amount_take_next(assets@, d, i as int);
                    }
                    assert forall|jj: int|
                        0 <= jj < i + 1 implies crate::swap::spec_has_denom(
                        agg@,
                        (#[trigger] assets@[jj]).denom@,
                    ) by {
                        if jj < i {
                            let w = choose|w: int|
                                0 <= w < pre.len() && pre[w].denom@ == assets@[jj].denom@;
                            assert(agg@[w].denom@ == assets@[jj].denom@);
                        } else {
                            assert(agg@[j as int].denom@ == assets@[i as int].denom@);
                        }
                    }
                }
            },
            None => {
                agg.push(assets[i].clone());
                proof {
                    lemma_sum_amounts_take_next(assets@, i as int);
                    assert(agg@.drop_last() =~= pre);
                    assert(spec_sum_amounts(agg@) == spec_sum_amounts(pre)
                        + assets@[i as int].amount);
                    if spec_denoms_unique(assets@) {
                        assert(agg@ =~= assets@.take(i + 1));
                    }
                    assert forall|d: Seq<char>|
                        #[trigger] spec_denom_amount(agg@, d) == spec_denom_amount(
                            assets@.take(i + 1),
                            d,
                        ) by {
                        lemma_denom_amount_push(pre, d, agg@.last());
                        lemma_denom_amount_take_next(assets@, d, i as int);
                    }
                    assert forall|jj: int|
                        0 <= jj < i + 1 implies crate::swap::spec_has_denom(
                        agg@,
                        (#[trigger] assets@[jj]).denom@,
                    ) by {
                        if jj < i {
                            let w = choose|w: int|
                                0 <= w < pre.len() && pre[w].denom@ == assets@[jj].denom@;
                            assert(agg@[w].denom@ == assets@[jj].denom@);
                        } else {
                            assert(agg@[agg@.len() - 1].denom@ == assets@[i as int].denom@);
                        }
                    }
                }
            },
        }
        i = i + 1;
    }
    proof {
        assert(assets@.take(assets@.len() as int) =~= assets@);
        // no denomination's input total exceeds 128 bits: each is either
        // absent or held whole by its unique aggregate entry
        assert forall|d: Seq<char>| #[trigger] spec_denom_amount(assets@, d)
            <= u128::MAX as int by {
            if exists|w: int| 0 <= w < agg@.len() && agg@[w].denom@ == d {
                let w = choose|w: int| 0 <= w < agg@.len() && agg@[w].denom@ == d;
                lemma_denom_amount_unique_at(agg@, d, w);
            } else {
                lemma_denom_amount_absent(agg@, d);
            }
        }
    }
    Ok(agg)
}

/// The refunds a withdrawal pays out: for every pool asset the floor share
/// `pool_amount * burned / total`, kept in pool order with zero refunds
/// dropped.
pub open spec fn spec_refunds(assets: Seq<Asset>, burned: u128, total: u128) -> Seq<Asset>
    decreases assets.len(),
{
    if assets.len() == 0 {
        Seq::empty()
    } else {
        let prefix = spec_refunds(assets.drop_last(), burned, total);
        let amt = spec_mul_div_floor(assets.last().amount as int, burned as int, total as int);
        if amt > 0 {
            prefix.push(Asset { denom: assets.last().denom, amount: amt as u128 })
        } else {
            prefix
        }
    }
}

/// Sum of the refunds equals the sum of the per-asset floor shares, dropped
/// zeros included.
pub proof fn lemma_refunds_sum(assets: Seq<Asset>, burned: u128, total: u128)
    requires
        0 < burned <= total,
    ensures
        spec_sum_amounts(spec_refunds(assets, burned, total)) == spec_sum_amounts(assets)
            - spec_sum_amounts(spec_assets_after_withdraw(assets, burned, total)),
    decreases assets.len(),
{
    if assets.len() > 0 {
        lemma_refunds_sum(assets.drop_last(), burned, total);
        assert(spec_assets_after_withdraw(assets, burned, total).drop_last()
            =~= spec_assets_after_withdraw(assets.drop_last(), burned, total));
        let amt = spec_mul_div_floor(assets.last().amount as int, burned as int, total as int);
        lemma_withdraw_amount_le(assets.last().amount, burned, total);
        if amt > 0 {
            assert(spec_refunds(assets, burned, total).drop_last() =~= spec_refunds(
                assets.drop_last(),
                burned,
                total,
            ));
        }
    }
}

/// The pool assets after a withdrawal: every amount reduced by its floor
/// share, denominations and order unchanged.
pub open spec fn spec_assets_after_withdraw(assets: Seq<Asset>, burned: u128, total: u128) -> Seq<
    Asset,
> {
    assets.map_values(
        |a: Asset|
            Asset {
                denom: a.denom,
                amount: (a.amount - spec_mul_div_floor(
                    a.amount as int,
                    burned as int,
                    total as int,
                )) as u128,
            },
    )
}

/// A floor share of a balance never exceeds the balance.
pub proof fn lemma_withdraw_amount_le(amount: u128, burned: u128, total: u128)
    requires
        total > 0,
        burned <= total,
    ensures
        0 <= spec_mul_div_floor(amount as int, burned as int, total as int) <= amount,
        burned == total ==> spec_mul_div_floor(amount as int, burned as int, total as int)
            == amount,
{
    lemma_mul_inequality(burned as int, total as int, amount as int);
    assert(burned as int * amount as int == amount as int * burned as int) by (nonlinear_arith);
    assert(total as int * amount as int == amount as int * total as int) by (nonlinear_arith);
    lemma_div_is_ordered(
        amount as int * burned as int,
        amount as int * total as int,
        total as int,
    );
    assert(amount as int * total as int == total as int * amount as int) by (nonlinear_arith);
    lemma_div_multiples_vanish(amount as int, total as int);
    assert(amount as int * burned as int >= 0) by (nonlinear_arith)
        requires
            amount >= 0,
            burned >= 0,
    ;
    vstd::arithmetic::div_mod::lemma_div_pos_is_pos(
        amount as int * burned as int,
        total as int,
    );
}

/// Withdraws liquidity: burning `burned_amount` of `total_share` LP shares
/// refunds `floor(balance * burned / total)` of every pool asset, zero-valued
/// refunds are dropped from the output, and the pool's balances shrink by
/// exactly the refunded amounts — never below zero.  Burning the whole supply
/// empties the pool.
pub fn withdraw_liquidity(
    pool: &PoolInfo,
    burned_amount: u128,
    total_share: u128,
    withdrawals_enabled: bool,
) -> (r: Result<(PoolInfo, Vec<Asset>), ContractError>)
    requires
        pool.well_formed(),
    ensures
        !withdrawals_enabled ==> (r matches Err(e) && e matches ContractError::OperationDisabled(
            _,
        )),
        withdrawals_enabled && burned_amount == 0 ==> r == Err::<
            (PoolInfo, Vec<Asset>),
            ContractError,
        >(ContractError::PaymentError),
        withdrawals_enabled && burned_amount > 0 && total_share == 0 ==> r == Err::<
            (PoolInfo, Vec<Asset>),
            ContractError,
        >(ContractError::DivideByZeroError),
        withdrawals_enabled && burned_amount > total_share > 0 ==> r == Err::<
            (PoolInfo, Vec<Asset>),
            ContractError,
        >(ContractError::InvalidLpShareToWithdraw),
        r is Ok <==> (withdrawals_enabled && 0 < burned_amount <= total_share),
        r matches Ok(t) ==> ({
            let up = t.0;
            let refunds = t.1;
            &&& up.assets@ == spec_assets_after_withdraw(pool.assets@, burned_amount, total_share)
            &&& refunds@ == spec_refunds(pool.assets@, burned_amount, total_share)
            &&& spec_sum_amounts(up.assets@) == spec_sum_amounts(pool.assets@)
                - spec_sum_amounts(refunds@)
            &&& (burned_amount == total_share ==> forall|i: int|
                0 <= i < up.assets@.len() ==> up.assets@[i].amount == 0)
            &&& (burned_amount == total_share ==> spec_sum_amounts(refunds@) == spec_sum_amounts(
                pool.assets@,
            ))
            &&& up.pool_identifier@ == pool.pool_identifier@
            &&& up.lp_denom@ == pool.lp_denom@
            &&& up.asset_decimals@ == pool.asset_decimals@
            &&& up.pool_type == pool.pool_type
            &&& up.pool_fees.same_as(&pool.pool_fees)
            &&& up.well_formed()
        }),
{
    if !withdrawals_enabled {
        return Err(ContractError::OperationDisabled("withdraw_liquidity".to_string()));
    }
    if burned_amount == 0 {
        return Err(ContractError::PaymentError);
    }
    if total_share == 0 {
        return Err(ContractError::DivideByZeroError);
    }
    if burned_amount > total_share {
        return Err(ContractError::InvalidLpShareToWithdraw);
    }

    let mut updated_assets: Vec<Asset> = Vec::new();
    let mut refunds: Vec<Asset> = Vec::new();
    let mut i: usize = 0;
    while i < pool.assets.len()
        invariant
            i <= pool.assets@.len(),
            withdrawals_enabled,
            0 < burned_amount <= total_share,
            updated_assets@ =~= spec_assets_after_withdraw(
                pool.assets@.take(i as int),
                burned_amount,
                total_share,
            ),
            refunds@ == spec_refunds(pool.assets@.take(i as int), burned_amount, total_share),
        decreases pool.assets@.len() - i,
    {
        let amount = match mul_div_floor(pool.assets[i].amount, burned_amount, total_share) {
            Ok(v) => v,
            Err(e) => {
                proof {
                    // the refund is at most the balance, so its quotient fits
                    lemma_withdraw_amount_le(
                        pool.assets@[i as int].amount,
                        burned_amount,
                        total_share,
                    );
                    assert(false);
                }
                return Err(e);
            },
        };
        proof {
            lemma_withdraw_amount_le(pool.assets@[i as int].amount, burned_amount, total_share);
        }
        updated_assets.push(
            Asset { denom: pool.assets[i].denom.clone(), amount: pool.assets[i].amount - amount },
        );
        if amount > 0 {
            refunds.push(Asset { denom: pool.assets[i].denom.clone(), amount });
        }
        proof {
            assert(pool.assets@.take(i + 1).drop_last() =~= pool.assets@.take(i as int));
            assert(pool.assets@.take(i + 1).last() == pool.assets@[i as int]);
            assert(updated_assets@ =~= spec_assets_after_withdraw(
                pool.assets@.take(i + 1),
                burned_amount,
                total_share,
            ));
        }
        i = i + 1;
    }
    proof {
        assert(pool.assets@.take(pool.assets@.len() as int) =~= pool.assets@);
        lemma_refunds_sum(pool.assets@, burned_amount, total_share);
        if burned_amount == total_share {
            assert forall|j: int|
                0 <= j < pool.assets@.len() implies spec_assets_after_withdraw(
                pool.assets@,
                burned_amount,
                total_share,
            )[j].amount == 0 by {
                lemma_withdraw_amount_le(pool.assets@[j].amount, burned_amount, total_share);
            }
            lemma_sum_zero(spec_assets_after_withdraw(pool.assets@, burned_amount, total_share));
        }
    }
    let updated_pool = PoolInfo {
        pool_identifier: pool.pool_identifier.clone(),
        lp_denom: pool.lp_denom.clone(),
        assets: updated_assets,
        asset_decimals: clone_decimals(&pool.asset_decimals),
        pool_type: pool.pool_type.clone(),
        pool_fees: pool.pool_fees.clone(),
    };
    Ok((updated_pool, refunds))
}

/// Share minted by the very first constant-product deposit:
/// `floor(sqrt(d0 * d1))` less the permanently locked minimum.
pub fn compute_initial_cp_share(deposits: &Vec<Asset>) -> (r: Result<u128, ContractError>)
    requires
        deposits@.len() >= 2,
    ensures
        r is Ok <==> spec_isqrt(deposits@[0].amount * deposits@[1].amount)
            > MINIMUM_LIQUIDITY_AMOUNT,
        r matches Ok(s) ==> s == spec_isqrt(deposits@[0].amount * deposits@[1].amount)
            - MINIMUM_LIQUIDITY_AMOUNT,
        !(r is Ok) ==> r == Err::<u128, ContractError>(
            ContractError::InvalidInitialLiquidityAmount(MINIMUM_LIQUIDITY_AMOUNT),
        ),
{
    let root = isqrt_prod(deposits[0].amount, deposits[1].amount);
    if root > MINIMUM_LIQUIDITY_AMOUNT {
        Ok(root - MINIMUM_LIQUIDITY_AMOUNT)
    } else {
        Err(ContractError::InvalidInitialLiquidityAmount(MINIMUM_LIQUIDITY_AMOUNT))
    }
}

/// The LP share one deposit earns against the pool balance bearing its
/// denomination: `floor(deposit * total_share / balance)`.
pub open spec fn spec_cp_deposit_share(d: Asset, pool: Seq<Asset>, ts: u128) -> int {
    spec_mul_div_floor(d.amount as int, ts as int, spec_amount_of(pool, d.denom@)->0)
}

/// The first `i` deposits all find a positive pool balance and their share
/// products fit in 128 bits.
pub open spec fn spec_cp_prefix_ok(deps: Seq<Asset>, pool: Seq<Asset>, ts: u128, i: int) -> bool
    decreases i,
{
    if i <= 0 {
        true
    } else {
        &&& spec_cp_prefix_ok(deps, pool, ts, i - 1)
        &&& spec_amount_of(pool, deps[i - 1].denom@) is Some
        &&& spec_amount_of(pool, deps[i - 1].denom@)->0 > 0
        &&& spec_cp_deposit_share(deps[i - 1], pool, ts) <= u128::MAX as int
    }
}

/// The smallest per-deposit share among the first `i` deposits.
pub open spec fn spec_cp_prefix_min(deps: Seq<Asset>, pool: Seq<Asset>, ts: u128, i: int) -> int
    decreases i,
{
    if i <= 1 {
        spec_cp_deposit_share(deps[0], pool, ts)
    } else {
        let prev = spec_cp_prefix_min(deps, pool, ts, i - 1);
        let cur = spec_cp_deposit_share(deps[i - 1], pool, ts);
        if cur < prev {
            cur
        } else {
            prev
        }
    }
}

/// If a longer prefix of deposits is chargeable, so is every shorter one.
pub proof fn lemma_cp_prefix_ok_mono(deps: Seq<Asset>, pool: Seq<Asset>, ts: u128, i: int, j: int)
    requires
        0 <= i <= j,
        spec_cp_prefix_ok(deps, pool, ts, j),
    ensures
        spec_cp_prefix_ok(deps, pool, ts, i),
    decreases j - i,
{
    if i < j {
        lemma_cp_prefix_ok_mono(deps, pool, ts, i, j - 1);
    }
}

/// Share minted by a deposit on a constant-product pool that already has
/// shares outstanding: the smallest `floor(deposit * total_share / balance)`
/// over the deposited assets.
pub fn compute_cp_share(deposits: &Vec<Asset>, pool_assets: &Vec<Asset>, total_share: u128) -> (r:
    Result<u128, ContractError>)
    requires
        deposits@.len() >= 1,
    ensures
        r is Ok <==> spec_cp_prefix_ok(
            deposits@,
            pool_assets@,
            total_share,
            deposits@.len() as int,
        ),
        r matches Ok(s) ==> s == spec_cp_prefix_min(
            deposits@,
            pool_assets@,
            total_share,
            deposits@.len() as int,
        ),
{
    let mut min_share: u128 = 0;
    let mut i: usize = 0;
    while i < deposits.len()
        invariant
            i <= deposits@.len(),
            deposits@.len() >= 1,
            spec_cp_prefix_ok(deposits@, pool_assets@, total_share, i as int),
            i > 0 ==> min_share == spec_cp_prefix_min(deposits@, pool_assets@, total_share,
                i as int,
            ),
        decreases deposits@.len() - i,
    {
        let pool_amount = match find_asset_amount(pool_assets, &deposits[i].denom) {
            Some(v) => v,
            None => {
                proof {
                    if spec_cp_prefix_ok(
                        deposits@,
                        pool_assets@,
                        total_share,
                        deposits@.len() as int,
                    ) {
                        lemma_cp_prefix_ok_mono(
                            deposits@,
                            pool_assets@,
                            total_share,
                            i + 1,
                            deposits@.len() as int,
                        );
                    }
                }
                return Err(ContractError::AssetMismatch);
            },
        };
        if pool_amount == 0 {
            proof {
                if spec_cp_prefix_ok(deposits@, pool_assets@, total_share, deposits@.len() as int) {
                    lemma_cp_prefix_ok_mono(
                        deposits@,
                        pool_assets@,
                        total_share,
                        i + 1,
                        deposits@.len() as int,
                    );
                }
            }
            return Err(ContractError::DivideByZeroError);
        }
        let share_i = match mul_div_floor(deposits[i].amount, total_share, pool_amount) {
            Ok(v) => v,
            Err(e) => {
                proof {
                    if spec_cp_prefix_ok(
                        deposits@,
                        pool_assets@,
                        total_share,
                        deposits@.len() as int,
                    ) {
                        lemma_cp_prefix_ok_mono(
                            deposits@,
                            pool_assets@,
                            total_share,
                            i + 1,
                            deposits@.len() as int,
                        );
                    }
                }
                return Err(e);
            },
        };
        if i == 0 {
            min_share = share_i;
        } else if share_i < min_share {
            min_share = share_i;
        }
        i = i + 1;
    }
    Ok(min_share)
}

/// Adds every deposit to the pool asset bearing its denomination.  The
/// denominations and their order are unchanged, no balance shrinks, and the
/// total grows by exactly the deposited total.
fn add_deposits(pool_assets: &Vec<Asset>, deposits: &Vec<Asset>) -> (r: Result<
    Vec<Asset>,
    ContractError,
>)
    requires
        spec_denoms_unique(pool_assets@),
    ensures
        r matches Ok(up) ==> ({
            &&& up@.len() == pool_assets@.len()
            &&& forall|k: int|
                0 <= k < up@.len() ==> (#[trigger] up@[k]).denom@ == pool_assets@[k].denom@
                    && up@[k].amount >= pool_assets@[k].amount
            &&& forall|k: int|
                0 <= k < up@.len() ==> (#[trigger] up@[k]).amount == pool_assets@[k].amount
                    + spec_denom_amount(deposits@, pool_assets@[k].denom@)
            &&& spec_sum_amounts(up@) == spec_sum_amounts(pool_assets@) + spec_sum_amounts(
                deposits@,
            )
        }),
        !(r is Ok) ==> (r == Err::<Vec<Asset>, ContractError>(ContractError::AssetMismatch) || r
            == Err::<Vec<Asset>, ContractError>(ContractError::OverflowError)),
        // a full deposit — one summand per pool asset, in pool order, each
        // addition in range — always goes through
        (spec_denoms_unique(pool_assets@) && deposits@.len() == pool_assets@.len() && (forall|
            k: int,
        |
            0 <= k < deposits@.len() ==> (#[trigger] deposits@[k]).denom@
                == pool_assets@[k].denom@ && pool_assets@[k].amount + deposits@[k].amount
                <= u128::MAX)) ==> r is Ok,
{
    let mut out = clone_assets(pool_assets);
    let ghost full = spec_denoms_unique(pool_assets@) && deposits@.len() == pool_assets@.len()
        && (forall|k: int|
        0 <= k < deposits@.len() ==> (#[trigger] deposits@[k]).denom@ == pool_assets@[k].denom@
            && pool_assets@[k].amount + deposits@[k].amount <= u128::MAX);
    let mut i: usize = 0;
    while i < deposits.len()
        invariant
            i <= deposits@.len(),
            out@.len() == pool_assets@.len(),
            forall|k: int|
                0 <= k < out@.len() ==> (#[trigger] out@[k]).denom@ == pool_assets@[k].denom@
                    && out@[k].amount >= pool_assets@[k].amount,
            spec_sum_amounts(out@) == spec_sum_amounts(pool_assets@) + spec_sum_amounts(
                deposits@.take(i as int),
            ),
            spec_denoms_unique(pool_assets@),
            forall|k: int|
                0 <= k < out@.len() ==> (#[trigger] out@[k]).amount == pool_assets@[k].amount
                    + spec_denom_amount(deposits@.take(i as int), pool_assets@[k].denom@),
            full == (spec_denoms_unique(pool_assets@) && deposits@.len() == pool_assets@.len() && (
            forall|k: int|
                0 <= k < deposits@.len() ==> (#[trigger] deposits@[k]).denom@
                    == pool_assets@[k].denom@ && pool_assets@[k].amount + deposits@[k].amount
                    <= u128::MAX)),
            full ==> forall|k: int|
                i <= k < out@.len() ==> (#[trigger] out@[k]).amount == pool_assets@[k].amount,
        decreases deposits@.len() - i,
    {
        proof {
            lemma_sum_amounts_take_next(deposits@, i as int);
        }
        let idx = match find_asset_index(&out, &deposits[i].denom) {
            Some(j) => j,
            None => {
                proof {
                    if full {
                        assert(out@[i as int].denom@ == deposits@[i as int].denom@);
                        assert(crate::swap::spec_has_denom(out@, deposits@[i as int].denom@));
                    }
                }
                return Err(ContractError::AssetMismatch);
            },
        };
        proof {
            if full {
                // unique denominations put this deposit at its own index,
                // which no earlier deposit has touched
                assert(out@[idx as int].denom@ == pool_assets@[idx as int].denom@);
                assert(deposits@[i as int].denom@ == pool_assets@[i as int].denom@);
                if idx as int != i as int {
                    assert(pool_assets@[idx as int].denom@ == pool_assets@[i as int].denom@);
                    assert(false);
                }
            }
        }
        let new_amount = match out[idx].amount.checked_add(deposits[i].amount) {
            Some(v) => v,
            None => {
                proof {
                    if full {
                        assert(out@[idx as int].amount == pool_assets@[idx as int].amount);
                        assert(false);
                    }
                }
                return Err(ContractError::OverflowError);
            },
        };
        let merged = Asset { denom: out[idx].denom.clone(), amount: new_amount };
        let ghost pre = out@;
        proof {
            lemma_sum_amounts_update(pre, idx as int, merged);
        }
        out.set(idx, merged);
        proof {
            // the deposit lands at the one pool index bearing its
            // denomination; every other per-denomination total is unchanged
            assert forall|k: int|
                0 <= k < out@.len() implies (#[trigger] out@[k]).amount == pool_assets@[k].amount
                + spec_denom_amount(deposits@.take(i + 1), pool_assets@[k].denom@) by {
                lemma_denom_amount_take_next(deposits@, pool_assets@[k].denom@, i as int);
                if k != idx as int && deposits@[i as int].denom@ == pool_assets@[k].denom@ {
                    assert(pool_assets@[idx as int].denom@ == pool_assets@[k].denom@);
                    assert(false);
                }
            }
        }
        i = i + 1;
    }
    proof {
        lemma_sum_amounts_take_all(deposits@);
        assert forall|k: int|
            0 <= k < out@.len() implies (#[trigger] out@[k]).amount == pool_assets@[k].amount
            + spec_denom_amount(deposits@, pool_assets@[k].denom@) by {
            lemma_denom_amount_take_all(deposits@, pool_assets@[k].denom@);
        }
    }
    Ok(out)
}

/// A sequence whose amounts are all zero sums to zero.
proof fn lemma_sum_zero(assets: Seq<Asset>)
    requires
        forall|i: int| 0 <= i < assets.len() ==> assets[i].amount == 0,
    ensures
        spec_sum_amounts(assets) == 0,
    decreases assets.len(),
{
    if assets.len() > 0 {
        lemma_sum_zero(assets.drop_last());
    }
}

/// A deposit in the shape a genesis provider sends: one summand per pool
/// asset, in pool order, with every addition in 128-bit range.
pub open spec fn spec_clean_full_deposit(pool: PoolInfo, funds: Seq<Asset>) -> bool {
    &&& spec_denoms_unique(funds)
    &&& funds.len() == pool.assets@.len()
    &&& funds.len() >= 2
    &&& forall|k: int|
        0 <= k < funds.len() ==> (#[trigger] funds[k]).denom@ == pool.assets@[k].denom@
            && pool.assets@[k].amount + funds[k].amount <= u128::MAX
}

/// The receiver of a deposit: the named one, or the sender.
pub open spec fn spec_chosen_receiver(receiver: &Option<String>, sender: &String) -> Seq<char> {
    match receiver {
        Option::Some(x) => x@,
        Option::None => sender@,
    }
}

/// Provides liquidity to a pool.  A deposit of two or more assets (or one
/// asset on a pool of other than two assets) is the symmetric path: the
/// share is computed from the pool's curve, the slippage tolerance is
/// asserted, and the outcome carries the updated pool — its balances grown by
/// exactly the deposits — together with the mint and lock actions.  A deposit
/// of exactly one asset on a two-asset pool with both balances positive is
/// the single-sided path: half the deposit is priced as a swap, the expected
/// post-swap balances are recorded in a buffer, and a deferred swap
/// instruction is emitted with no state touched yet.
#[verifier::rlimit(60)]
pub fn provide_liquidity(
    pool: &PoolInfo,
    funds: &Vec<Asset>,
    total_share: u128,
    deposits_enabled: bool,
    sender: &String,
    receiver: &Option<String>,
    slippage_tolerance: &Option<Fee>,
    max_spread: &Option<Fee>,
    unlocking_duration: &Option<u64>,
    lock_position_identifier: &Option<String>,
    existing_position: &Option<Position>,
    contract_balances: &Vec<Asset>,
) -> (r: Result<ProvideLiquidityOutcome, ContractError>)
    requires
        pool.well_formed(),
    ensures
        !deposits_enabled ==> (r matches Err(e) && e matches ContractError::OperationDisabled(_)),
        deposits_enabled && funds@.len() == 0 ==> r == Err::<ProvideLiquidityOutcome,
        ContractError>(ContractError::EmptyAssets),
        // a single-sided deposit is accepted only on a two-asset pool whose
        // balances are all positive; it carries one denomination, touches no
        // state, and its buffer and deferred swap are fully determined
        r matches Ok(o) ==> (o matches ProvideLiquidityOutcome::SingleSided { buffer, swap } ==> ({
            &&& pool.assets@.len() == 2
            &&& (forall|i: int| 0 <= i < 2 ==> pool.assets@[i].amount > 0)
            &&& funds@.len() >= 1
            &&& (forall|i: int, j: int|
                0 <= i < funds@.len() && 0 <= j < funds@.len() ==> funds@[i].denom@
                    == funds@[j].denom@)
            &&& buffer.receiver@ == spec_chosen_receiver(receiver, sender)
            &&& buffer.offer_asset_half.denom@ == funds@[0].denom@
            &&& buffer.offer_asset_half.amount == spec_denom_amount(funds@, funds@[0].denom@) / 2
            &&& swap.offer_asset == buffer.offer_asset_half
            &&& swap.ask_asset_denom@ == (if pool.assets@[0].denom@ == funds@[0].denom@ {
                pool.assets@[1].denom@
            } else {
                pool.assets@[0].denom@
            })
            &&& swap.pool_identifier@ == pool.pool_identifier@
            &&& swap.max_spread == *max_spread
            // the recorded expectations: the half-swap prices, the simulated
            // return, and the snapshot balances (ask side less the fees the
            // swap will send out, saturating — and never zero)
            &&& crate::swap::spec_sim_ok(*pool, buffer.offer_asset_half, swap.ask_asset_denom@)
            &&& buffer.expected_ask_asset.denom@ == swap.ask_asset_denom@
            &&& buffer.expected_ask_asset.amount == crate::swap::spec_hop_return(
                *pool,
                buffer.offer_asset_half,
                swap.ask_asset_denom@,
            )
            &&& buffer.expected_offer_asset_balance_in_contract.denom@
                == buffer.offer_asset_half.denom@
            &&& buffer.expected_offer_asset_balance_in_contract.amount == (match spec_amount_of(
                contract_balances@,
                funds@[0].denom@,
            ) {
                Option::Some(v) => v,
                Option::None => 0,
            })
            &&& buffer.expected_ask_asset_balance_in_contract.denom@ == swap.ask_asset_denom@
            &&& ({
                let snap = (match spec_amount_of(contract_balances@, swap.ask_asset_denom@) {
                    Option::Some(v) => v,
                    Option::None => 0,
                });
                let outgoing = crate::swap::spec_hop_outgoing_fees(
                    *pool,
                    buffer.offer_asset_half,
                    swap.ask_asset_denom@,
                );
                buffer.expected_ask_asset_balance_in_contract.amount == (if outgoing < snap {
                    snap - outgoing
                } else {
                    0
                })
            })
            &&& buffer.expected_ask_asset_balance_in_contract.amount > 0
            // the buffer records the phase-2 parameters unchanged
            &&& buffer.liquidity_provision_data.pool_identifier@ == pool.pool_identifier@
            &&& buffer.liquidity_provision_data.max_spread == *max_spread
            &&& buffer.liquidity_provision_data.slippage_tolerance == *slippage_tolerance
            &&& buffer.liquidity_provision_data.unlocking_duration == *unlocking_duration
            &&& (match lock_position_identifier {
                Option::Some(p) => (buffer.liquidity_provision_data.lock_position_identifier
                    matches Some(q) && q@ == p@),
                Option::None => buffer.liquidity_provision_data.lock_position_identifier is None,
            })
        })),
        // two or more distinct deposited denominations never go single-sided
        r matches Ok(o) ==> ((exists|i: int, j: int|
            0 <= i < funds@.len() && 0 <= j < funds@.len() && funds@[i].denom@ != funds@[j].denom@)
            ==> !(o is SingleSided)),
        spec_denoms_unique(funds@) && funds@.len() == 1 && pool.assets@.len() != 2 ==> !(r is Ok),
        // the symmetric path conserves value per asset: every pool balance
        // grows by exactly the deposited amount of its denomination
        r matches Ok(o) ==> (o matches ProvideLiquidityOutcome::Symmetric {
            updated_pool,
            share,
            actions,
        } ==> ({
            let chosen = spec_chosen_receiver(receiver, sender);
            let base: int = if total_share == 0 {
                1
            } else {
                0
            };
            &&& spec_sum_amounts(updated_pool.assets@) == spec_sum_amounts(pool.assets@)
                + spec_sum_amounts(funds@)
            &&& updated_pool.assets@.len() == pool.assets@.len()
            &&& (forall|k: int|
                0 <= k < pool.assets@.len() ==> ((#[trigger] updated_pool.assets@[k]).denom@
                    == pool.assets@[k].denom@ && updated_pool.assets@[k].amount
                    >= pool.assets@[k].amount && updated_pool.assets@[k].amount
                    == pool.assets@[k].amount + spec_denom_amount(
                    funds@,
                    pool.assets@[k].denom@,
                )))
            &&& updated_pool.pool_identifier@ == pool.pool_identifier@
            &&& updated_pool.lp_denom@ == pool.lp_denom@
            &&& updated_pool.asset_decimals@ == pool.asset_decimals@
            &&& updated_pool.pool_type == pool.pool_type
            &&& updated_pool.pool_fees.same_as(&pool.pool_fees)
            &&& updated_pool.well_formed()
            // the actions are exactly: the locked genesis minimum, then either
            // a mint to the receiver, or a mint to the contract locked into
            // one position — expanding only the receiver's own position
            &&& actions@.len() == base + (if unlocking_duration is Some {
                2int
            } else {
                1int
            })
            &&& (total_share == 0 ==> share > 0 && actions@[0] == LpAction::MintToContract {
                amount: MINIMUM_LIQUIDITY_AMOUNT,
            })
            &&& (unlocking_duration is None ==> (actions@[base] matches LpAction::MintToReceiver {
                receiver: rcv,
                amount: amt,
            } && rcv@ == chosen && amt == share))
            &&& (unlocking_duration matches Some(ud) ==> ({
                &&& chosen == sender@
                &&& actions@[base] == (LpAction::MintToContract { amount: share })
                &&& (match lock_position_identifier {
                    Option::None => (actions@[base + 1] matches LpAction::CreatePosition {
                        identifier,
                        unlocking_duration: dur,
                        receiver: rcv,
                        lp_amount,
                    } && identifier is None && dur == ud && rcv@ == chosen && lp_amount == share),
                    Option::Some(pid) => (match existing_position {
                        Option::Some(pos) => (pos.identifier@ == pid@ && pos.receiver@ == chosen
                            && (actions@[base + 1] matches LpAction::ExpandPosition {
                            identifier,
                            lp_amount,
                        } && identifier@ == pid@ && lp_amount == share)),
                        Option::None => (actions@[base + 1] matches LpAction::CreatePosition {
                            identifier,
                            unlocking_duration: dur,
                            receiver: rcv,
                            lp_amount,
                        } && (identifier matches Some(pi) && pi@ == pid@) && dur == ud && rcv@
                            == chosen && lp_amount == share),
                    }),
                })
            }))
            // the slippage tolerance was honored
            &&& (spec_denoms_unique(funds@) && funds@.len() == 2 && pool.assets@.len() == 2 ==> (
            slippage_tolerance matches Some(tol) ==> (match (
                spec_amount_of(funds@, pool.assets@[0].denom@),
                spec_amount_of(funds@, pool.assets@[1].denom@),
            ) {
                (Option::Some(d0), Option::Some(d1)) => ({
                    let lim = crate::swap::spec_slippage_limit(*tol);
                    let a = d0 * pool.assets@[1].amount;
                    let b = d1 * pool.assets@[0].amount;
                    a * lim <= b * (FEE_SCALE as int) && b * lim <= a * (FEE_SCALE as int)
                }),
                _ => false,
            })))
            // the share follows the pool's curve
            &&& (spec_denoms_unique(funds@) && pool.pool_type is ConstantProduct && total_share
                == 0 ==> funds@.len() >= 2 && share == spec_isqrt(
                funds@[0].amount * funds@[1].amount,
            ) - MINIMUM_LIQUIDITY_AMOUNT)
            &&& (spec_denoms_unique(funds@) && pool.pool_type is ConstantProduct && total_share > 0
                ==> share == spec_cp_prefix_min(
                funds@,
                pool.assets@,
                total_share,
                funds@.len() as int,
            ))
            &&& (match pool.pool_type {
                PoolType::StableSwap { amp } => {
                    if total_share == 0 {
                        spec_denoms_unique(funds@) ==> (spec_d_result(
                            amp as int,
                            funds@.map_values(|a: Asset| a.amount),
                        ) matches Some(dv) && dv > MINIMUM_LIQUIDITY_AMOUNT && share == dv
                            - MINIMUM_LIQUIDITY_AMOUNT)
                    } else {
                        ({
                            let db = spec_d_result(
                                amp as int,
                                pool.assets@.map_values(|a: Asset| a.amount),
                            );
                            let da = spec_d_result(
                                amp as int,
                                updated_pool.assets@.map_values(|a: Asset| a.amount),
                            );
                            &&& db is Some
                            &&& da is Some
                            &&& da->0 > db->0
                            &&& db->0 > 0
                            &&& share == spec_mul_div_floor(
                                total_share as int,
                                da->0 - db->0,
                                db->0,
                            )
                        })
                    }
                },
                PoolType::ConstantProduct => true,
            })
        })),
        // the named rejections
        (deposits_enabled && spec_denoms_unique(funds@) && funds@.len() > 0 && (exists|i: int|
            0 <= i < funds@.len() && !crate::swap::spec_has_denom(
                pool.assets@,
                (#[trigger] funds@[i]).denom@,
            ))) ==> r == Err::<ProvideLiquidityOutcome, ContractError>(
            ContractError::AssetMismatch,
        ),
        (deposits_enabled && spec_denoms_unique(funds@) && funds@.len() == 1
            && crate::swap::spec_has_denom(pool.assets@, funds@[0].denom@) && (exists|i: int|
            0 <= i < pool.assets@.len() && (#[trigger] pool.assets@[i]).amount == 0)) ==> r
            == Err::<ProvideLiquidityOutcome, ContractError>(
            ContractError::EmptyPoolForSingleSideLiquidityProvision,
        ),
        (deposits_enabled && spec_denoms_unique(funds@) && funds@.len() == 1
            && crate::swap::spec_has_denom(pool.assets@, funds@[0].denom@) && (forall|i: int|
            0 <= i < pool.assets@.len() ==> (#[trigger] pool.assets@[i]).amount > 0)
            && pool.assets@.len() != 2) ==> r == Err::<ProvideLiquidityOutcome, ContractError>(
            ContractError::InvalidPoolAssetsForSingleSideLiquidityProvision,
        ),
        // a projected post-swap ask balance of zero rejects the half-swap
        (deposits_enabled && spec_denoms_unique(funds@) && funds@.len() == 1
            && crate::swap::spec_has_denom(pool.assets@, funds@[0].denom@) && (forall|i: int|
            0 <= i < pool.assets@.len() ==> (#[trigger] pool.assets@[i]).amount > 0)
            && pool.assets@.len() == 2 && ({
            let half = (Asset { denom: funds@[0].denom, amount: funds@[0].amount / 2 });
            let ask_denom = if pool.assets@[0].denom@ == funds@[0].denom@ {
                pool.assets@[1].denom@
            } else {
                pool.assets@[0].denom@
            };
            let snap = (match spec_amount_of(contract_balances@, ask_denom) {
                Option::Some(v) => v,
                Option::None => 0,
            });
            let outgoing = crate::swap::spec_hop_outgoing_fees(*pool, half, ask_denom);
            &&& crate::swap::spec_sim_ok(*pool, half, ask_denom)
            &&& outgoing <= u128::MAX as int
            &&& !(outgoing < snap)
        })) ==> r == Err::<ProvideLiquidityOutcome, ContractError>(
            ContractError::MaxSpreadAssertion,
        ),
        (deposits_enabled && spec_clean_full_deposit(*pool, funds@) && pool.pool_type is
            ConstantProduct && total_share == 0 && spec_isqrt(
            funds@[0].amount * funds@[1].amount,
        ) <= MINIMUM_LIQUIDITY_AMOUNT) ==> r == Err::<ProvideLiquidityOutcome, ContractError>(
            ContractError::InvalidInitialLiquidityAmount(MINIMUM_LIQUIDITY_AMOUNT),
        ),
        (deposits_enabled && spec_clean_full_deposit(*pool, funds@) && (pool.pool_type matches
            PoolType::StableSwap { amp } && total_share == 0 && (spec_d_result(
            amp as int,
            funds@.map_values(|a: Asset| a.amount),
        ) matches Some(dv) && dv <= MINIMUM_LIQUIDITY_AMOUNT))) ==> r == Err::<
            ProvideLiquidityOutcome,
            ContractError,
        >(ContractError::InvalidInitialLiquidityAmount(MINIMUM_LIQUIDITY_AMOUNT)),
        // a stableswap deposit must strictly grow the invariant
        (deposits_enabled && spec_clean_full_deposit(*pool, funds@) && (pool.pool_type matches
            PoolType::StableSwap { amp } && total_share > 0 && ({
            let db = spec_d_result(amp as int, pool.assets@.map_values(|a: Asset| a.amount));
            let da = spec_d_result(
                amp as int,
                Seq::new(
                    pool.assets@.len(),
                    |k: int| (pool.assets@[k].amount + funds@[k].amount) as u128,
                ),
            );
            db is Some && da is Some && da->0 <= db->0
        }))) ==> r == Err::<ProvideLiquidityOutcome, ContractError>(
            ContractError::StableLpMintError,
        ),
        // an exceeded tolerance is a slippage failure
        (deposits_enabled && spec_clean_full_deposit(*pool, funds@) && pool.pool_type is
            ConstantProduct && total_share == 0 && spec_isqrt(
            funds@[0].amount * funds@[1].amount,
        ) > MINIMUM_LIQUIDITY_AMOUNT && funds@.len() == 2 && (slippage_tolerance matches Some(
            tol,
        ) && (match (
            spec_amount_of(funds@, pool.assets@[0].denom@),
            spec_amount_of(funds@, pool.assets@[1].denom@),
        ) {
            (Option::Some(d0), Option::Some(d1)) => ({
                let lim = crate::swap::spec_slippage_limit(*tol);
                let a = d0 * pool.assets@[1].amount;
                let b = d1 * pool.assets@[0].amount;
                &&& a <= u128::MAX as int
                &&& b <= u128::MAX as int
                &&& a * lim <= u128::MAX as int
                &&& b * (FEE_SCALE as int) <= u128::MAX as int
                &&& b * lim <= u128::MAX as int
                &&& a * (FEE_SCALE as int) <= u128::MAX as int
                &&& !(a * lim <= b * (FEE_SCALE as int) && b * lim <= a * (FEE_SCALE as int))
            }),
            _ => false,
        }))) ==> r == Err::<ProvideLiquidityOutcome, ContractError>(
            ContractError::MaxSlippageAssertion,
        ),
        // locking demands that the receiver is the sender, and that a named
        // existing position belongs to the receiver
        (deposits_enabled && spec_clean_full_deposit(*pool, funds@) && pool.pool_type is
            ConstantProduct && total_share == 0 && spec_isqrt(
            funds@[0].amount * funds@[1].amount,
        ) > MINIMUM_LIQUIDITY_AMOUNT && slippage_tolerance is None && unlocking_duration is Some
            && (receiver matches Some(x) && x@ != sender@)) ==> r == Err::<
            ProvideLiquidityOutcome,
            ContractError,
        >(ContractError::Unauthorized),
        (deposits_enabled && spec_clean_full_deposit(*pool, funds@) && pool.pool_type is
            ConstantProduct && total_share == 0 && spec_isqrt(
            funds@[0].amount * funds@[1].amount,
        ) > MINIMUM_LIQUIDITY_AMOUNT && slippage_tolerance is None && unlocking_duration is Some
            && receiver is None && (lock_position_identifier matches Some(pid)
            && existing_position matches Some(pos) && !(pos.identifier@ == pid@ && pos.receiver@
            == sender@))) ==> r == Err::<ProvideLiquidityOutcome, ContractError>(
            ContractError::Unauthorized,
        ),
        // success is owed to clean deposits: a genesis deposit with the root
        // above the locked minimum, and a subsequent deposit whose shares are
        // computable, with no tolerance or lock asked
        (deposits_enabled && spec_clean_full_deposit(*pool, funds@) && pool.pool_type is
            ConstantProduct && total_share == 0 && spec_isqrt(
            funds@[0].amount * funds@[1].amount,
        ) > MINIMUM_LIQUIDITY_AMOUNT && slippage_tolerance is None && unlocking_duration is None)
            ==> r is Ok,
        (deposits_enabled && spec_clean_full_deposit(*pool, funds@) && pool.pool_type is
            ConstantProduct && total_share > 0 && spec_cp_prefix_ok(
            funds@,
            pool.assets@,
            total_share,
            funds@.len() as int,
        ) && slippage_tolerance is None && unlocking_duration is None) ==> r is Ok,
{
    if !deposits_enabled {
        return Err(ContractError::OperationDisabled("provide_liquidity".to_string()));
    }
    let deposits = match aggregate_coins(funds) {
        Ok(d) => d,
        Err(e) => {
            return Err(e);
        },
    };
    if deposits.len() == 0 {
        return Err(ContractError::EmptyAssets);
    }
    // every deposited denomination must belong to the pool
    let mut k: usize = 0;
    while k < deposits.len()
        invariant
            k <= deposits@.len(),
            deposits_enabled,
            funds@.len() != 0,
            spec_denoms_unique(funds@) ==> deposits@ == funds@,
            forall|j: int|
                0 <= j < k ==> crate::swap::spec_has_denom(
                    pool.assets@,
                    (#[trigger] deposits@[j]).denom@,
                ),
        decreases deposits@.len() - k,
    {
        match find_asset_index(&pool.assets, &deposits[k].denom) {
            Some(_) => {},
            None => {
                proof {
                    if deposits@ == funds@ && funds@.len() == pool.assets@.len() && (forall|
                        kk: int,
                    |
                        0 <= kk < funds@.len() ==> (#[trigger] funds@[kk]).denom@
                            == pool.assets@[kk].denom@ && pool.assets@[kk].amount
                            + funds@[kk].amount <= u128::MAX) {
                        assert(pool.assets@[k as int].denom@ == deposits@[k as int].denom@);
                    }
                }
                return Err(ContractError::AssetMismatch);
            },
        }
        k = k + 1;
    }
    let chosen_receiver: String = match receiver {
        Some(x) => x.clone(),
        None => sender.clone(),
    };

    if deposits.len() == 1 {
        // single-sided path: price a half-swap and defer it
        let mut z: usize = 0;
        while z < pool.assets.len()
            invariant
                z <= pool.assets@.len(),
                deposits_enabled,
                funds@.len() != 0,
                deposits@.len() == 1,
                spec_denoms_unique(funds@) ==> deposits@ == funds@,
                forall|j: int|
                    0 <= j < deposits@.len() ==> crate::swap::spec_has_denom(
                        pool.assets@,
                        (#[trigger] deposits@[j]).denom@,
                    ),
                forall|i: int|
                    0 <= i < funds@.len() ==> crate::swap::spec_has_denom(
                        deposits@,
                        (#[trigger] funds@[i]).denom@,
                    ),
                forall|j: int| 0 <= j < z ==> pool.assets@[j].amount > 0,
            decreases pool.assets@.len() - z,
        {
            if pool.assets[z].amount == 0 {
                return Err(ContractError::EmptyPoolForSingleSideLiquidityProvision);
            }
            z = z + 1;
        }
        if pool.assets.len() != 2 {
            return Err(ContractError::InvalidPoolAssetsForSingleSideLiquidityProvision);
        }
        let deposit = deposits[0].clone();
        let ask_asset_denom: String = if pool.assets[0].denom == deposit.denom {
            pool.assets[1].denom.clone()
        } else if pool.assets[1].denom == deposit.denom {
            pool.assets[0].denom.clone()
        } else {
            return Err(ContractError::AssetMismatch);
        };
        let swap_half = Asset { denom: deposit.denom.clone(), amount: deposit.amount / 2 };
        let simulation = match simulate_swap(pool, &swap_half, &ask_asset_denom) {
            Ok(s) => s,
            Err(e) => {
                return Err(e);
            },
        };
        let expected_offer_amount = match find_asset_amount(contract_balances, &deposit.denom) {
            Some(v) => v,
            None => 0,
        };
        let ask_balance = match find_asset_amount(contract_balances, &ask_asset_denom) {
            Some(v) => v,
            None => 0,
        };
        let outgoing = match aggregate_outgoing_fees(&simulation) {
            Ok(v) => v,
            Err(e) => {
                return Err(e);
            },
        };
        let expected_ask_amount = if ask_balance > outgoing {
            ask_balance - outgoing
        } else {
            0
        };
        if expected_ask_amount == 0 {
            return Err(ContractError::MaxSpreadAssertion);
        }
        proof {
            // the single aggregate entry bears every deposited denomination
            // and holds the whole deposited amount
            assert forall|i: int|
                0 <= i < funds@.len() implies funds@[i].denom@ == deposits@[0].denom@ by {
                let w = choose|w: int|
                    0 <= w < deposits@.len() && deposits@[w].denom@ == funds@[i].denom@;
            }
            lemma_denom_amount_unique_at(deposits@, deposits@[0].denom@, 0);
        }
        let buffer = SingleSideLiquidityProvisionBuffer {
            receiver: chosen_receiver,
            expected_offer_asset_balance_in_contract: Asset {
                denom: deposit.denom.clone(),
                amount: expected_offer_amount,
            },
            expected_ask_asset_balance_in_contract: Asset {
                denom: ask_asset_denom.clone(),
                amount: expected_ask_amount,
            },
            offer_asset_half: swap_half.clone(),
            expected_ask_asset: Asset {
                denom: ask_asset_denom.clone(),
                amount: simulation.return_amount,
            },
            liquidity_provision_data: LiquidityProvisionData {
                max_spread: *max_spread,
                slippage_tolerance: *slippage_tolerance,
                pool_identifier: pool.pool_identifier.clone(),
                unlocking_duration: *unlocking_duration,
                lock_position_identifier: match lock_position_identifier {
                    Some(p) => Some(p.clone()),
                    None => None,
                },
            },
        };
        let swap = SwapInstruction {
            offer_asset: swap_half,
            ask_asset_denom,
            max_spread: *max_spread,
            pool_identifier: pool.pool_identifier.clone(),
        };
        return Ok(ProvideLiquidityOutcome::SingleSided { buffer, swap });
    }

    // symmetric path
    if deposits.len() > pool.assets.len() {
        return Err(ContractError::AssetMismatch);
    }
    let updated_assets = match add_deposits(&pool.assets, &deposits) {
        Ok(u) => u,
        Err(e) => {
            return Err(e);
        },
    };
    let share: u128 = match &pool.pool_type {
        PoolType::ConstantProduct => {
            if total_share == 0 {
                match compute_initial_cp_share(&deposits) {
                    Ok(s) => s,
                    Err(e) => {
                        return Err(e);
                    },
                }
            } else {
                match compute_cp_share(&deposits, &pool.assets, total_share) {
                    Ok(s) => s,
                    Err(e) => {
                        return Err(e);
                    },
                }
            }
        },
        PoolType::StableSwap { amp } => {
            if total_share == 0 {
                let amounts = asset_amounts(&deposits);
                let d = match compute_d(*amp, &amounts) {
                    Ok(v) => v,
                    Err(e) => {
                        return Err(e);
                    },
                };
                if d > MINIMUM_LIQUIDITY_AMOUNT {
                    d - MINIMUM_LIQUIDITY_AMOUNT
                } else {
                    return Err(
                        ContractError::InvalidInitialLiquidityAmount(MINIMUM_LIQUIDITY_AMOUNT),
                    );
                }
            } else {
                let before = asset_amounts(&pool.assets);
                let after = asset_amounts(&updated_assets);
                proof {
                    // for a clean full deposit the post-deposit balances are
                    // the pointwise sums
                    if spec_clean_full_deposit(*pool, funds@) && deposits@ == funds@ {
                        assert forall|k: int|
                            0 <= k < updated_assets@.len() implies after@[k] == ((
                        pool.assets@[k].amount + funds@[k].amount) as u128) by {
                            lemma_denom_amount_unique_at(funds@, pool.assets@[k].denom@, k);
                        }
                        assert(after@ =~= Seq::new(
                            pool.assets@.len(),
                            |k: int| (pool.assets@[k].amount + funds@[k].amount) as u128,
                        ));
                    }
                }
                match compute_lp_mint_amount_for_stableswap_deposit(
                    *amp,
                    &before,
                    &after,
                    total_share,
                ) {
                    Ok(Some(m)) => m,
                    Ok(None) => {
                        return Err(ContractError::StableLpMintError);
                    },
                    Err(e) => {
                        return Err(e);
                    },
                }
            }
        },
    };
    match assert_slippage_tolerance(
        slippage_tolerance,
        &deposits,
        &pool.assets,
        &pool.pool_type,
        share,
        total_share,
    ) {
        Ok(_) => {},
        Err(e) => {
            return Err(e);
        },
    }

    let mut actions: Vec<LpAction> = Vec::new();
    if total_share == 0 {
        actions.push(LpAction::MintToContract { amount: MINIMUM_LIQUIDITY_AMOUNT });
    }
    match unlocking_duration {
        Some(ud) => {
            if !(chosen_receiver == *sender) {
                return Err(ContractError::Unauthorized);
            }
            actions.push(LpAction::MintToContract { amount: share });
            match lock_position_identifier {
                Some(pid) => {
                    match existing_position {
                        Some(pos) => {
                            if !(pos.identifier == *pid && pos.receiver == chosen_receiver) {
                                return Err(ContractError::Unauthorized);
                            }
                            actions.push(
                                LpAction::ExpandPosition {
                                    identifier: pid.clone(),
                                    lp_amount: share,
                                },
                            );
                        },
                        None => {
                            actions.push(
                                LpAction::CreatePosition {
                                    identifier: Some(pid.clone()),
                                    unlocking_duration: *ud,
                                    receiver: chosen_receiver.clone(),
                                    lp_amount: share,
                                },
                            );
                        },
                    }
                },
                None => {
                    actions.push(
                        LpAction::CreatePosition {
                            identifier: None,
                            unlocking_duration: *ud,
                            receiver: chosen_receiver.clone(),
                            lp_amount: share,
                        },
                    );
                },
            }
        },
        None => {
            actions.push(LpAction::MintToReceiver { receiver: chosen_receiver, amount: share });
        },
    }

    let updated_pool = PoolInfo {
        pool_identifier: pool.pool_identifier.clone(),
        lp_denom: pool.lp_denom.clone(),
        assets: updated_assets,
        asset_decimals: clone_decimals(&pool.asset_decimals),
        pool_type: pool.pool_type,
        pool_fees: pool.pool_fees.clone(),
    };
    Ok(ProvideLiquidityOutcome::Symmetric { updated_pool, share, actions })
}

/// Copies a sequence of decimal precisions.
fn clone_decimals(decimals: &Vec<u8>) -> (r: Vec<u8>)
    ensures
        r@ == decimals@,
{
    let mut r: Vec<u8> = Vec::new();
    let mut i: usize = 0;
    while i < decimals.len()
        invariant
            i <= decimals@.len(),
            r@ == decimals@.take(i as int),
        decreases decimals@.len() - i,
    {
        r.push(decimals[i]);
        proof {
            assert(r@ =~= decimals@.take(i + 1));
        }
        i = i + 1;
    }
    proof {
        assert(r@ =~= decimals@);
    }
    r
}

} // verus!
