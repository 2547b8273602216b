//! Data model of the pool core: assets, fee ratios, pool records and the
//! response shapes of the exposed operations.
//!
//! All amounts are unsigned 128-bit integers; ratios are integer fixed-point
//! values over [`FEE_SCALE`].  A pool's well-formedness ([`PoolInfo::well_formed`])
//! is the invariant that every operation requires and preserves.

use vstd::prelude::*;

verus! {

/// Shares permanently withheld from the first liquidity provider and minted to
/// the pool itself, defending against first-depositor share-price manipulation.
pub const MINIMUM_LIQUIDITY_AMOUNT: u128 = 1_000;

/// Fixed-point scale of ratios: a [`Fee`] with `share == FEE_SCALE` is the ratio 1.
pub const FEE_SCALE: u128 = 1_000_000_000_000_000_000;

/// Largest decimal precision an asset may declare.
pub const MAX_DECIMALS: u8 = 18;

/// Largest number of assets a pool may hold; enforced when a pool is created.
pub const MAX_ASSETS_PER_POOL: usize = 4;

/// A quantity of one token denomination.
pub struct Asset {
    pub denom: String,
    pub amount: u128,
}

impl Clone for Asset {
    fn clone(&self) -> (r: Self)
        ensures
            r == *self,
    {
        Asset { denom: self.denom.clone(), amount: self.amount }
    }
}

/// A ratio in `[0, 1]`, stored as `share / FEE_SCALE`.
#[derive(Clone, Copy)]
pub struct Fee {
    pub share: u128,
}

impl Fee {
    /// The ratio is at most 1.
    pub open spec fn valid(&self) -> bool {
        self.share <= FEE_SCALE
    }
}

/// Sum of the shares of a sequence of fees.
pub open spec fn spec_fee_shares_sum(fees: Seq<Fee>) -> int
    decreases fees.len(),
{
    if fees.len() == 0 {
        0
    } else {
        spec_fee_shares_sum(fees.drop_last()) + fees.last().share
    }
}

/// The fee configuration of one pool.
pub struct PoolFees {
    pub swap_fee: Fee,
    pub protocol_fee: Fee,
    pub burn_fee: Fee,
    pub extra_fees: Vec<Fee>,
}

impl PoolFees {
    /// Sum of all fee ratios' shares.
    pub open spec fn spec_total_shares(&self) -> int {
        self.swap_fee.share + self.protocol_fee.share + self.burn_fee.share
            + spec_fee_shares_sum(self.extra_fees@)
    }

    /// The sum of all fee ratios is below 1.  Violations are a
    /// configuration-time error, so every operation may require this.
    pub open spec fn valid(&self) -> bool {
        self.spec_total_shares() < FEE_SCALE
    }

    /// The two fee configurations agree field by field (fee sequences compared
    /// by their views).
    pub open spec fn same_as(&self, o: &PoolFees) -> bool {
        &&& self.swap_fee == o.swap_fee
        &&& self.protocol_fee == o.protocol_fee
        &&& self.burn_fee == o.burn_fee
        &&& self.extra_fees@ == o.extra_fees@
    }
}

impl Clone for PoolFees {
    fn clone(&self) -> (r: Self)
        ensures
            r.same_as(self),
    {
        let mut extra_fees: Vec<Fee> = Vec::new();
        let mut i: usize = 0;
        while i < self.extra_fees.len()
            invariant
                i <= self.extra_fees.len(),
                extra_fees@ == self.extra_fees@.take(i as int),
            decreases self.extra_fees.len() - i,
        {
            extra_fees.push(Fee { share: self.extra_fees[i].share });
            proof {
                assert(extra_fees@ =~= self.extra_fees@.take(i + 1));
            }
            i = i + 1;
        }
        proof {
            assert(extra_fees@ =~= self.extra_fees@);
        }
        PoolFees {
            swap_fee: self.swap_fee,
            protocol_fee: self.protocol_fee,
            burn_fee: self.burn_fee,
            extra_fees,
        }
    }
}

/// The curve model a pool follows.
#[derive(Clone, Copy)]
pub enum PoolType {
    ConstantProduct,
    StableSwap { amp: u64 },
}

/// One registered pool: its identifier, assets (order stable, denominations
/// unique), curve type, LP denomination, fees and per-asset decimal precision.
pub struct PoolInfo {
    pub pool_identifier: String,
    pub lp_denom: String,
    pub assets: Vec<Asset>,
    pub asset_decimals: Vec<u8>,
    pub pool_type: PoolType,
    pub pool_fees: PoolFees,
}

/// Denominations of a sequence of assets are pairwise distinct.
pub open spec fn spec_denoms_unique(assets: Seq<Asset>) -> bool {
    forall|i: int, j: int| 0 <= i < j < assets.len() ==> assets[i].denom@ != assets[j].denom@
}

impl PoolInfo {
    /// Denominations are pairwise distinct.
    pub open spec fn denoms_unique(&self) -> bool {
        spec_denoms_unique(self.assets@)
    }

    /// The structural invariant of a pool record.
    pub open spec fn well_formed(&self) -> bool {
        &&& 1 <= self.assets@.len() <= MAX_ASSETS_PER_POOL
        &&& self.assets@.len() == self.asset_decimals@.len()
        &&& self.denoms_unique()
        &&& forall|i: int|
            0 <= i < self.asset_decimals@.len() ==> self.asset_decimals@[i] <= MAX_DECIMALS
        &&& self.pool_fees.valid()
    }

    /// The two pool records agree field by field (vectors compared by their
    /// views).
    pub open spec fn same_as(&self, o: &PoolInfo) -> bool {
        &&& self.pool_identifier@ == o.pool_identifier@
        &&& self.lp_denom@ == o.lp_denom@
        &&& self.assets@ == o.assets@
        &&& self.asset_decimals@ == o.asset_decimals@
        &&& self.pool_type == o.pool_type
        &&& self.pool_fees.same_as(&o.pool_fees)
    }
}

impl Clone for PoolInfo {
    fn clone(&self) -> (r: Self)
        ensures
            r.same_as(self),
            r.well_formed() <==> self.well_formed(),
    {
        let mut assets: Vec<Asset> = Vec::new();
        let mut i: usize = 0;
        while i < self.assets.len()
            invariant
                i <= self.assets.len(),
                assets@ == self.assets@.take(i as int),
            decreases self.assets.len() - i,
        {
            assets.push(self.assets[i].clone());
            proof {
                assert(assets@ =~= self.assets@.take(i + 1));
            }
            i = i + 1;
        }
        let mut asset_decimals: Vec<u8> = Vec::new();
        let mut j: usize = 0;
        while j < self.asset_decimals.len()
            invariant
                j <= self.asset_decimals.len(),
                asset_decimals@ == self.asset_decimals@.take(j as int),
            decreases self.asset_decimals.len() - j,
        {
            asset_decimals.push(self.asset_decimals[j]);
            proof {
                assert(asset_decimals@ =~= self.asset_decimals@.take(j + 1));
            }
            j = j + 1;
        }
        proof {
            assert(assets@ =~= self.assets@);
            assert(asset_decimals@ =~= self.asset_decimals@);
        }
        PoolInfo {
            pool_identifier: self.pool_identifier.clone(),
            lp_denom: self.lp_denom.clone(),
            assets,
            asset_decimals,
            pool_type: self.pool_type,
            pool_fees: self.pool_fees.clone(),
        }
    }
}

/// The outcome of pricing one swap, all amounts in the ask asset's native
/// precision except where a function's contract says otherwise.
pub struct SwapComputation {
    pub return_amount: u128,
    pub spread_amount: u128,
    pub swap_fee_amount: u128,
    pub protocol_fee_amount: u128,
    pub burn_fee_amount: u128,
    pub extra_fees_amount: u128,
}

/// The outcome of the reverse computation: the offer amount required to
/// receive a desired ask amount.
pub struct OfferAmountComputation {
    pub offer_amount: u128,
    pub spread_amount: u128,
    pub swap_fee_amount: u128,
    pub protocol_fee_amount: u128,
    pub burn_fee_amount: u128,
    pub extra_fees_amount: u128,
}

/// Feature switches of the contract configuration.
pub struct Config {
    pub deposits_enabled: bool,
    pub withdrawals_enabled: bool,
}

impl Clone for Config {
    fn clone(&self) -> (r: Self)
        ensures
            r == *self,
    {
        Config {
            deposits_enabled: self.deposits_enabled,
            withdrawals_enabled: self.withdrawals_enabled,
        }
    }
}

/// A locked LP position held by the external position-lock service.
pub struct Position {
    pub identifier: String,
    pub receiver: String,
}

/// Result of simulating a single swap: what the trader receives and every fee
/// and spread the pool keeps or sends on.
pub struct SimulationResponse {
    pub return_amount: u128,
    pub spread_amount: u128,
    pub swap_fee_amount: u128,
    pub protocol_fee_amount: u128,
    pub burn_fee_amount: u128,
    pub extra_fees_amount: u128,
}

/// Result of simulating a single swap backwards: the offer amount required
/// for a desired ask amount.
pub struct ReverseSimulationResponse {
    pub offer_amount: u128,
    pub spread_amount: u128,
    pub swap_fee_amount: u128,
    pub protocol_fee_amount: u128,
    pub burn_fee_amount: u128,
    pub extra_fees_amount: u128,
}

/// The decimal precision of one asset of one pool.
pub struct AssetDecimalsResponse {
    pub pool_identifier: String,
    pub denom: String,
    pub decimals: u8,
}

/// One pool together with the point-in-time total LP share supply.
pub struct PoolInfoResponse {
    pub pool_info: PoolInfo,
    pub total_share: u128,
}

/// A page of pools.
pub struct PoolsResponse {
    pub pools: Vec<PoolInfoResponse>,
}

/// One hop of a swap route.
pub enum SwapOperation {
    MantraSwap { token_in_denom: String, token_out_denom: String, pool_identifier: String },
}

impl Clone for SwapOperation {
    fn clone(&self) -> (r: Self)
        ensures
            r == *self,
    {
        match self {
            SwapOperation::MantraSwap { token_in_denom, token_out_denom, pool_identifier } => {
                SwapOperation::MantraSwap {
                    token_in_denom: token_in_denom.clone(),
                    token_out_denom: token_out_denom.clone(),
                    pool_identifier: pool_identifier.clone(),
                }
            },
        }
    }
}

/// Result of chaining swap simulations forward over a route, with the fees of
/// every hop aggregated by denomination.
pub struct SimulateSwapOperationsResponse {
    pub return_amount: u128,
    pub spreads: Vec<Asset>,
    pub swap_fees: Vec<Asset>,
    pub protocol_fees: Vec<Asset>,
    pub burn_fees: Vec<Asset>,
    pub extra_fees: Vec<Asset>,
}

/// Result of chaining swap simulations backwards over a route.
pub struct ReverseSimulateSwapOperationsResponse {
    pub offer_amount: u128,
    pub spreads: Vec<Asset>,
    pub swap_fees: Vec<Asset>,
    pub protocol_fees: Vec<Asset>,
    pub burn_fees: Vec<Asset>,
    pub extra_fees: Vec<Asset>,
}

} // verus!
