//! Typed failures surfaced by every operation of the core.
//!
//! All errors are reported synchronously and no operation mutates state when
//! it fails: each public function returns either a complete result or one of
//! these variants.

use vstd::prelude::*;

verus! {

/// Every way an operation of the pool core can fail.
#[derive(Debug, Clone)]
pub enum ContractError {
    /// The caller is not allowed to perform the operation.
    Unauthorized,
    /// The offered and asked assets are the same.
    SameAsset,
    /// Liquidity was provided without any assets.
    EmptyAssets,
    /// Single-sided liquidity cannot be provided on an empty pool.
    EmptyPoolForSingleSideLiquidityProvision,
    /// Single-sided liquidity is only possible on a pool with exactly two assets.
    InvalidPoolAssetsForSingleSideLiquidityProvision,
    /// The requested pool is not registered.
    UnExistingPool,
    /// The named operation has been switched off in the configuration.
    OperationDisabled(String),
    /// The very first deposit must exceed the minimum liquidity amount.
    InvalidInitialLiquidityAmount(u128),
    /// The LP share could not be computed from the given deposit.
    LiquidityShareComputationFailed,
    /// The amount of LP shares to withdraw exceeds the total share.
    InvalidLpShareToWithdraw,
    /// No LP tokens were sent with the withdrawal.
    PaymentError,
    /// The spread limit was exceeded.
    MaxSpreadAssertion,
    /// The slippage tolerance was exceeded.
    MaxSlippageAssertion,
    /// An asset does not match the assets stored in the pool.
    AssetMismatch,
    /// The LP mint amount for a stableswap deposit could not be computed.
    StableLpMintError,
    /// The stableswap invariant could not be evaluated.
    StableInvariantError,
    /// Newton's method failed to converge within the iteration bound.
    ConvergeError,
    /// A conversion between precisions overflowed.
    SwapOverflowError,
    /// An addition, subtraction or multiplication overflowed.
    OverflowError,
    /// A division by zero was attempted.
    DivideByZeroError,
    /// A swap-operation chain was empty.
    NoSwapOperationsProvided,
    /// An epoch duration shorter than the allowed minimum (in seconds).
    InvalidEpochDuration { min: u64 },
}

impl ContractError {
    /// A short human-readable description of the failure.
    pub fn message(&self) -> String {
        match self {
            ContractError::Unauthorized => "unauthorized".to_string(),
            ContractError::SameAsset => "the provided assets are both the same".to_string(),
            ContractError::EmptyAssets => {
                "trying to provide liquidity without any assets".to_string()
            },
            ContractError::EmptyPoolForSingleSideLiquidityProvision => {
                "cannot provide single-side liquidity when the pool is empty".to_string()
            },
            ContractError::InvalidPoolAssetsForSingleSideLiquidityProvision => {
                "cannot provide single-side liquidity on a pool without exactly 2 assets"
                    .to_string()
            },
            ContractError::UnExistingPool => "pool does not exist".to_string(),
            ContractError::OperationDisabled(_) => "operation disabled".to_string(),
            ContractError::InvalidInitialLiquidityAmount(_) => {
                "initial liquidity amount must be over the minimum".to_string()
            },
            ContractError::LiquidityShareComputationFailed => {
                "failed to compute the LP share with the given deposit".to_string()
            },
            ContractError::InvalidLpShareToWithdraw => {
                "the amount of LP shares to withdraw is invalid".to_string()
            },
            ContractError::PaymentError => "no LP tokens were sent".to_string(),
            ContractError::MaxSpreadAssertion => "spread limit exceeded".to_string(),
            ContractError::MaxSlippageAssertion => "slippage tolerance exceeded".to_string(),
            ContractError::AssetMismatch => {
                "the asset doesn't match the assets stored in contract".to_string()
            },
            ContractError::StableLpMintError => {
                "error computing the LP mint amount for the stable pool".to_string()
            },
            ContractError::StableInvariantError => {
                "error computing the stableswap invariant".to_string()
            },
            ContractError::ConvergeError => {
                "failed to converge when performing newtons method".to_string()
            },
            ContractError::SwapOverflowError => {
                "a conversion overflow occurred when attempting to swap an asset".to_string()
            },
            ContractError::OverflowError => "an arithmetic operation overflowed".to_string(),
            ContractError::DivideByZeroError => "division by zero".to_string(),
            ContractError::NoSwapOperationsProvided => {
                "must provide swap operations to execute".to_string()
            },
            ContractError::InvalidEpochDuration { .. } => {
                "the epoch duration is below the minimum".to_string()
            },
        }
    }
}

} // verus!
