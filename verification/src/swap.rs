//! Swap pricing: the constant-product and stableswap forward computation, the
//! constant-product reverse computation, fee application, precision
//! normalization, slippage checks, and the value-conservation law that fee
//! rounding always favors the pool.

use vstd::prelude::*;
use vstd::arithmetic::div_mod::{lemma_div_is_ordered, lemma_div_multiples_vanish};
use vstd::arithmetic::mul::lemma_mul_inequality;

use crate::error::ContractError;
use crate::math::{
    lemma_extra_fees_le, lemma_extra_fees_take_all, lemma_extra_fees_take_next,
    lemma_fee_amount_le, lemma_fee_amount_nonneg, lemma_fee_monotone_share,
    lemma_fee_shares_prefix_le, lemma_fee_shares_sum_nonneg, lemma_fee_shares_sum_take_all,
    lemma_fee_shares_sum_take_next, lemma_total_fee_le, mul_div_ceil, pow10, spec_extra_fees_amount,
    spec_fee_amount, spec_mul_div_ceil, spec_mul_div_floor, spec_pow10, spec_total_fee_amount,
};
use crate::model::{
    spec_fee_shares_sum, Asset, Fee, PoolFees, PoolInfo, PoolType, SwapComputation,
    OfferAmountComputation, SimulationResponse, FEE_SCALE, MAX_ASSETS_PER_POOL, MAX_DECIMALS,
};
use crate::stable::{calculate_stableswap_y, spec_y_full, spec_y_ran_out, StableSwapDirection};

verus! {

/// The common precision swap math runs at: the larger of the two assets'
/// decimal counts.
pub open spec fn spec_max_dec(offer_decimal: u8, ask_decimal: u8) -> u8 {
    if offer_decimal >= ask_decimal {
        offer_decimal
    } else {
        ask_decimal
    }
}

/// The power of ten that scales an amount of precision `dec` up to the common
/// precision of the two assets.
pub open spec fn spec_factor(dec: u8, offer_decimal: u8, ask_decimal: u8) -> int {
    spec_pow10((spec_max_dec(offer_decimal, ask_decimal) - dec) as nat)
}

/// All three inputs of a swap fit in 128 bits once normalized.
pub open spec fn spec_norms_fit(
    offer_pool: u128,
    ask_pool: u128,
    offer_amount: u128,
    offer_decimal: u8,
    ask_decimal: u8,
) -> bool {
    &&& offer_pool * spec_factor(offer_decimal, offer_decimal, ask_decimal) <= u128::MAX as int
    &&& ask_pool * spec_factor(ask_decimal, offer_decimal, ask_decimal) <= u128::MAX as int
    &&& offer_amount * spec_factor(offer_decimal, offer_decimal, ask_decimal) <= u128::MAX as int
}

/// The gross (pre-fee) return of a swap, at the common precision: for a
/// constant-product pool `ask - ask*offer/(offer+amount)`, for a stableswap
/// pool the balance delta the `y` solver yields.  `None` exactly where the
/// executable arithmetic fails.
pub open spec fn spec_swap_gross(
    n_assets: int,
    offer_pool: u128,
    ask_pool: u128,
    offer_amount: u128,
    pool_type: PoolType,
    offer_decimal: u8,
    ask_decimal: u8,
) -> Option<int> {
    let fo = spec_factor(offer_decimal, offer_decimal, ask_decimal);
    let fa = spec_factor(ask_decimal, offer_decimal, ask_decimal);
    let opn = offer_pool * fo;
    let apn = ask_pool * fa;
    let amtn = offer_amount * fo;
    if !spec_norms_fit(offer_pool, ask_pool, offer_amount, offer_decimal, ask_decimal) {
        Option::None
    } else {
        match pool_type {
            PoolType::ConstantProduct => {
                if opn + amtn > u128::MAX as int {
                    Option::None
                } else if opn + amtn == 0 {
                    Option::None
                } else {
                    Some(apn - (apn * opn) / (opn + amtn))
                }
            },
            PoolType::StableSwap { amp } => {
                match spec_y_full(
                    n_assets,
                    opn as u128,
                    apn as u128,
                    amtn as u128,
                    amp as int,
                    StableSwapDirection::Simulate,
                ) {
                    Option::None => Option::None,
                    Option::Some(y) => {
                        if y > apn {
                            Option::None
                        } else {
                            Some(apn - y)
                        }
                    },
                }
            },
        }
    }
}

/// Every fee the configuration takes from `g` fits in 128 bits.
pub open spec fn spec_swap_fees_fit(g: int, fees: PoolFees) -> bool {
    &&& spec_fee_amount(g, fees.swap_fee.share as int) <= u128::MAX as int
    &&& spec_fee_amount(g, fees.protocol_fee.share as int) <= u128::MAX as int
    &&& spec_fee_amount(g, fees.burn_fee.share as int) <= u128::MAX as int
    &&& forall|i: int|
        0 <= i < fees.extra_fees@.len() ==> spec_fee_amount(
            g,
            fees.extra_fees@[i].share as int,
        ) <= u128::MAX as int
}

/// What the trader receives, at the common precision: the gross return less
/// every floor-rounded fee.
pub open spec fn spec_return_amount(g: int, fees: PoolFees) -> int {
    g - spec_total_fee_amount(g, fees)
}

/// The spread of a swap, at the common precision: how far the gross return
/// fell short of the normalized offer amount, and zero where it exceeded it.
pub open spec fn spec_spread_amount(offer_norm: int, g: int) -> int {
    if g <= offer_norm {
        offer_norm - g
    } else {
        0
    }
}

/// Fee rounding always favors the pool.  Whenever the gross return does not
/// exceed the normalized offer amount, the returned amount, all fee amounts
/// and the spread add up to the normalized offer amount exactly — never more.
pub proof fn lemma_swap_value_conservation(g: int, offer_norm: int, fees: PoolFees)
    requires
        0 <= g <= offer_norm,
        fees.valid(),
    ensures
        spec_return_amount(g, fees) + spec_total_fee_amount(g, fees) + spec_spread_amount(
            offer_norm,
            g,
        ) == offer_norm,
        spec_return_amount(g, fees) >= 0,
        spec_total_fee_amount(g, fees) >= 0,
        spec_spread_amount(offer_norm, g) >= 0,
{
    lemma_total_fee_le(g, fees);
}

/// Scales `amount` from its native precision up to the common precision.
pub(crate) fn normalize_amount(amount: u128, dec: u8, max_dec: u8) -> (r: Result<u128, ContractError>)
    requires
        dec <= max_dec <= MAX_DECIMALS,
    ensures
        r is Ok <==> amount * spec_pow10((max_dec - dec) as nat) <= u128::MAX,
        r is Ok ==> r->Ok_0 == amount * spec_pow10((max_dec - dec) as nat),
        !(r is Ok) ==> r == Err::<u128, ContractError>(ContractError::SwapOverflowError),
{
    let f = pow10(max_dec - dec);
    match amount.checked_mul(f) {
        Some(v) => Ok(v),
        None => Err(ContractError::SwapOverflowError),
    }
}

/// Scales `amount` from the common precision back down to its native
/// precision, rounding down so the pool is favored.
pub(crate) fn denormalize_amount(amount: u128, dec: u8, max_dec: u8) -> (r: u128)
    requires
        dec <= max_dec <= MAX_DECIMALS,
    ensures
        r == amount as int / spec_pow10((max_dec - dec) as nat),
{
    let f = pow10(max_dec - dec);
    amount / f
}

/// Sum of the floor-rounded extra fees on `gross`, in the order configured.
pub(crate) fn extra_fees_amount(gross: u128, extras: &Vec<Fee>) -> (r: Result<u128, ContractError>)
    requires
        spec_fee_shares_sum(extras@) <= FEE_SCALE,
    ensures
        r is Ok <==> forall|i: int|
            0 <= i < extras@.len() ==> spec_fee_amount(gross as int, extras@[i].share as int)
                <= u128::MAX as int,
        r is Ok ==> r->Ok_0 == spec_extra_fees_amount(gross as int, extras@),
        r is Ok ==> r->Ok_0 <= spec_fee_amount(gross as int, spec_fee_shares_sum(extras@)),
        !(r is Ok) ==> r == Err::<u128, ContractError>(ContractError::OverflowError),
{
    let mut acc: u128 = 0;
    let mut i: usize = 0;
    while i < extras.len()
        invariant
            i <= extras@.len(),
            spec_fee_shares_sum(extras@) <= FEE_SCALE,
            acc == spec_extra_fees_amount(gross as int, extras@.take(i as int)),
            acc <= spec_fee_amount(gross as int, spec_fee_shares_sum(extras@.take(i as int))),
            forall|j: int|
                0 <= j < i ==> spec_fee_amount(gross as int, extras@[j].share as int)
                    <= u128::MAX as int,
        decreases extras@.len() - i,
    {
        let fee = match extras[i].compute(gross) {
            Ok(v) => v,
            Err(e) => {
                return Err(e);
            },
        };
        proof {
            lemma_extra_fees_take_next(gross as int, extras@, i as int);
            lemma_fee_shares_sum_take_next(extras@, i as int);
            lemma_fee_shares_prefix_le(extras@, i + 1);
            lemma_fee_shares_sum_nonneg(extras@.take(i as int));
            // the new accumulator is at most one fee at the whole (valid) ratio sum
            lemma_extra_fees_le(gross as int, extras@.take(i + 1));
            lemma_fee_monotone_share(
                gross as int,
                spec_fee_shares_sum(extras@.take(i + 1)),
                FEE_SCALE as int,
            );
            lemma_fee_amount_le(gross as int, FEE_SCALE as int);
        }
        acc = acc + fee;
        i = i + 1;
    }
    proof {
        lemma_extra_fees_take_all(gross as int, extras@);
        lemma_fee_shares_sum_take_all(extras@);
    }
    Ok(acc)
}

/// Prices one swap.  Amounts are normalized to the larger of the two assets'
/// decimal counts, the gross return comes from the pool's curve, each fee is
/// floor-rounded off the gross return, and every output is converted back to
/// the ask asset's native precision by floor division, so the pool never pays
/// out more than the curve allows.
#[verifier::rlimit(30)]
pub fn compute_swap(
    n_assets: u64,
    offer_pool: u128,
    ask_pool: u128,
    offer_amount: u128,
    pool_fees: &PoolFees,
    pool_type: &PoolType,
    offer_decimal: u8,
    ask_decimal: u8,
) -> (r: Result<SwapComputation, ContractError>)
    requires
        pool_fees.valid(),
        offer_decimal <= MAX_DECIMALS,
        ask_decimal <= MAX_DECIMALS,
        2 <= n_assets <= MAX_ASSETS_PER_POOL as u64,
    ensures
        r is Ok <==> (spec_swap_gross(
            n_assets as int,
            offer_pool,
            ask_pool,
            offer_amount,
            *pool_type,
            offer_decimal,
            ask_decimal,
        ) is Some && spec_swap_fees_fit(
            spec_swap_gross(
                n_assets as int,
                offer_pool,
                ask_pool,
                offer_amount,
                *pool_type,
                offer_decimal,
                ask_decimal,
            )->0,
            *pool_fees,
        )),
        r matches Ok(c) ==> ({
            let g = spec_swap_gross(
                n_assets as int,
                offer_pool,
                ask_pool,
                offer_amount,
                *pool_type,
                offer_decimal,
                ask_decimal,
            )->0;
            let fa = spec_factor(ask_decimal, offer_decimal, ask_decimal);
            let amtn = offer_amount * spec_factor(offer_decimal, offer_decimal, ask_decimal);
            &&& c.return_amount == spec_return_amount(g, *pool_fees) / fa
            &&& c.spread_amount == spec_spread_amount(amtn, g) / fa
            &&& c.swap_fee_amount == spec_fee_amount(g, pool_fees.swap_fee.share as int) / fa
            &&& c.protocol_fee_amount == spec_fee_amount(
                g,
                pool_fees.protocol_fee.share as int,
            ) / fa
            &&& c.burn_fee_amount == spec_fee_amount(g, pool_fees.burn_fee.share as int) / fa
            &&& c.extra_fees_amount == spec_extra_fees_amount(g, pool_fees.extra_fees@) / fa
            // fee rounding favors the pool: at the common precision, whenever
            // the gross return does not exceed the offer, the trader's return,
            // every fee and the spread add back up to the offer — never more
            &&& 0 <= g
            &&& (g <= amtn ==> spec_return_amount(g, *pool_fees) + spec_total_fee_amount(
                g,
                *pool_fees,
            ) + spec_spread_amount(amtn, g) == amtn)
        }),
        pool_type matches PoolType::StableSwap { amp } ==> ((r == Err::<SwapComputation,
        ContractError>(ContractError::ConvergeError)) <==> (spec_norms_fit(
            offer_pool,
            ask_pool,
            offer_amount,
            offer_decimal,
            ask_decimal,
        ) && spec_y_ran_out(
            n_assets as int,
            (offer_pool * spec_factor(offer_decimal, offer_decimal, ask_decimal)) as u128,
            (ask_pool * spec_factor(ask_decimal, offer_decimal, ask_decimal)) as u128,
            (offer_amount * spec_factor(offer_decimal, offer_decimal, ask_decimal)) as u128,
            amp as int,
            StableSwapDirection::Simulate,
        ))),
        pool_type is ConstantProduct ==> r != Err::<SwapComputation, ContractError>(
            ContractError::ConvergeError,
        ),
        !(r is Ok) ==> (r == Err::<SwapComputation, ContractError>(
            ContractError::SwapOverflowError,
        ) || r == Err::<SwapComputation, ContractError>(ContractError::OverflowError) || r
            == Err::<SwapComputation, ContractError>(ContractError::DivideByZeroError) || r
            == Err::<SwapComputation, ContractError>(ContractError::ConvergeError)),
{
    let max_dec = if offer_decimal >= ask_decimal {
        offer_decimal
    } else {
        ask_decimal
    };
    let offer_pool_n = match normalize_amount(offer_pool, offer_decimal, max_dec) {
        Ok(v) => v,
        Err(e) => {
            return Err(e);
        },
    };
    let ask_pool_n = match normalize_amount(ask_pool, ask_decimal, max_dec) {
        Ok(v) => v,
        Err(e) => {
            return Err(e);
        },
    };
    let offer_amount_n = match normalize_amount(offer_amount, offer_decimal, max_dec) {
        Ok(v) => v,
        Err(e) => {
            return Err(e);
        },
    };

    let gross: u128 = match pool_type {
        PoolType::ConstantProduct => {
            let new_offer = match offer_pool_n.checked_add(offer_amount_n) {
                Some(v) => v,
                None => {
                    return Err(ContractError::OverflowError);
                },
            };
            if new_offer == 0 {
                return Err(ContractError::DivideByZeroError);
            }
            let cp = crate::math::wide_mul(ask_pool_n, offer_pool_n);
            proof {
                assert(cp.0 < new_offer) by (nonlinear_arith)
                    requires
                        (ask_pool_n as int) * (offer_pool_n as int) == cp.0
                            * crate::math::spec_two128() + cp.1,
                        crate::math::spec_two128() == 0x100000000000000000000000000000000int,
                        offer_pool_n <= new_offer,
                        ask_pool_n <= u128::MAX,
                        cp.1 <= u128::MAX,
                        new_offer > 0,
                        cp.0 >= 0,
                ;
            }
            let kept = crate::math::wide_div(cp.0, cp.1, new_offer);
            proof {
                lemma_mul_inequality(offer_pool_n as int, new_offer as int, ask_pool_n as int);
                assert(offer_pool_n as int * ask_pool_n as int == ask_pool_n as int
                    * offer_pool_n as int) by (nonlinear_arith);
                assert(new_offer as int * ask_pool_n as int == ask_pool_n as int
                    * new_offer as int) by (nonlinear_arith);
                lemma_div_is_ordered(
                    (ask_pool_n as int) * (offer_pool_n as int),
                    ask_pool_n as int * new_offer as int,
                    new_offer as int,
                );
                lemma_div_multiples_vanish(ask_pool_n as int, new_offer as int);
                assert(ask_pool_n as int * new_offer as int == new_offer as int
                    * ask_pool_n as int) by (nonlinear_arith);
            }
            ask_pool_n - kept
        },
        PoolType::StableSwap { amp } => {
            let y = match calculate_stableswap_y(
                n_assets,
                offer_pool_n,
                ask_pool_n,
                offer_amount_n,
                *amp,
                StableSwapDirection::Simulate,
            ) {
                Ok(v) => v,
                Err(e) => {
                    return Err(e);
                },
            };
            match ask_pool_n.checked_sub(y) {
                Some(v) => v,
                None => {
                    return Err(ContractError::OverflowError);
                },
            }
        },
    };

    let swap_fee_n = match pool_fees.swap_fee.compute(gross) {
        Ok(v) => v,
        Err(e) => {
            return Err(e);
        },
    };
    let protocol_fee_n = match pool_fees.protocol_fee.compute(gross) {
        Ok(v) => v,
        Err(e) => {
            return Err(e);
        },
    };
    let burn_fee_n = match pool_fees.burn_fee.compute(gross) {
        Ok(v) => v,
        Err(e) => {
            return Err(e);
        },
    };
    proof {
        lemma_fee_shares_sum_nonneg(pool_fees.extra_fees@);
    }
    let extra_fees_n = match extra_fees_amount(gross, &pool_fees.extra_fees) {
        Ok(v) => v,
        Err(e) => {
            return Err(e);
        },
    };
    proof {
        lemma_total_fee_le(gross as int, *pool_fees);
        lemma_fee_amount_nonneg(gross as int, pool_fees.swap_fee.share as int);
        lemma_fee_amount_nonneg(gross as int, pool_fees.protocol_fee.share as int);
        lemma_fee_amount_nonneg(gross as int, pool_fees.burn_fee.share as int);
        lemma_extra_fees_le(gross as int, pool_fees.extra_fees@);
    }
    let total_fees = swap_fee_n + protocol_fee_n + burn_fee_n + extra_fees_n;
    let return_n = gross - total_fees;
    let spread_n = if gross <= offer_amount_n {
        offer_amount_n - gross
    } else {
        0
    };
    proof {
        if gross <= offer_amount_n {
            lemma_swap_value_conservation(gross as int, offer_amount_n as int, *pool_fees);
        }
    }

    Ok(
        SwapComputation {
            return_amount: denormalize_amount(return_n, ask_decimal, max_dec),
            spread_amount: denormalize_amount(spread_n, ask_decimal, max_dec),
            swap_fee_amount: denormalize_amount(swap_fee_n, ask_decimal, max_dec),
            protocol_fee_amount: denormalize_amount(protocol_fee_n, ask_decimal, max_dec),
            burn_fee_amount: denormalize_amount(burn_fee_n, ask_decimal, max_dec),
            extra_fees_amount: denormalize_amount(extra_fees_n, ask_decimal, max_dec),
        },
    )
}

/// Sum of all fee ratios of a pool, as one executable share value.
pub fn total_fee_shares(fees: &PoolFees) -> (r: u128)
    requires
        fees.valid(),
    ensures
        r == fees.spec_total_shares(),
        r < FEE_SCALE,
{
    proof {
        lemma_fee_shares_sum_nonneg(fees.extra_fees@);
    }
    let mut ts: u128 = fees.swap_fee.share + fees.protocol_fee.share + fees.burn_fee.share;
    let mut i: usize = 0;
    while i < fees.extra_fees.len()
        invariant
            i <= fees.extra_fees@.len(),
            fees.valid(),
            ts == fees.swap_fee.share + fees.protocol_fee.share + fees.burn_fee.share
                + spec_fee_shares_sum(fees.extra_fees@.take(i as int)),
        decreases fees.extra_fees@.len() - i,
    {
        proof {
            lemma_fee_shares_sum_take_next(fees.extra_fees@, i as int);
            lemma_fee_shares_prefix_le(fees.extra_fees@, i + 1);
        }
        ts = ts + fees.extra_fees[i].share;
        i = i + 1;
    }
    proof {
        lemma_fee_shares_sum_take_all(fees.extra_fees@);
    }
    ts
}

/// The gross amount that must leave the ask side so that, after all fees, the
/// trader receives the desired ask amount: `ceil(ask * 1 / (1 - total fee))`.
pub open spec fn spec_gross_needed(ask_amount: u128, fees: PoolFees) -> int {
    spec_mul_div_ceil(ask_amount as int, FEE_SCALE as int, FEE_SCALE - fees.spec_total_shares())
}

/// The offer amount a constant-product pool needs to release `g` gross from
/// the ask side: `ceil(offer*ask/(ask-g)) - offer`.
pub open spec fn spec_offer_needed(offer_pool: u128, ask_pool: u128, g: int) -> int {
    spec_mul_div_ceil(offer_pool as int, ask_pool as int, ask_pool - g) - offer_pool
}

/// The inverse swap computation for a constant-product pool: the exact offer
/// amount required to yield `ask_amount` net of fees, with every rounding
/// step in the pool's favor (ceilings on what the trader must pay, floors on
/// the fees reported off the gross amount).
pub fn compute_offer_amount(
    offer_pool: u128,
    ask_pool: u128,
    ask_amount: u128,
    pool_fees: &PoolFees,
) -> (r: Result<OfferAmountComputation, ContractError>)
    requires
        pool_fees.valid(),
    ensures
        r is Ok <==> (spec_gross_needed(ask_amount, *pool_fees) <= u128::MAX
            && spec_gross_needed(ask_amount, *pool_fees) < ask_pool && spec_mul_div_ceil(
            offer_pool as int,
            ask_pool as int,
            ask_pool - spec_gross_needed(ask_amount, *pool_fees),
        ) <= u128::MAX && spec_swap_fees_fit(
            spec_gross_needed(ask_amount, *pool_fees),
            *pool_fees,
        )),
        r matches Ok(c) ==> ({
            let g = spec_gross_needed(ask_amount, *pool_fees);
            &&& c.offer_amount == spec_offer_needed(offer_pool, ask_pool, g)
            &&& c.spread_amount == spec_spread_amount(
                spec_offer_needed(offer_pool, ask_pool, g),
                g,
            )
            &&& c.swap_fee_amount == spec_fee_amount(g, pool_fees.swap_fee.share as int)
            &&& c.protocol_fee_amount == spec_fee_amount(g, pool_fees.protocol_fee.share as int)
            &&& c.burn_fee_amount == spec_fee_amount(g, pool_fees.burn_fee.share as int)
            &&& c.extra_fees_amount == spec_extra_fees_amount(g, pool_fees.extra_fees@)
        }),
        !(r is Ok) ==> (r == Err::<OfferAmountComputation, ContractError>(
            ContractError::OverflowError,
        ) || r == Err::<OfferAmountComputation, ContractError>(ContractError::DivideByZeroError)),
{
    let ts = total_fee_shares(pool_fees);
    let one_minus = FEE_SCALE - ts;
    let gross_needed = match mul_div_ceil(ask_amount, FEE_SCALE, one_minus) {
        Ok(v) => v,
        Err(e) => {
            return Err(e);
        },
    };
    let rem = match ask_pool.checked_sub(gross_needed) {
        Some(v) => v,
        None => {
            return Err(ContractError::OverflowError);
        },
    };
    if rem == 0 {
        return Err(ContractError::DivideByZeroError);
    }
    let new_offer = match mul_div_ceil(offer_pool, ask_pool, rem) {
        Ok(v) => v,
        Err(e) => {
            return Err(e);
        },
    };
    proof {
        lemma_mul_inequality(rem as int, ask_pool as int, offer_pool as int);
        assert(rem as int * offer_pool as int == offer_pool as int * rem as int)
            by (nonlinear_arith);
        assert(ask_pool as int * offer_pool as int == offer_pool as int * ask_pool as int)
            by (nonlinear_arith);
        lemma_div_is_ordered(
            offer_pool as int * rem as int,
            offer_pool as int * ask_pool as int,
            rem as int,
        );
        assert(offer_pool as int * rem as int == rem as int * offer_pool as int)
            by (nonlinear_arith);
        lemma_div_multiples_vanish(offer_pool as int, rem as int);
    }
    let offer_amount = new_offer - offer_pool;

    let swap_fee_amount = match pool_fees.swap_fee.compute(gross_needed) {
        Ok(v) => v,
        Err(e) => {
            return Err(e);
        },
    };
    let protocol_fee_amount = match pool_fees.protocol_fee.compute(gross_needed) {
        Ok(v) => v,
        Err(e) => {
            return Err(e);
        },
    };
    let burn_fee_amount = match pool_fees.burn_fee.compute(gross_needed) {
        Ok(v) => v,
        Err(e) => {
            return Err(e);
        },
    };
    proof {
        lemma_fee_shares_sum_nonneg(pool_fees.extra_fees@);
    }
    let extra_fees_total = match extra_fees_amount(gross_needed, &pool_fees.extra_fees) {
        Ok(v) => v,
        Err(e) => {
            return Err(e);
        },
    };
    let spread_amount = if gross_needed <= offer_amount {
        offer_amount - gross_needed
    } else {
        0
    };
    Ok(
        OfferAmountComputation {
            offer_amount,
            spread_amount,
            swap_fee_amount,
            protocol_fee_amount,
            burn_fee_amount,
            extra_fees_amount: extra_fees_total,
        },
    )
}

/// Chaining the reverse computation onto a forward swap never under-charges
/// the pool: on a fee-less constant-product hop, the offer amount the reverse
/// direction demands for the forward gross return is at least the amount
/// originally offered.  (With the ceilings involved it can exceed it by a few
/// units — rounding is always in the pool's favor.)
pub proof fn lemma_reverse_covers_forward(offer_pool: u128, ask_pool: u128, x: u128)
    requires
        0 < offer_pool,
        0 < ask_pool,
        offer_pool + x <= u128::MAX,
        spec_mul_div_floor(ask_pool as int, offer_pool as int, offer_pool as int + x as int) >= 1,
    ensures
        ({
            let kept = spec_mul_div_floor(
                ask_pool as int,
                offer_pool as int,
                offer_pool as int + x as int,
            );
            let g = ask_pool - kept;
            spec_offer_needed(offer_pool, ask_pool, g) >= x
        }),
{
    let o = offer_pool as int;
    let a = ask_pool as int;
    let kept = (a * o) / (o + x);
    let g = a - kept;
    vstd::arithmetic::div_mod::lemma_fundamental_div_mod(a * o, o + x as int);
    assert(a * o >= 0) by (nonlinear_arith)
        requires
            a >= 0,
            o >= 0,
    ;
    // the floor property: kept * (o + x) <= a * o
    assert((o + x) * kept <= a * o);
    // dividing back: (o * a) / kept >= o + x
    assert((o + x) * kept == kept * (o + x as int)) by (nonlinear_arith);
    assert(o * a == a * o) by (nonlinear_arith);
    lemma_div_is_ordered(kept * (o + x as int), o * a, kept);
    lemma_div_multiples_vanish(o + x as int, kept);
    // the ceiling only grows, so ceil(o * a / kept) - o >= x
    assert(spec_mul_div_ceil(o, a, kept) >= (o * a) / kept);
}

/// Some asset of the sequence bears this denomination.
pub open spec fn spec_has_denom(assets: Seq<Asset>, denom: Seq<char>) -> bool {
    exists|i: int| 0 <= i < assets.len() && assets[i].denom@ == denom
}

/// The index of the asset bearing this denomination; under unique
/// denominations there is exactly one.
pub open spec fn spec_index_of_denom(assets: Seq<Asset>, denom: Seq<char>) -> int {
    choose|i: int| 0 <= i < assets.len() && assets[i].denom@ == denom
}

/// Under unique denominations, any index whose asset bears the denomination
/// is the index [`spec_index_of_denom`] picks.
pub proof fn lemma_index_of_denom_unique(assets: Seq<Asset>, denom: Seq<char>, i: int)
    requires
        crate::model::spec_denoms_unique(assets),
        0 <= i < assets.len(),
        assets[i].denom@ == denom,
    ensures
        spec_index_of_denom(assets, denom) == i,
{
    assert(0 <= i < assets.len() && assets[i].denom@ == denom);
    let j = spec_index_of_denom(assets, denom);
    assert(0 <= j < assets.len() && assets[j].denom@ == denom);
}

/// The amount of the first asset bearing this denomination, if any.
pub open spec fn spec_amount_of_from(assets: Seq<Asset>, denom: Seq<char>, i: nat) -> Option<int>
    decreases assets.len() - i,
{
    if i >= assets.len() {
        Option::None
    } else if assets[i as int].denom@ == denom {
        Some(assets[i as int].amount as int)
    } else {
        spec_amount_of_from(assets, denom, i + 1)
    }
}

/// The amount of the first asset bearing this denomination, if any.
pub open spec fn spec_amount_of(assets: Seq<Asset>, denom: Seq<char>) -> Option<int> {
    spec_amount_of_from(assets, denom, 0)
}

/// Index of the first asset bearing this denomination.
pub fn find_asset_index(assets: &Vec<Asset>, denom: &String) -> (r: Option<usize>)
    ensures
        r matches Some(i) ==> i < assets@.len() && assets@[i as int].denom@ == denom@,
        r is Some <==> spec_has_denom(assets@, denom@),
{
    let mut i: usize = 0;
    while i < assets.len()
        invariant
            i <= assets@.len(),
            forall|j: int| 0 <= j < i ==> assets@[j].denom@ != denom@,
        decreases assets@.len() - i,
    {
        if assets[i].denom == *denom {
            return Some(i);
        }
        i = i + 1;
    }
    None
}

/// The amount of the first asset bearing this denomination.
pub fn find_asset_amount(assets: &Vec<Asset>, denom: &String) -> (r: Option<u128>)
    ensures
        r matches Some(a) ==> spec_amount_of(assets@, denom@) == Some(a as int),
        r is None <==> spec_amount_of(assets@, denom@) is None,
{
    let mut i: usize = 0;
    while i < assets.len()
        invariant
            i <= assets@.len(),
            spec_amount_of_from(assets@, denom@, i as nat) == spec_amount_of(assets@, denom@),
        decreases assets@.len() - i,
    {
        if assets[i].denom == *denom {
            return Some(assets[i].amount);
        }
        i = i + 1;
    }
    None
}

/// Locates the offer and ask assets of a swap inside a pool record: the two
/// assets, their indexes, and their decimal precisions.
pub fn get_asset_indexes_in_pool(
    pool_info: &PoolInfo,
    offer_asset_denom: &String,
    ask_asset_denom: &String,
) -> (r: Result<(Asset, Asset, usize, usize, u8, u8), ContractError>)
    requires
        pool_info.well_formed(),
    ensures
        r is Ok <==> (offer_asset_denom@ != ask_asset_denom@ && spec_has_denom(
            pool_info.assets@,
            offer_asset_denom@,
        ) && spec_has_denom(pool_info.assets@, ask_asset_denom@)),
        r matches Ok(t) ==> ({
            &&& t.2 < pool_info.assets@.len()
            &&& t.3 < pool_info.assets@.len()
            &&& t.2 != t.3
            &&& pool_info.assets@[t.2 as int].denom@ == offer_asset_denom@
            &&& pool_info.assets@[t.3 as int].denom@ == ask_asset_denom@
            &&& t.0 == pool_info.assets@[t.2 as int]
            &&& t.1 == pool_info.assets@[t.3 as int]
            &&& t.4 == pool_info.asset_decimals@[t.2 as int]
            &&& t.5 == pool_info.asset_decimals@[t.3 as int]
            &&& t.2 == spec_index_of_denom(pool_info.assets@, offer_asset_denom@)
            &&& t.3 == spec_index_of_denom(pool_info.assets@, ask_asset_denom@)
        }),
        offer_asset_denom@ == ask_asset_denom@ ==> r == Err::<
            (Asset, Asset, usize, usize, u8, u8),
            ContractError,
        >(ContractError::SameAsset),
        offer_asset_denom@ != ask_asset_denom@ && !(spec_has_denom(
            pool_info.assets@,
            offer_asset_denom@,
        ) && spec_has_denom(pool_info.assets@, ask_asset_denom@)) ==> r == Err::<
            (Asset, Asset, usize, usize, u8, u8),
            ContractError,
        >(ContractError::AssetMismatch),
{
    if *offer_asset_denom == *ask_asset_denom {
        return Err(ContractError::SameAsset);
    }
    let offer_index = match find_asset_index(&pool_info.assets, offer_asset_denom) {
        Some(i) => i,
        None => {
            return Err(ContractError::AssetMismatch);
        },
    };
    let ask_index = match find_asset_index(&pool_info.assets, ask_asset_denom) {
        Some(i) => i,
        None => {
            return Err(ContractError::AssetMismatch);
        },
    };
    let offer_asset = pool_info.assets[offer_index].clone();
    let ask_asset = pool_info.assets[ask_index].clone();
    let offer_decimal = pool_info.asset_decimals[offer_index];
    let ask_decimal = pool_info.asset_decimals[ask_index];
    proof {
        lemma_index_of_denom_unique(pool_info.assets@, offer_asset_denom@, offer_index as int);
        lemma_index_of_denom_unique(pool_info.assets@, ask_asset_denom@, ask_index as int);
    }
    Ok((offer_asset, ask_asset, offer_index, ask_index, offer_decimal, ask_decimal))
}

/// Total of the fee amounts a swap sends out of the contract: the protocol,
/// burn and extra fees (the swap fee stays in the pool).
pub fn aggregate_outgoing_fees(simulation: &SimulationResponse) -> (r: Result<u128, ContractError>)
    ensures
        r is Ok <==> simulation.protocol_fee_amount + simulation.burn_fee_amount
            + simulation.extra_fees_amount <= u128::MAX,
        r is Ok ==> r->Ok_0 == simulation.protocol_fee_amount + simulation.burn_fee_amount
            + simulation.extra_fees_amount,
        !(r is Ok) ==> r == Err::<u128, ContractError>(ContractError::OverflowError),
{
    let pb = match simulation.protocol_fee_amount.checked_add(simulation.burn_fee_amount) {
        Some(v) => v,
        None => {
            return Err(ContractError::OverflowError);
        },
    };
    match pb.checked_add(simulation.extra_fees_amount) {
        Some(v) => Ok(v),
        None => Err(ContractError::OverflowError),
    }
}

/// A simulation of this swap against this pool succeeds: the two
/// denominations are distinct and present, the curve math fits in 128 bits,
/// and so does every fee taken from the gross return.
pub open spec fn spec_sim_ok(pool: PoolInfo, offer_asset: Asset, ask_denom: Seq<char>) -> bool {
    let oi = spec_index_of_denom(pool.assets@, offer_asset.denom@);
    let ai = spec_index_of_denom(pool.assets@, ask_denom);
    let g = spec_swap_gross(
        pool.assets@.len() as int,
        pool.assets@[oi].amount,
        pool.assets@[ai].amount,
        offer_asset.amount,
        pool.pool_type,
        pool.asset_decimals@[oi],
        pool.asset_decimals@[ai],
    );
    &&& offer_asset.denom@ != ask_denom
    &&& spec_has_denom(pool.assets@, offer_asset.denom@)
    &&& spec_has_denom(pool.assets@, ask_denom)
    &&& g is Some
    &&& spec_swap_fees_fit(g->0, pool.pool_fees)
}

/// `s` is the simulation of this swap against this pool: every field follows
/// the gross return of the pool's curve through floor-rounded fees and the
/// conversion back to the ask asset's precision.
pub open spec fn spec_sim_response_matches(
    pool: PoolInfo,
    offer_asset: Asset,
    ask_denom: Seq<char>,
    s: SimulationResponse,
) -> bool {
    let oi = spec_index_of_denom(pool.assets@, offer_asset.denom@);
    let ai = spec_index_of_denom(pool.assets@, ask_denom);
    let od = pool.asset_decimals@[oi];
    let ad = pool.asset_decimals@[ai];
    let g = spec_swap_gross(
        pool.assets@.len() as int,
        pool.assets@[oi].amount,
        pool.assets@[ai].amount,
        offer_asset.amount,
        pool.pool_type,
        od,
        ad,
    )->0;
    let fa = spec_factor(ad, od, ad);
    let amtn = offer_asset.amount * spec_factor(od, od, ad);
    &&& s.return_amount == spec_return_amount(g, pool.pool_fees) / fa
    &&& s.spread_amount == spec_spread_amount(amtn, g) / fa
    &&& s.swap_fee_amount == spec_fee_amount(g, pool.pool_fees.swap_fee.share as int) / fa
    &&& s.protocol_fee_amount == spec_fee_amount(g, pool.pool_fees.protocol_fee.share as int) / fa
    &&& s.burn_fee_amount == spec_fee_amount(g, pool.pool_fees.burn_fee.share as int) / fa
    &&& s.extra_fees_amount == spec_extra_fees_amount(g, pool.pool_fees.extra_fees@) / fa
}

/// What the trader receives from one simulated hop, in the ask asset's
/// native precision: the return field of [`spec_sim_response_matches`].
pub open spec fn spec_hop_return(pool: PoolInfo, offer_asset: Asset, ask_denom: Seq<char>) -> int {
    let oi = spec_index_of_denom(pool.assets@, offer_asset.denom@);
    let ai = spec_index_of_denom(pool.assets@, ask_denom);
    let od = pool.asset_decimals@[oi];
    let ad = pool.asset_decimals@[ai];
    let g = spec_swap_gross(
        pool.assets@.len() as int,
        pool.assets@[oi].amount,
        pool.assets@[ai].amount,
        offer_asset.amount,
        pool.pool_type,
        od,
        ad,
    )->0;
    spec_return_amount(g, pool.pool_fees) / spec_factor(ad, od, ad)
}

/// One output field of a simulated hop, selected by `kind`: 0 the spread,
/// 1 the swap fee, 2 the protocol fee, 3 the burn fee, anything else the
/// extra-fee total — each in the ask asset's native precision, as
/// [`spec_sim_response_matches`] states them.
pub open spec fn spec_hop_part(
    pool: PoolInfo,
    offer_asset: Asset,
    ask_denom: Seq<char>,
    kind: int,
) -> int {
    let oi = spec_index_of_denom(pool.assets@, offer_asset.denom@);
    let ai = spec_index_of_denom(pool.assets@, ask_denom);
    let od = pool.asset_decimals@[oi];
    let ad = pool.asset_decimals@[ai];
    let g = spec_swap_gross(
        pool.assets@.len() as int,
        pool.assets@[oi].amount,
        pool.assets@[ai].amount,
        offer_asset.amount,
        pool.pool_type,
        od,
        ad,
    )->0;
    let fa = spec_factor(ad, od, ad);
    let amtn = offer_asset.amount * spec_factor(od, od, ad);
    if kind == 0 {
        spec_spread_amount(amtn, g) / fa
    } else if kind == 1 {
        spec_fee_amount(g, pool.pool_fees.swap_fee.share as int) / fa
    } else if kind == 2 {
        spec_fee_amount(g, pool.pool_fees.protocol_fee.share as int) / fa
    } else if kind == 3 {
        spec_fee_amount(g, pool.pool_fees.burn_fee.share as int) / fa
    } else {
        spec_extra_fees_amount(g, pool.pool_fees.extra_fees@) / fa
    }
}

/// The fee total one simulated hop sends out of the contract, in the ask
/// asset's native precision: the protocol, burn and extra fee fields of
/// [`spec_sim_response_matches`] (the swap fee stays in the pool).
pub open spec fn spec_hop_outgoing_fees(
    pool: PoolInfo,
    offer_asset: Asset,
    ask_denom: Seq<char>,
) -> int {
    let oi = spec_index_of_denom(pool.assets@, offer_asset.denom@);
    let ai = spec_index_of_denom(pool.assets@, ask_denom);
    let od = pool.asset_decimals@[oi];
    let ad = pool.asset_decimals@[ai];
    let g = spec_swap_gross(
        pool.assets@.len() as int,
        pool.assets@[oi].amount,
        pool.assets@[ai].amount,
        offer_asset.amount,
        pool.pool_type,
        od,
        ad,
    )->0;
    let fa = spec_factor(ad, od, ad);
    spec_fee_amount(g, pool.pool_fees.protocol_fee.share as int) / fa + spec_fee_amount(
        g,
        pool.pool_fees.burn_fee.share as int,
    ) / fa + spec_extra_fees_amount(g, pool.pool_fees.extra_fees@) / fa
}

/// Simulates one swap against a pool snapshot: locates the two assets and
/// prices the trade with [`compute_swap`].
pub fn simulate_swap(pool: &PoolInfo, offer_asset: &Asset, ask_asset_denom: &String) -> (r: Result<
    SimulationResponse,
    ContractError,
>)
    requires
        pool.well_formed(),
    ensures
        r is Ok <==> spec_sim_ok(*pool, *offer_asset, ask_asset_denom@),
        r matches Ok(s) ==> spec_sim_response_matches(*pool, *offer_asset, ask_asset_denom@, s),
        offer_asset.denom@ == ask_asset_denom@ ==> r == Err::<SimulationResponse, ContractError>(
            ContractError::SameAsset,
        ),
        offer_asset.denom@ != ask_asset_denom@ && !(spec_has_denom(
            pool.assets@,
            offer_asset.denom@,
        ) && spec_has_denom(pool.assets@, ask_asset_denom@)) ==> r == Err::<
            SimulationResponse,
            ContractError,
        >(ContractError::AssetMismatch),
        !(r is Ok) ==> (r == Err::<SimulationResponse, ContractError>(ContractError::SameAsset)
            || r == Err::<SimulationResponse, ContractError>(ContractError::AssetMismatch) || r
            == Err::<SimulationResponse, ContractError>(ContractError::SwapOverflowError) || r
            == Err::<SimulationResponse, ContractError>(ContractError::OverflowError) || r
            == Err::<SimulationResponse, ContractError>(ContractError::DivideByZeroError) || r
            == Err::<SimulationResponse, ContractError>(ContractError::ConvergeError)),
{
    let (offer_in_pool, ask_in_pool, _oi, _ai, offer_decimal, ask_decimal) =
        match get_asset_indexes_in_pool(pool, &offer_asset.denom, ask_asset_denom) {
        Ok(t) => t,
        Err(e) => {
            proof {
                if spec_has_denom(pool.assets@, offer_asset.denom@) && spec_has_denom(
                    pool.assets@,
                    ask_asset_denom@,
                ) && offer_asset.denom@ != ask_asset_denom@ {
                    assert(false);
                }
            }
            return Err(e);
        },
    };
    let n_assets = pool.assets.len() as u64;
    let c = match compute_swap(
        n_assets,
        offer_in_pool.amount,
        ask_in_pool.amount,
        offer_asset.amount,
        &pool.pool_fees,
        &pool.pool_type,
        offer_decimal,
        ask_decimal,
    ) {
        Ok(c) => c,
        Err(e) => {
            return Err(e);
        },
    };
    Ok(
        SimulationResponse {
            return_amount: c.return_amount,
            spread_amount: c.spread_amount,
            swap_fee_amount: c.swap_fee_amount,
            protocol_fee_amount: c.protocol_fee_amount,
            burn_fee_amount: c.burn_fee_amount,
            extra_fees_amount: c.extra_fees_amount,
        },
    )
}

/// The fraction of the pool ratio a deposit ratio must stay above under a
/// slippage tolerance `tol`: `1 - tol`, and zero once `tol` covers everything.
pub open spec fn spec_slippage_limit(tol: Fee) -> int {
    if tol.share >= FEE_SCALE {
        0
    } else {
        FEE_SCALE - tol.share
    }
}

/// Asserts the slippage tolerance of a two-sided deposit: the deposit's asset
/// ratio must not deviate from the pool's current ratio by more than the
/// caller-supplied tolerance.  Without a tolerance there is no check; with
/// deposits or pools of any other shape the ratio check does not apply (a
/// stableswap deposit is priced by the invariant itself).  The minted share
/// and total share are carried for future curve types that price by share.
pub fn assert_slippage_tolerance(
    slippage_tolerance: &Option<Fee>,
    deposits: &Vec<Asset>,
    pool_assets: &Vec<Asset>,
    pool_type: &PoolType,
    _minted_share: u128,
    _total_share: u128,
) -> (r: Result<(), ContractError>)
    ensures
        slippage_tolerance is None ==> r is Ok,
        slippage_tolerance matches Some(tol) ==> ({
            let lim = spec_slippage_limit(*tol);
            if !(deposits@.len() == 2 && pool_assets@.len() == 2) {
                r is Ok
            } else {
                match (
                    spec_amount_of(deposits@, pool_assets@[0].denom@),
                    spec_amount_of(deposits@, pool_assets@[1].denom@),
                ) {
                    (Option::Some(d0), Option::Some(d1)) => {
                        let p0 = pool_assets@[0].amount as int;
                        let p1 = pool_assets@[1].amount as int;
                        let a = d0 * p1;
                        let b = d1 * p0;
                        let fits = a <= u128::MAX as int && b <= u128::MAX as int && a * lim
                            <= u128::MAX as int && b * (FEE_SCALE as int) <= u128::MAX as int && b
                            * lim <= u128::MAX as int && a * (FEE_SCALE as int)
                            <= u128::MAX as int;
                        &&& (r is Ok <==> (fits && a * lim <= b * (FEE_SCALE as int) && b * lim
                            <= a * (FEE_SCALE as int)))
                        &&& ((fits && !(a * lim <= b * (FEE_SCALE as int) && b * lim <= a * (
                        FEE_SCALE as int)))) ==> r == Err::<(), ContractError>(
                            ContractError::MaxSlippageAssertion,
                        )
                    },
                    _ => r == Err::<(), ContractError>(ContractError::AssetMismatch),
                }
            }
        }),
{
    let tol = match slippage_tolerance {
        Some(t) => t,
        None => {
            return Ok(());
        },
    };
    let lim: u128 = if tol.share >= FEE_SCALE {
        0
    } else {
        FEE_SCALE - tol.share
    };
    if !(deposits.len() == 2 && pool_assets.len() == 2) {
        return Ok(());
    }
    let d0 = match find_asset_amount(deposits, &pool_assets[0].denom) {
        Some(v) => v,
        None => {
            return Err(ContractError::AssetMismatch);
        },
    };
    let d1 = match find_asset_amount(deposits, &pool_assets[1].denom) {
        Some(v) => v,
        None => {
            return Err(ContractError::AssetMismatch);
        },
    };
    let p0 = pool_assets[0].amount;
    let p1 = pool_assets[1].amount;
    let a = match d0.checked_mul(p1) {
        Some(v) => v,
        None => {
            return Err(ContractError::OverflowError);
        },
    };
    let b = match d1.checked_mul(p0) {
        Some(v) => v,
        None => {
            return Err(ContractError::OverflowError);
        },
    };
    let lhs1 = match a.checked_mul(lim) {
        Some(v) => v,
        None => {
            return Err(ContractError::OverflowError);
        },
    };
    let rhs1 = match b.checked_mul(FEE_SCALE) {
        Some(v) => v,
        None => {
            return Err(ContractError::OverflowError);
        },
    };
    if lhs1 > rhs1 {
        return Err(ContractError::MaxSlippageAssertion);
    }
    let lhs2 = match b.checked_mul(lim) {
        Some(v) => v,
        None => {
            return Err(ContractError::OverflowError);
        },
    };
    let rhs2 = match a.checked_mul(FEE_SCALE) {
        Some(v) => v,
        None => {
            return Err(ContractError::OverflowError);
        },
    };
    if lhs2 > rhs2 {
        return Err(ContractError::MaxSlippageAssertion);
    }
    Ok(())
}

} // verus!
