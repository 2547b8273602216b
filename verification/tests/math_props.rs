//! Exact-value checks of the arithmetic core: integer square root,
//! multiply-divide with both roundings, fee application, coin aggregation and
//! the epoch-duration rule.

use pool_manager::epoch::validate_epoch_duration;
use pool_manager::error::ContractError;
use pool_manager::liquidity::aggregate_coins;
use pool_manager::math::{isqrt, mul_div_ceil, mul_div_floor, pow10};
use pool_manager::model::{Asset, Fee, FEE_SCALE};

fn asset(denom: &str, amount: u128) -> Asset {
    Asset { denom: denom.to_string(), amount }
}

#[test]
fn isqrt_exact_values() {
    assert_eq!(isqrt(0), 0);
    assert_eq!(isqrt(1), 1);
    assert_eq!(isqrt(15), 3);
    assert_eq!(isqrt(16), 4);
    assert_eq!(isqrt(1_000_000_000_000), 1_000_000);
    assert_eq!(isqrt(u128::MAX), 0xffff_ffff_ffff_ffff);
}

#[test]
fn pow10_exact_values() {
    assert_eq!(pow10(0), 1);
    assert_eq!(pow10(6), 1_000_000);
    assert_eq!(pow10(18), FEE_SCALE);
}

#[test]
fn mul_div_floor_rounds_down() {
    assert_eq!(mul_div_floor(7, 3, 2).unwrap(), 10);
    assert_eq!(mul_div_floor(1, 1, 3).unwrap(), 0);
    assert!(matches!(mul_div_floor(1, 1, 0), Err(ContractError::DivideByZeroError)));
    assert!(matches!(mul_div_floor(u128::MAX, 2, 1), Err(ContractError::OverflowError)));
}

#[test]
fn mul_div_ceil_rounds_up() {
    assert_eq!(mul_div_ceil(7, 3, 2).unwrap(), 11);
    assert_eq!(mul_div_ceil(1, 1, 3).unwrap(), 1);
    assert_eq!(mul_div_ceil(6, 2, 3).unwrap(), 4);
    assert!(matches!(mul_div_ceil(1, 1, 0), Err(ContractError::DivideByZeroError)));
}

#[test]
fn fee_compute_takes_the_floor_share() {
    // 10% of 1000 is 100
    let fee = Fee { share: FEE_SCALE / 10 };
    assert_eq!(fee.compute(1000).unwrap(), 100);
    // 1% of 999 is 9.99, floored to 9 in the pool's favor
    let one_percent = Fee { share: FEE_SCALE / 100 };
    assert_eq!(one_percent.compute(999).unwrap(), 9);
    // the zero ratio takes nothing
    let zero = Fee { share: 0 };
    assert_eq!(zero.compute(u128::MAX).unwrap(), 0);
}

#[test]
fn aggregate_coins_merges_duplicates() {
    let coins = vec![asset("uusd", 100), asset("uom", 5), asset("uusd", 23)];
    let agg = aggregate_coins(&coins).unwrap();
    assert_eq!(agg.len(), 2);
    assert_eq!(agg[0].denom, "uusd");
    assert_eq!(agg[0].amount, 123);
    assert_eq!(agg[1].denom, "uom");
    assert_eq!(agg[1].amount, 5);
}

#[test]
fn aggregate_coins_keeps_unique_input() {
    let coins = vec![asset("uusd", 100), asset("uom", 5)];
    let agg = aggregate_coins(&coins).unwrap();
    assert_eq!(agg.len(), 2);
    assert_eq!(agg[0].amount, 100);
    assert_eq!(agg[1].amount, 5);
}

#[test]
fn aggregate_coins_overflow_is_reported() {
    let coins = vec![asset("uusd", u128::MAX), asset("uusd", 1)];
    assert!(matches!(aggregate_coins(&coins), Err(ContractError::OverflowError)));
}

#[test]
fn epoch_duration_must_cover_a_day() {
    assert!(validate_epoch_duration(86_400).is_ok());
    assert!(validate_epoch_duration(172_800).is_ok());
    assert!(matches!(
        validate_epoch_duration(86_399),
        Err(ContractError::InvalidEpochDuration { min: 86_400 })
    ));
}
