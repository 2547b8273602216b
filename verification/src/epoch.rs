//! Epoch scheduling rules: validation of the epoch duration.

use vstd::prelude::*;

use crate::error::ContractError;

verus! {

/// Seconds in one day, the minimum epoch duration.
pub const DAY_IN_SECONDS: u64 = 86_400;

/// Validates the epoch duration: it must be at least one day.
pub fn validate_epoch_duration(epoch_duration: u64) -> (r: Result<(), ContractError>)
    ensures
        r is Ok <==> epoch_duration >= DAY_IN_SECONDS,
        !(r is Ok) ==> r == Err::<(), ContractError>(
            ContractError::InvalidEpochDuration { min: DAY_IN_SECONDS },
        ),
{
    if epoch_duration >= DAY_IN_SECONDS {
        Ok(())
    } else {
        Err(ContractError::InvalidEpochDuration { min: DAY_IN_SECONDS })
    }
}

} // verus!
