//! The failures an operation of the pool can report.

use vstd::prelude::*;
use vstd::std_specs::convert::FromSpecImpl;

verus! {

/// A failure reported by the fungible token that holds the staked asset.
#[derive(Debug, PartialEq, Eq)]
pub enum PSP22Error {
    /// A restriction of the token's own.
    Custom(String),
    /// The sender owns less than the amount to transfer.
    InsufficientBalance,
    /// The spender was granted less than the amount to transfer.
    InsufficientAllowance,
    /// The recipient is the zero address.
    ZeroRecipientAddress,
    /// The sender is the zero address.
    ZeroSenderAddress,
    /// The recipient refused the transfer.
    SafeTransferCheckFailed(String),
}

/// A failure reported by the token that records reputation.
#[derive(Debug, PartialEq, Eq)]
pub enum PSP37Error {
    /// A restriction of the token's own.
    Custom(String),
    /// The account owns less than the amount asked for.
    InsufficientBalance,
    /// The recipient is the zero address.
    TransferToZeroAddress,
    /// The token does not exist.
    TokenNotExists,
    /// The caller may not do this.
    NotAllowed,
    /// The caller tried to approve itself.
    SelfApprove,
    /// The recipient refused the transfer.
    SafeTransferCheckFailed(String),
}

/// Why an operation of the pool failed. A failed operation leaves the pool as it was.
#[derive(Debug, PartialEq, Eq)]
pub enum StakingError {
    /// The staker has not allowed the pool to take the amount.
    InsufficientAllowance,
    /// The staker owns less than the amount to stake, or has staked less than the amount to
    /// withdraw.
    InsufficientBalance,
    /// There is no reward to claim.
    NoStakingRewards,
    /// The amount is zero.
    ZeroAmount,
    /// The staked asset's token failed.
    PSP22Error(PSP22Error),
    /// The reputation token failed.
    PSP37Error(PSP37Error),
    /// A number left the range of its type.
    OverflowError,
    /// A division by zero. No operation of the pool reports it: every divisor is either a
    /// constant or known not to be zero when the division is made.
    DivideByZero,
}

impl From<PSP22Error> for StakingError {
    fn from(error: PSP22Error) -> (wrapped: StakingError) {
        StakingError::PSP22Error(error)
    }
}

impl FromSpecImpl<PSP22Error> for StakingError {
    open spec fn obeys_from_spec() -> bool {
        true
    }

    open spec fn from_spec(error: PSP22Error) -> StakingError {
        StakingError::PSP22Error(error)
    }
}

impl From<PSP37Error> for StakingError {
    fn from(error: PSP37Error) -> (wrapped: StakingError) {
        StakingError::PSP37Error(error)
    }
}

impl FromSpecImpl<PSP37Error> for StakingError {
    open spec fn obeys_from_spec() -> bool {
        true
    }

    open spec fn from_spec(error: PSP37Error) -> StakingError {
        StakingError::PSP37Error(error)
    }
}

} // verus!
