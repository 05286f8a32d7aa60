use vstd::prelude::*;

verus! {

/// Why an operation was rejected. Every error aborts the whole operation.
#[derive(Clone, Copy, Debug, PartialEq, Eq, Structural)]
pub enum StakingError {
    /// The caller lacks the required role.
    Unauthorized,
    /// The asset or the account is absent.
    NotFound,
    /// The reward asset is already registered.
    DuplicateAsset,
    /// A withdrawal exceeds the staked amount.
    InsufficientStake,
    /// Rewards cannot be funded while nothing is staked.
    EmptyPool,
    /// A reward stream of zero duration.
    DivideByZero,
    /// An inbound transfer from an unexpected asset.
    WrongAsset,
    /// A claim by an account with nothing staked.
    NothingStaked,
    /// An amount or a time would not fit its integer type.
    Overflow,
}

} // verus!
