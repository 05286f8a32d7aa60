use vstd::prelude::*;

verus! {

/// What a new pool is created from.
#[derive(Clone, Debug, PartialEq, Eq)]
pub struct InstantiateMsg {
    pub lp_token_contract: String,
    pub lp_token_hash: String,
    pub erth_contract: String,
    pub erth_hash: String,
}

/// What an inbound transfer asks for.
#[derive(Clone, Copy, Debug, PartialEq, Eq, Structural)]
pub enum ReceiveMsg {
    Deposit,
    AddRewards { release_duration: u64 },
}

/// The read-only requests.
#[derive(Clone, Debug, PartialEq, Eq)]
pub enum QueryMsg {
    QueryState,
    QueryPendingRewards { user: String },
}

/// An instruction for the token-transfer collaborator.
#[derive(Clone, Debug, PartialEq, Eq)]
pub enum OutboundMsg {
    /// Register this pool as a receiver with the token at `contract`.
    RegisterReceive { contract: String, hash: String },
    /// Send `amount` of the token at `contract` to `recipient`.
    Transfer { contract: String, hash: String, recipient: String, amount: u128 },
}

/// A user's pending amount of one reward asset.
#[derive(Clone, Debug, PartialEq, Eq)]
pub struct PendingRewardInfo {
    pub reward_token_contract: String,
    pub pending_rewards: u128,
}

} // verus!
