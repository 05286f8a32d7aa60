use vstd::prelude::*;

verus! {

/// One funding event: `release_rate` units are released each second from
/// `start_time` until `end_time`.
#[derive(Clone, Copy, Debug, PartialEq, Eq, Structural)]
pub struct RewardStream {
    pub total_rewards: u128,
    pub release_rate: u128,
    pub start_time: u64,
    pub end_time: u64,
}

/// The ledger of one reward asset.
#[derive(Clone, Debug, PartialEq, Eq)]
pub struct RewardTokenInfo {
    pub reward_token_contract: String,
    pub reward_token_hash: String,
    /// Cumulative reward per staked unit.
    pub reward_per_token_stored: u128,
    /// The time through which `reward_per_token_stored` has been advanced.
    pub last_updated_time: u64,
    pub reward_streams: Vec<RewardStream>,
}

/// The pool: the stake asset, the total staked, the manager and the reward ledgers.
#[derive(Clone, Debug, PartialEq, Eq)]
pub struct State {
    pub lp_token_contract: String,
    pub lp_token_hash: String,
    pub total_staked: u128,
    pub contract_manager: String,
    pub reward_tokens: Vec<RewardTokenInfo>,
}

/// A user's position in one reward asset.
#[derive(Clone, Debug, PartialEq, Eq)]
pub struct UserRewardInfo {
    pub reward_token_contract: String,
    /// The user's share of the accumulator at the last settlement.
    pub reward_debt: u128,
    /// Accrued and not yet paid out.
    pub pending_rewards: u128,
}

/// A depositor's account. Its `rewards_info[i]` is the position in the pool's
/// `reward_tokens[i]`; positions are created lazily, so the list may be shorter.
#[derive(Clone, Debug, PartialEq, Eq)]
pub struct UserInfo {
    pub amount_staked: u128,
    pub rewards_info: Vec<UserRewardInfo>,
}

/// No two reward ledgers share an asset.
pub open spec fn tokens_unique(tokens: Seq<RewardTokenInfo>) -> bool {
    forall|i: int, j: int|
        0 <= i < j < tokens.len() ==> tokens[i].reward_token_contract@
            != tokens[j].reward_token_contract@
}

/// The user's positions follow the pool's reward ledgers index by index.
pub open spec fn user_aligned(user: UserInfo, tokens: Seq<RewardTokenInfo>) -> bool {
    &&& user.rewards_info@.len() <= tokens.len()
    &&& forall|i: int|
        0 <= i < user.rewards_info@.len() ==> (#[trigger] user.rewards_info@[i]).reward_token_contract@
            == tokens[i].reward_token_contract@
}

/// `r` holds the same assets as `t`, index by index.
pub open spec fn same_assets(t: Seq<RewardTokenInfo>, r: Seq<RewardTokenInfo>) -> bool {
    &&& r.len() == t.len()
    &&& forall|i: int|
        0 <= i < t.len() ==> (#[trigger] r[i]).reward_token_contract@
            == t[i].reward_token_contract@
}

/// Positions that follow `t` follow any ledgers with the same assets.
pub proof fn lemma_aligned_same_assets(u: UserInfo, t: Seq<RewardTokenInfo>, r: Seq<RewardTokenInfo>)
    requires
        user_aligned(u, t),
        same_assets(t, r),
    ensures
        user_aligned(u, r),
{
    assert forall|i: int| 0 <= i < u.rewards_info@.len() implies
        (#[trigger] u.rewards_info@[i]).reward_token_contract@ == r[i].reward_token_contract@ by {
        assert(r[i].reward_token_contract@ == t[i].reward_token_contract@);
    }
}

impl UserInfo {
    /// An account with nothing staked and no positions.
    pub fn empty() -> (r: UserInfo)
        ensures
            r.amount_staked == 0,
            r.rewards_info@.len() == 0,
    {
        UserInfo { amount_staked: 0, rewards_info: Vec::new() }
    }
}

/// Whether no two of `tokens` share an asset.
pub fn has_unique_tokens(tokens: &Vec<RewardTokenInfo>) -> (r: bool)
    ensures
        r == tokens_unique(tokens@),
{
    let mut j: usize = 0;
    while j < tokens.len()
        invariant
            j <= tokens@.len(),
            forall|a: int, b: int|
                0 <= a < b < j ==> tokens@[a].reward_token_contract@
                    != tokens@[b].reward_token_contract@,
        decreases tokens@.len() - j,
    {
        let mut i: usize = 0;
        while i < j
            invariant
                i <= j < tokens@.len(),
                forall|a: int, b: int|
                    0 <= a < b < j ==> tokens@[a].reward_token_contract@
                        != tokens@[b].reward_token_contract@,
                forall|a: int|
                    0 <= a < i ==> tokens@[a].reward_token_contract@
                        != tokens@[j as int].reward_token_contract@,
            decreases j - i,
        {
            if tokens[i].reward_token_contract == tokens[j].reward_token_contract {
                return false;
            }
            i = i + 1;
        }
        j = j + 1;
    }
    true
}

/// Whether `user`'s positions follow `tokens` index by index.
pub fn is_aligned(user: &UserInfo, tokens: &Vec<RewardTokenInfo>) -> (r: bool)
    ensures
        r == user_aligned(*user, tokens@),
{
    if user.rewards_info.len() > tokens.len() {
        return false;
    }
    let mut i: usize = 0;
    while i < user.rewards_info.len()
        invariant
            i <= user.rewards_info@.len() <= tokens@.len(),
            forall|k: int|
                0 <= k < i ==> (#[trigger] user.rewards_info@[k]).reward_token_contract@
                    == tokens@[k].reward_token_contract@,
        decreases user.rewards_info@.len() - i,
    {
        if user.rewards_info[i].reward_token_contract != tokens[i].reward_token_contract {
            return false;
        }
        i = i + 1;
    }
    true
}

} // verus!
