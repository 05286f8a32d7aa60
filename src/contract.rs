//! The operations on the pool: each checks its inputs, runs the accrual step,
//! changes stakes and balances, and returns the instructions to send. An
//! operation that fails leaves the pool as it was.
use crate::engine::{
    accrued_value, accrued_values, accs_not_lower, accumulators, advance_all, idle_all, live_streams,
    new_pending, sync_fits, sync_user, token_accrual_fits, token_advanced, token_idled,
    advance_token, user_synced,
};
use crate::error::StakingError;
use crate::msg::{InstantiateMsg, OutboundMsg, PendingRewardInfo};
use crate::state::{
    RewardStream, RewardTokenInfo, State, UserInfo, UserRewardInfo, lemma_aligned_same_assets,
    same_assets, tokens_unique, user_aligned,
};
use vstd::prelude::*;

verus! {

/// `contract` names none of `tokens`.
pub open spec fn token_absent(tokens: Seq<RewardTokenInfo>, contract: Seq<char>) -> bool {
    forall|i: int| 0 <= i < tokens.len() ==> (#[trigger] tokens[i]).reward_token_contract@ != contract
}

/// `k` is the first ledger of `tokens` for `contract`.
pub open spec fn token_at(tokens: Seq<RewardTokenInfo>, contract: Seq<char>, k: int) -> bool {
    &&& 0 <= k < tokens.len()
    &&& tokens[k].reward_token_contract@ == contract
    &&& token_absent(tokens.take(k), contract)
}

/// The index of the first ledger of `tokens` for `contract`, if any.
pub fn find_token(tokens: &Vec<RewardTokenInfo>, contract: &String) -> (r: Option<usize>)
    ensures
        r is None <==> token_absent(tokens@, contract@),
        r is Some ==> token_at(tokens@, contract@, r->Some_0 as int),
{
    let mut i: usize = 0;
    while i < tokens.len()
        invariant
            i <= tokens@.len(),
            token_absent(tokens@.take(i as int), contract@),
        decreases tokens@.len() - i,
    {
        if tokens[i].reward_token_contract == *contract {
            return Some(i);
        }
        assert(tokens@.take(i + 1) =~= tokens@.take(i as int).push(tokens@[i as int]));
        i = i + 1;
    }
    assert(tokens@.take(i as int) =~= tokens@);
    None
}

/// A new pool for the stake token of `msg`, managed by `sender`, with one
/// empty reward ledger for the reward token of `msg`; and the instruction that
/// registers the pool as a receiver with the stake token.
pub fn instantiate(msg: InstantiateMsg, sender: String, now: u64) -> (r: (State, OutboundMsg))
    ensures
        r.0.lp_token_contract == msg.lp_token_contract,
        r.0.lp_token_hash == msg.lp_token_hash,
        r.0.total_staked == 0,
        r.0.contract_manager == sender,
        r.0.reward_tokens@.len() == 1,
        r.0.reward_tokens@[0].reward_token_contract == msg.erth_contract,
        r.0.reward_tokens@[0].reward_token_hash == msg.erth_hash,
        r.0.reward_tokens@[0].reward_per_token_stored == 0,
        r.0.reward_tokens@[0].last_updated_time == now,
        r.0.reward_tokens@[0].reward_streams@.len() == 0,
        r.1 == (OutboundMsg::RegisterReceive {
            contract: msg.lp_token_contract,
            hash: msg.lp_token_hash,
        }),
        tokens_unique(r.0.reward_tokens@),
{
    let reward = RewardTokenInfo {
        reward_token_contract: msg.erth_contract,
        reward_token_hash: msg.erth_hash,
        reward_per_token_stored: 0,
        last_updated_time: now,
        reward_streams: Vec::new(),
    };
    let mut tokens: Vec<RewardTokenInfo> = Vec::new();
    tokens.push(reward);
    let register = OutboundMsg::RegisterReceive {
        contract: msg.lp_token_contract.clone(),
        hash: msg.lp_token_hash.clone(),
    };
    let state = State {
        lp_token_contract: msg.lp_token_contract,
        lp_token_hash: msg.lp_token_hash,
        total_staked: 0,
        contract_manager: sender,
        reward_tokens: tokens,
    };
    (state, register)
}

/// Registers a new reward asset, by the manager only: appends an empty ledger
/// and returns the instruction that registers the pool with the asset.
pub fn execute_add_reward_token(
    state: &mut State,
    sender: &String,
    reward_token_contract: String,
    reward_token_hash: String,
    now: u64,
) -> (r: Result<OutboundMsg, StakingError>)
    requires
        tokens_unique(old(state).reward_tokens@),
    ensures
        sender@ != old(state).contract_manager@ ==> r == Err::<OutboundMsg, StakingError>(
            StakingError::Unauthorized,
        ),
        sender@ == old(state).contract_manager@ && !token_absent(
            old(state).reward_tokens@,
            reward_token_contract@,
        ) ==> r == Err::<OutboundMsg, StakingError>(StakingError::DuplicateAsset),
        r is Ok <==> sender@ == old(state).contract_manager@ && token_absent(
            old(state).reward_tokens@,
            reward_token_contract@,
        ),
        r is Err ==> *final(state) == *old(state),
        r is Ok ==> {
            let n = old(state).reward_tokens@.len();
            let t = final(state).reward_tokens@[n as int];
            &&& final(state).lp_token_contract == old(state).lp_token_contract
            &&& final(state).lp_token_hash == old(state).lp_token_hash
            &&& final(state).total_staked == old(state).total_staked
            &&& final(state).contract_manager == old(state).contract_manager
            &&& final(state).reward_tokens@.len() == n + 1
            &&& final(state).reward_tokens@.take(n as int) == old(state).reward_tokens@
            &&& t.reward_token_contract == reward_token_contract
            &&& t.reward_token_hash == reward_token_hash
            &&& t.reward_per_token_stored == 0
            &&& t.last_updated_time == now
            &&& t.reward_streams@.len() == 0
            &&& r == Ok::<OutboundMsg, StakingError>(
                OutboundMsg::RegisterReceive { contract: reward_token_contract, hash: reward_token_hash },
            )
        },
        tokens_unique(final(state).reward_tokens@),
{
    if *sender != state.contract_manager {
        return Err(StakingError::Unauthorized);
    }
    if find_token(&state.reward_tokens, &reward_token_contract).is_some() {
        return Err(StakingError::DuplicateAsset);
    }
    let register = OutboundMsg::RegisterReceive {
        contract: reward_token_contract.clone(),
        hash: reward_token_hash.clone(),
    };
    let ghost before = state.reward_tokens@;
    state.reward_tokens.push(
        RewardTokenInfo {
            reward_token_contract,
            reward_token_hash,
            reward_per_token_stored: 0,
            last_updated_time: now,
            reward_streams: Vec::new(),
        },
    );
    assert(state.reward_tokens@.take(before.len() as int) =~= before);
    assert(tokens_unique(state.reward_tokens@)) by {
        assert forall|i: int, j: int| 0 <= i < j < state.reward_tokens@.len() implies
            state.reward_tokens@[i].reward_token_contract@
            != state.reward_tokens@[j].reward_token_contract@ by {
            if j == before.len() {
                assert(before[i] == state.reward_tokens@[i]);
            }
        }
    }
    Ok(register)
}

/// Replaces the code hash of a registered reward asset, by the manager only.
pub fn execute_update_reward_token_hash(
    state: &mut State,
    sender: &String,
    reward_token_contract: &String,
    new_hash: String,
) -> (r: Result<(), StakingError>)
    requires
        tokens_unique(old(state).reward_tokens@),
    ensures
        sender@ != old(state).contract_manager@ ==> r == Err::<(), StakingError>(
            StakingError::Unauthorized,
        ),
        sender@ == old(state).contract_manager@ && token_absent(
            old(state).reward_tokens@,
            reward_token_contract@,
        ) ==> r == Err::<(), StakingError>(StakingError::NotFound),
        r is Ok <==> sender@ == old(state).contract_manager@ && !token_absent(
            old(state).reward_tokens@,
            reward_token_contract@,
        ),
        r is Err ==> *final(state) == *old(state),
        r is Ok ==> {
            &&& final(state).lp_token_contract == old(state).lp_token_contract
            &&& final(state).lp_token_hash == old(state).lp_token_hash
            &&& final(state).total_staked == old(state).total_staked
            &&& final(state).contract_manager == old(state).contract_manager
            &&& final(state).reward_tokens@.len() == old(state).reward_tokens@.len()
            &&& forall|i: int|
                0 <= i < old(state).reward_tokens@.len() ==> {
                    let o = old(state).reward_tokens@[i];
                    let t = #[trigger] final(state).reward_tokens@[i];
                    if o.reward_token_contract@ == reward_token_contract@ {
                        &&& t.reward_token_contract == o.reward_token_contract
                        &&& t.reward_token_hash == new_hash
                        &&& t.reward_per_token_stored == o.reward_per_token_stored
                        &&& t.last_updated_time == o.last_updated_time
                        &&& t.reward_streams == o.reward_streams
                    } else {
                        t == o
                    }
                }
        },
        tokens_unique(final(state).reward_tokens@),
{
    if *sender != state.contract_manager {
        return Err(StakingError::Unauthorized);
    }
    match find_token(&state.reward_tokens, reward_token_contract) {
        None => Err(StakingError::NotFound),
        Some(k) => {
            let ghost before = state.reward_tokens@;
            let mut t = state.reward_tokens.remove(k);
            t.reward_token_hash = new_hash;
            state.reward_tokens.insert(k, t);
            assert(state.reward_tokens@ =~= before.update(k as int, t));
            assert forall|i: int| 0 <= i < before.len() && i != k implies
                before[i].reward_token_contract@ != reward_token_contract@ by {
                if i < k {
                    assert(before.take(k as int)[i] == before[i]);
                }
            }
            Ok(())
        },
    }
}

/// The ledger of `t` after funding at `now`: advanced to `now`, then given
/// the new stream.
pub open spec fn token_funded(
    t: RewardTokenInfo,
    r: RewardTokenInfo,
    total_staked: u128,
    amount: u128,
    release_duration: u64,
    now: u64,
) -> bool {
    &&& r.reward_token_contract@ == t.reward_token_contract@
    &&& r.reward_token_hash@ == t.reward_token_hash@
    &&& r.reward_per_token_stored == accrued_value(t, total_staked, now)
    &&& r.last_updated_time == now
    &&& r.reward_streams@ == live_streams(t.reward_streams@, now).push(
        RewardStream {
            total_rewards: amount,
            release_rate: amount / (release_duration as u128),
            start_time: now,
            end_time: (now + release_duration) as u64,
        },
    )
}

/// Funds a reward stream of `amount` released over `release_duration`
/// seconds from `now`, for the reward asset `token` that made the transfer.
/// The asset's ledger is first advanced to `now`.
pub fn receive_add_rewards(
    state: &mut State,
    token: &String,
    amount: u128,
    release_duration: u64,
    now: u64,
) -> (r: Result<(), StakingError>)
    requires
        tokens_unique(old(state).reward_tokens@),
    ensures
        old(state).total_staked == 0 ==> r == Err::<(), StakingError>(StakingError::EmptyPool),
        old(state).total_staked > 0 && token_absent(old(state).reward_tokens@, token@) ==> r
            == Err::<(), StakingError>(StakingError::NotFound),
        old(state).total_staked > 0 && !token_absent(old(state).reward_tokens@, token@)
            && release_duration == 0 ==> r == Err::<(), StakingError>(StakingError::DivideByZero),
        r is Ok <==> {
            &&& old(state).total_staked > 0
            &&& release_duration > 0
            &&& now + release_duration <= u64::MAX
            &&& exists|k: int|
                token_at(old(state).reward_tokens@, token@, k) && token_accrual_fits(
                    old(state).reward_tokens@[k],
                    old(state).total_staked,
                    now,
                )
        },
        r is Err ==> *final(state) == *old(state),
        accs_not_lower(old(state).reward_tokens@, final(state).reward_tokens@),
        r is Ok ==> {
            &&& final(state).lp_token_contract == old(state).lp_token_contract
            &&& final(state).lp_token_hash == old(state).lp_token_hash
            &&& final(state).total_staked == old(state).total_staked
            &&& final(state).contract_manager == old(state).contract_manager
            &&& final(state).reward_tokens@.len() == old(state).reward_tokens@.len()
            &&& forall|i: int|
                0 <= i < old(state).reward_tokens@.len() ==> {
                    let o = old(state).reward_tokens@[i];
                    let t = #[trigger] final(state).reward_tokens@[i];
                    if o.reward_token_contract@ == token@ {
                        token_funded(o, t, old(state).total_staked, amount, release_duration, now)
                    } else {
                        t == o
                    }
                }
        },
        tokens_unique(final(state).reward_tokens@),
{
    if state.total_staked == 0 {
        return Err(StakingError::EmptyPool);
    }
    let k = match find_token(&state.reward_tokens, token) {
        Some(k) => k,
        None => {
            return Err(StakingError::NotFound);
        },
    };
    if release_duration == 0 {
        return Err(StakingError::DivideByZero);
    }
    let end_time = match now.checked_add(release_duration) {
        Some(v) => v,
        None => {
            return Err(StakingError::Overflow);
        },
    };
    let mut t = advance_token(&state.reward_tokens[k], state.total_staked, now)?;
    t.reward_streams.push(
        RewardStream {
            total_rewards: amount,
            release_rate: amount / (release_duration as u128),
            start_time: now,
            end_time,
        },
    );
    let ghost before = state.reward_tokens@;
    state.reward_tokens.set(k, t);
    assert forall|i: int| 0 <= i < before.len() && i != k implies
        before[i].reward_token_contract@ != token@ by {
        if i < k {
            assert(before.take(k as int)[i] == before[i]);
        }
    }
    Ok(())
}

/// The accumulators that the accrual step at `now` leaves in `s`: advanced
/// when anything is staked, as they are otherwise.
pub open spec fn current_accs(s: State, now: u64) -> Seq<int> {
    if s.total_staked == 0 {
        accumulators(s.reward_tokens@)
    } else {
        accrued_values(s.reward_tokens@, s.total_staked, now)
    }
}

/// The accrual step at `now`, followed by a change of `u`'s stake to
/// `staked`, stays within the integer types.
pub open spec fn settle_fits(s: State, u: UserInfo, staked: u128, now: u64) -> bool {
    &&& s.total_staked > 0 ==> forall|i: int|
        0 <= i < s.reward_tokens@.len() ==> token_accrual_fits(
            #[trigger] s.reward_tokens@[i],
            s.total_staked,
            now,
        )
    &&& sync_fits(u, current_accs(s, now), s.total_staked > 0, staked)
}

/// `r` holds the ledgers of `t` after the accrual step at `now`.
pub open spec fn ledgers_current(
    t: Seq<RewardTokenInfo>,
    r: Seq<RewardTokenInfo>,
    total_staked: u128,
    now: u64,
) -> bool {
    if total_staked == 0 {
        r == t
    } else {
        &&& r.len() == t.len()
        &&& forall|i: int|
            0 <= i < t.len() ==> token_advanced(t[i], #[trigger] r[i], total_staked, now)
    }
}

/// `r` holds the ledgers of `t` brought to `now` before a deposit: advanced
/// when anything is staked; otherwise moved to `now` with nothing credited.
pub open spec fn ledgers_caught_up(
    t: Seq<RewardTokenInfo>,
    r: Seq<RewardTokenInfo>,
    total_staked: u128,
    now: u64,
) -> bool {
    if total_staked == 0 {
        &&& r.len() == t.len()
        &&& forall|i: int| 0 <= i < t.len() ==> token_idled(t[i], #[trigger] r[i], now)
    } else {
        ledgers_current(t, r, total_staked, now)
    }
}

/// `r` is `s` with new ledgers `tokens` and a new total.
pub open spec fn pool_changed(s: State, r: State, tokens: Seq<RewardTokenInfo>, total: int) -> bool {
    &&& r.lp_token_contract == s.lp_token_contract
    &&& r.lp_token_hash == s.lp_token_hash
    &&& r.total_staked == total
    &&& r.contract_manager == s.contract_manager
    &&& r.reward_tokens@ == tokens
}

/// What each of `u`'s positions holds after the accrual step at `now`.
pub open spec fn settled_pendings(s: State, u: UserInfo, now: u64) -> Seq<int> {
    Seq::new(
        s.reward_tokens@.len(),
        |i: int| new_pending(u, i, current_accs(s, now)[i], s.total_staked > 0),
    )
}

/// The transfers that pay out `amounts[i]` of reward asset `tokens[i]` to
/// `recipient`, for each nonzero amount, in order.
pub open spec fn transfer_msgs(amounts: Seq<int>, tokens: Seq<RewardTokenInfo>, recipient: String) -> Seq<
    OutboundMsg,
>
    decreases amounts.len(),
{
    if amounts.len() == 0 {
        Seq::empty()
    } else {
        let i = amounts.len() - 1;
        let r = transfer_msgs(amounts.drop_last(), tokens, recipient);
        if amounts[i] > 0 {
            r.push(
                OutboundMsg::Transfer {
                    contract: tokens[i].reward_token_contract,
                    hash: tokens[i].reward_token_hash,
                    recipient,
                    amount: amounts[i] as u128,
                },
            )
        } else {
            r
        }
    }
}

/// The pending amount of each of `u`'s positions.
pub open spec fn pendings(u: UserInfo) -> Seq<int> {
    u.rewards_info@.map_values(|p: UserRewardInfo| p.pending_rewards as int)
}

/// The accrual step at `now` on `state` and `user`, with the user's stake then
/// set to `staked`; nothing is changed, the new ledgers are returned when
/// they moved, and the new account. With `catch_up`, ledgers of a pool with
/// nothing staked are brought to `now` without credit.
fn settle(state: &State, user: &UserInfo, staked: u128, now: u64, catch_up: bool) -> (r: Result<
    (Option<Vec<RewardTokenInfo>>, UserInfo),
    StakingError,
>)
    requires
        user_aligned(*user, state.reward_tokens@),
    ensures
        r is Ok <==> settle_fits(*state, *user, staked, now),
        r is Err ==> r == Err::<(Option<Vec<RewardTokenInfo>>, UserInfo), StakingError>(
            StakingError::Overflow,
        ),
        r is Ok ==> {
            let tokens = match r->Ok_0.0 {
                Some(t) => t@,
                None => state.reward_tokens@,
            };
            &&& (r->Ok_0.0 is Some <==> state.total_staked > 0 || catch_up)
            &&& catch_up ==> ledgers_caught_up(state.reward_tokens@, tokens, state.total_staked, now)
            &&& !catch_up ==> ledgers_current(state.reward_tokens@, tokens, state.total_staked, now)
            &&& accs_not_lower(state.reward_tokens@, tokens)
            &&& same_assets(state.reward_tokens@, tokens)
            &&& accumulators(tokens) == current_accs(*state, now)
            &&& user_synced(*user, tokens, r->Ok_0.1, state.total_staked > 0, staked)
            &&& user_aligned(r->Ok_0.1, tokens)
        },
{
    if state.total_staked > 0 {
        let tokens = advance_all(&state.reward_tokens, state.total_staked, now)?;
        assert(accumulators(tokens@) =~= accrued_values(state.reward_tokens@, state.total_staked, now));
        proof {
            lemma_aligned_same_assets(*user, state.reward_tokens@, tokens@);
        }
        let synced = sync_user(user, &tokens, true, staked)?;
        Ok((Some(tokens), synced))
    } else if catch_up {
        let tokens = idle_all(&state.reward_tokens, now);
        proof {
            lemma_aligned_same_assets(*user, state.reward_tokens@, tokens@);
        }
        let synced = sync_user(user, &tokens, false, staked)?;
        Ok((Some(tokens), synced))
    } else {
        let synced = sync_user(user, &state.reward_tokens, false, staked)?;
        Ok((None, synced))
    }
}

/// Pays out every nonzero pending amount of `user_info` to `user_addr`: one
/// transfer per position, in order, with the ledger's contract and hash; the
/// pending amounts become zero.
pub fn claim_rewards_internal(user_addr: &String, user_info: &mut UserInfo, state: &State) -> (r:
    Vec<OutboundMsg>)
    requires
        user_aligned(*old(user_info), state.reward_tokens@),
    ensures
        r@ == transfer_msgs(pendings(*old(user_info)), state.reward_tokens@, *user_addr),
        final(user_info).amount_staked == old(user_info).amount_staked,
        final(user_info).rewards_info@.len() == old(user_info).rewards_info@.len(),
        forall|i: int|
            0 <= i < old(user_info).rewards_info@.len() ==> {
                let p = #[trigger] final(user_info).rewards_info@[i];
                &&& p.reward_token_contract == old(user_info).rewards_info@[i].reward_token_contract
                &&& p.reward_debt == old(user_info).rewards_info@[i].reward_debt
                &&& p.pending_rewards == 0
            },
        user_aligned(*final(user_info), state.reward_tokens@),
{
    let ghost amounts = pendings(*user_info);
    let mut messages: Vec<OutboundMsg> = Vec::new();
    let mut out: Vec<UserRewardInfo> = Vec::new();
    let mut i: usize = 0;
    while i < user_info.rewards_info.len()
        invariant
            i <= user_info.rewards_info@.len(),
            user_aligned(*user_info, state.reward_tokens@),
            amounts == pendings(*user_info),
            messages@ == transfer_msgs(amounts.take(i as int), state.reward_tokens@, *user_addr),
            out@.len() == i,
            forall|k: int|
                0 <= k < i ==> {
                    let p = #[trigger] out@[k];
                    &&& p.reward_token_contract == user_info.rewards_info@[k].reward_token_contract
                    &&& p.reward_debt == user_info.rewards_info@[k].reward_debt
                    &&& p.pending_rewards == 0
                },
        decreases user_info.rewards_info@.len() - i,
    {
        let info = &user_info.rewards_info[i];
        assert(amounts.take(i + 1).drop_last() =~= amounts.take(i as int));
        if info.pending_rewards > 0 {
            let token = &state.reward_tokens[i];
            messages.push(
                OutboundMsg::Transfer {
                    contract: token.reward_token_contract.clone(),
                    hash: token.reward_token_hash.clone(),
                    recipient: user_addr.clone(),
                    amount: info.pending_rewards,
                },
            );
        }
        out.push(
            UserRewardInfo {
                reward_token_contract: info.reward_token_contract.clone(),
                reward_debt: info.reward_debt,
                pending_rewards: 0,
            },
        );
        i = i + 1;
    }
    assert(amounts.take(i as int) =~= amounts);
    user_info.rewards_info = out;
    messages
}

/// `r` and `nu` are the pool and the account after `u` deposited `amount` into
/// `s` at `now`.
pub open spec fn deposit_outcome(s: State, u: UserInfo, amount: u128, now: u64, r: State, nu: UserInfo) -> bool {
    &&& pool_changed(s, r, r.reward_tokens@, s.total_staked + amount)
    &&& ledgers_caught_up(s.reward_tokens@, r.reward_tokens@, s.total_staked, now)
    &&& user_synced(u, r.reward_tokens@, nu, s.total_staked > 0, (u.amount_staked + amount) as u128)
    &&& nu.amount_staked == u.amount_staked + amount
}

/// `r` and `nu` are the pool and the account after `u` withdrew `amount` from
/// `s` at `now` and was paid every pending reward.
pub open spec fn withdraw_outcome(s: State, u: UserInfo, amount: u128, now: u64, r: State, nu: UserInfo) -> bool {
    &&& pool_changed(s, r, r.reward_tokens@, s.total_staked - amount)
    &&& ledgers_current(s.reward_tokens@, r.reward_tokens@, s.total_staked, now)
    &&& nu.amount_staked == u.amount_staked - amount
    &&& nu.rewards_info@.len() == r.reward_tokens@.len()
    &&& forall|i: int|
        0 <= i < nu.rewards_info@.len() ==> {
            let p = #[trigger] nu.rewards_info@[i];
            &&& p.reward_token_contract@ == r.reward_tokens@[i].reward_token_contract@
            &&& p.reward_debt == nu.amount_staked * r.reward_tokens@[i].reward_per_token_stored
            &&& p.pending_rewards == 0
        }
    &&& user_aligned(nu, r.reward_tokens@)
}

/// A deposit of `amount` stake tokens by the holder of `user`, made through
/// the token `token`: the accrual step at `now`, then the stake grows.
pub fn receive_deposit(
    state: &mut State,
    user: &mut UserInfo,
    token: &String,
    amount: u128,
    now: u64,
) -> (r: Result<(), StakingError>)
    requires
        user_aligned(*old(user), old(state).reward_tokens@),
    ensures
        token@ != old(state).lp_token_contract@ ==> r == Err::<(), StakingError>(
            StakingError::WrongAsset,
        ),
        r is Ok <==> {
            &&& token@ == old(state).lp_token_contract@
            &&& old(user).amount_staked + amount <= u128::MAX
            &&& old(state).total_staked + amount <= u128::MAX
            &&& settle_fits(*old(state), *old(user), (old(user).amount_staked + amount) as u128, now)
        },
        r is Err && token@ == old(state).lp_token_contract@ ==> r == Err::<(), StakingError>(
            StakingError::Overflow,
        ),
        r is Err ==> *final(state) == *old(state) && *final(user) == *old(user),
        r is Ok ==> deposit_outcome(*old(state), *old(user), amount, now, *final(state), *final(user)),
        accs_not_lower(old(state).reward_tokens@, final(state).reward_tokens@),
        user_aligned(*final(user), final(state).reward_tokens@),
{
    if *token != state.lp_token_contract {
        return Err(StakingError::WrongAsset);
    }
    let staked = match user.amount_staked.checked_add(amount) {
        Some(v) => v,
        None => {
            return Err(StakingError::Overflow);
        },
    };
    let total = match state.total_staked.checked_add(amount) {
        Some(v) => v,
        None => {
            return Err(StakingError::Overflow);
        },
    };
    let (tokens, synced) = settle(state, user, staked, now, true)?;
    match tokens {
        Some(t) => {
            state.reward_tokens = t;
        },
        None => {},
    }
    state.total_staked = total;
    *user = synced;
    Ok(())
}

/// A withdrawal of `amount` staked tokens by `sender`, whose account is
/// `user`: the accrual step at `now`, the payout of every pending reward,
/// then the stake shrinks. Returns the new account and the transfers.
pub fn execute_withdraw(
    state: &mut State,
    user: Option<UserInfo>,
    sender: &String,
    amount: u128,
    now: u64,
) -> (r: Result<(UserInfo, Vec<OutboundMsg>), StakingError>)
    requires
        user is Some ==> user_aligned(user->Some_0, old(state).reward_tokens@),
    ensures
        user is None ==> r == Err::<(UserInfo, Vec<OutboundMsg>), StakingError>(
            StakingError::NotFound,
        ),
        user is Some && user->Some_0.amount_staked < amount ==> r == Err::<
            (UserInfo, Vec<OutboundMsg>),
            StakingError,
        >(StakingError::InsufficientStake),
        r is Ok <==> {
            &&& user is Some
            &&& user->Some_0.amount_staked >= amount
            &&& old(state).total_staked >= amount
            &&& settle_fits(
                *old(state),
                user->Some_0,
                (user->Some_0.amount_staked - amount) as u128,
                now,
            )
        },
        r is Err && user is Some && user->Some_0.amount_staked >= amount ==> r == Err::<
            (UserInfo, Vec<OutboundMsg>),
            StakingError,
        >(StakingError::Overflow),
        r is Err ==> *final(state) == *old(state),
        r is Ok ==> withdraw_outcome(
            *old(state),
            user->Some_0,
            amount,
            now,
            *final(state),
            r->Ok_0.0,
        ),
        r is Ok ==> r->Ok_0.1@ == transfer_msgs(
            settled_pendings(*old(state), user->Some_0, now),
            final(state).reward_tokens@,
            *sender,
        ),
        accs_not_lower(old(state).reward_tokens@, final(state).reward_tokens@),
{
    let user = match user {
        Some(u) => u,
        None => {
            return Err(StakingError::NotFound);
        },
    };
    if user.amount_staked < amount {
        return Err(StakingError::InsufficientStake);
    }
    if state.total_staked < amount {
        return Err(StakingError::Overflow);
    }
    let staked = user.amount_staked - amount;
    let (tokens, mut synced) = settle(state, &user, staked, now, false)?;
    match tokens {
        Some(t) => {
            state.reward_tokens = t;
        },
        None => {},
    }
    state.total_staked = state.total_staked - amount;
    assert(pendings(synced) =~= settled_pendings(*old(state), user, now));
    let messages = claim_rewards_internal(sender, &mut synced, state);
    Ok((synced, messages))
}

/// A claim by `sender`, whose account is `user`: the accrual step at `now`,
/// then the payout of every pending reward. Returns the new account and the
/// transfers.
pub fn execute_claim_rewards(
    state: &mut State,
    user: Option<UserInfo>,
    sender: &String,
    now: u64,
) -> (r: Result<(UserInfo, Vec<OutboundMsg>), StakingError>)
    requires
        user is Some ==> user_aligned(user->Some_0, old(state).reward_tokens@),
    ensures
        user is None ==> r == Err::<(UserInfo, Vec<OutboundMsg>), StakingError>(
            StakingError::NotFound,
        ),
        user is Some && user->Some_0.amount_staked == 0 ==> r == Err::<
            (UserInfo, Vec<OutboundMsg>),
            StakingError,
        >(StakingError::NothingStaked),
        r is Ok <==> {
            &&& user is Some
            &&& user->Some_0.amount_staked > 0
            &&& settle_fits(*old(state), user->Some_0, user->Some_0.amount_staked, now)
        },
        r is Err && user is Some && user->Some_0.amount_staked > 0 ==> r == Err::<
            (UserInfo, Vec<OutboundMsg>),
            StakingError,
        >(StakingError::Overflow),
        r is Err ==> *final(state) == *old(state),
        accs_not_lower(old(state).reward_tokens@, final(state).reward_tokens@),
        r is Ok ==> {
            let u = user->Some_0;
            let nu = r->Ok_0.0;
            &&& pool_changed(
                *old(state),
                *final(state),
                final(state).reward_tokens@,
                old(state).total_staked as int,
            )
            &&& ledgers_current(
                old(state).reward_tokens@,
                final(state).reward_tokens@,
                old(state).total_staked,
                now,
            )
            &&& nu.amount_staked == u.amount_staked
            &&& nu.rewards_info@.len() == final(state).reward_tokens@.len()
            &&& forall|i: int|
                0 <= i < nu.rewards_info@.len() ==> {
                    let p = #[trigger] nu.rewards_info@[i];
                    &&& p.reward_token_contract@ == final(state).reward_tokens@[i].reward_token_contract@
                    &&& p.reward_debt == nu.amount_staked
                        * final(state).reward_tokens@[i].reward_per_token_stored
                    &&& p.pending_rewards == 0
                }
            &&& r->Ok_0.1@ == transfer_msgs(
                settled_pendings(*old(state), u, now),
                final(state).reward_tokens@,
                *sender,
            )
            &&& user_aligned(nu, final(state).reward_tokens@)
        },
{
    let user = match user {
        Some(u) => u,
        None => {
            return Err(StakingError::NotFound);
        },
    };
    if user.amount_staked == 0 {
        return Err(StakingError::NothingStaked);
    }
    let (tokens, mut synced) = settle(state, &user, user.amount_staked, now, false)?;
    match tokens {
        Some(t) => {
            state.reward_tokens = t;
        },
        None => {},
    }
    assert(pendings(synced) =~= settled_pendings(*old(state), user, now));
    let messages = claim_rewards_internal(sender, &mut synced, state);
    Ok((synced, messages))
}

/// The rewards `user` could claim at `now`: the accrual step run on scratch
/// copies, one entry per position that it leaves. Nothing is stored.
pub fn query_pending_rewards(state: &State, user: Option<UserInfo>, now: u64) -> (r: Result<
    Vec<PendingRewardInfo>,
    StakingError,
>)
    requires
        user is Some ==> user_aligned(user->Some_0, state.reward_tokens@),
    ensures
        user is None ==> r == Err::<Vec<PendingRewardInfo>, StakingError>(StakingError::NotFound),
        r is Ok <==> user is Some && (state.total_staked == 0 || settle_fits(
            *state,
            user->Some_0,
            user->Some_0.amount_staked,
            now,
        )),
        r is Err && user is Some ==> r == Err::<Vec<PendingRewardInfo>, StakingError>(
            StakingError::Overflow,
        ),
        r is Ok ==> {
            let u = user->Some_0;
            let amounts = settled_pendings(*state, u, now);
            let n = if state.total_staked > 0 {
                state.reward_tokens@.len()
            } else {
                u.rewards_info@.len()
            };
            &&& r->Ok_0@.len() == n
            &&& forall|i: int|
                0 <= i < n ==> {
                    let e = #[trigger] r->Ok_0@[i];
                    &&& e.reward_token_contract@ == state.reward_tokens@[i].reward_token_contract@
                    &&& e.pending_rewards == amounts[i]
                }
        },
{
    let user = match user {
        Some(u) => u,
        None => {
            return Err(StakingError::NotFound);
        },
    };
    let synced = if state.total_staked > 0 {
        let (_, synced) = settle(state, &user, user.amount_staked, now, false)?;
        synced
    } else {
        user
    };
    let mut out: Vec<PendingRewardInfo> = Vec::new();
    let mut i: usize = 0;
    while i < synced.rewards_info.len()
        invariant
            i <= synced.rewards_info@.len(),
            out@.len() == i,
            forall|k: int|
                0 <= k < i ==> {
                    let e = #[trigger] out@[k];
                    &&& e.reward_token_contract@ == synced.rewards_info@[k].reward_token_contract@
                    &&& e.pending_rewards == synced.rewards_info@[k].pending_rewards
                },
        decreases synced.rewards_info@.len() - i,
    {
        let p = &synced.rewards_info[i];
        out.push(
            PendingRewardInfo {
                reward_token_contract: p.reward_token_contract.clone(),
                pending_rewards: p.pending_rewards,
            },
        );
        i = i + 1;
    }
    Ok(out)
}

} // verus!
