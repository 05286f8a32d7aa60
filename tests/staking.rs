use lp_staking::contract::{
    execute_add_reward_token, execute_claim_rewards, execute_update_reward_token_hash,
    execute_withdraw, instantiate, query_pending_rewards, receive_add_rewards, receive_deposit,
};
use lp_staking::engine::update_rewards;
use lp_staking::error::StakingError;
use lp_staking::msg::{InstantiateMsg, OutboundMsg};
use lp_staking::state::{State, UserInfo, UserRewardInfo};

const T0: u64 = 1_000;

fn s(x: &str) -> String {
    x.to_string()
}

fn new_pool() -> State {
    let msg = InstantiateMsg {
        lp_token_contract: s("lp"),
        lp_token_hash: s("lp_hash"),
        erth_contract: s("erth"),
        erth_hash: s("erth_hash"),
    };
    let (state, register) = instantiate(msg, s("manager"), T0);
    assert_eq!(register, OutboundMsg::RegisterReceive { contract: s("lp"), hash: s("lp_hash") });
    state
}

fn deposit(state: &mut State, user: &mut UserInfo, amount: u128, now: u64) {
    receive_deposit(state, user, &s("lp"), amount, now).unwrap();
}

fn pending_of(state: &State, user: &UserInfo, now: u64) -> Vec<u128> {
    query_pending_rewards(state, Some(user.clone()), now)
        .unwrap()
        .iter()
        .map(|p| p.pending_rewards)
        .collect()
}

#[test]
fn instantiate_creates_empty_pool() {
    let state = new_pool();
    assert_eq!(state.total_staked, 0);
    assert_eq!(state.contract_manager, "manager");
    assert_eq!(state.reward_tokens.len(), 1);
    assert_eq!(state.reward_tokens[0].reward_token_contract, "erth");
    assert_eq!(state.reward_tokens[0].reward_per_token_stored, 0);
    assert_eq!(state.reward_tokens[0].last_updated_time, T0);
    assert!(state.reward_tokens[0].reward_streams.is_empty());
}

#[test]
fn single_staker_half_stream() {
    let mut state = new_pool();
    let mut user = UserInfo::empty();
    deposit(&mut state, &mut user, 100, T0);
    receive_add_rewards(&mut state, &s("erth"), 1000, 100, T0).unwrap();
    assert_eq!(state.reward_tokens[0].reward_streams[0].release_rate, 10);
    assert_eq!(pending_of(&state, &user, T0 + 50), vec![500]);
}

#[test]
fn two_stakers_split_by_stake() {
    let mut state = new_pool();
    let mut a = UserInfo::empty();
    let mut b = UserInfo::empty();
    deposit(&mut state, &mut a, 100, T0);
    deposit(&mut state, &mut b, 300, T0);
    receive_add_rewards(&mut state, &s("erth"), 800, 80, T0).unwrap();
    assert_eq!(state.reward_tokens[0].reward_streams[0].release_rate, 10);
    assert_eq!(pending_of(&state, &a, T0 + 80), vec![200]);
    assert_eq!(pending_of(&state, &b, T0 + 80), vec![600]);
    let mut scratch = state.clone();
    let mut a2 = a.clone();
    update_rewards(&mut scratch, &mut a2, T0 + 80).unwrap();
    assert_eq!(scratch.reward_tokens[0].reward_per_token_stored, 2);
    assert!(scratch.reward_tokens[0].reward_streams.is_empty());
}

#[test]
fn funding_empty_pool_fails() {
    let mut state = new_pool();
    let before = state.clone();
    assert_eq!(
        receive_add_rewards(&mut state, &s("erth"), 1000, 100, T0),
        Err(StakingError::EmptyPool)
    );
    assert_eq!(state, before);
    assert!(state.reward_tokens[0].reward_streams.is_empty());
}

#[test]
fn withdraw_too_much_fails() {
    let mut state = new_pool();
    let mut user = UserInfo::empty();
    deposit(&mut state, &mut user, 100, T0);
    receive_add_rewards(&mut state, &s("erth"), 1000, 100, T0).unwrap();
    let before = state.clone();
    let pending_before = pending_of(&state, &user, T0 + 10);
    assert_eq!(
        execute_withdraw(&mut state, Some(user.clone()), &s("alice"), 101, T0 + 10),
        Err(StakingError::InsufficientStake)
    );
    assert_eq!(state, before);
    assert_eq!(state.total_staked, 100);
    assert_eq!(user.amount_staked, 100);
    assert_eq!(pending_of(&state, &user, T0 + 10), pending_before);
}

#[test]
fn zero_duration_fails() {
    let mut state = new_pool();
    let mut user = UserInfo::empty();
    deposit(&mut state, &mut user, 100, T0);
    let before = state.clone();
    assert_eq!(
        receive_add_rewards(&mut state, &s("erth"), 1000, 0, T0),
        Err(StakingError::DivideByZero)
    );
    assert_eq!(state, before);
    assert!(state.reward_tokens[0].reward_streams.is_empty());
}

#[test]
fn stream_releases_in_full_then_leaves() {
    let mut state = new_pool();
    let mut user = UserInfo::empty();
    deposit(&mut state, &mut user, 1, T0);
    receive_add_rewards(&mut state, &s("erth"), 1000, 1000, T0).unwrap();
    let mut paid: u128 = 0;
    for now in [T0 + 300, T0 + 700, T0 + 1000, T0 + 1500] {
        let (u, msgs) = execute_claim_rewards(&mut state, Some(user), &s("alice"), now).unwrap();
        user = u;
        for m in msgs {
            match m {
                OutboundMsg::Transfer { amount, .. } => paid += amount,
                _ => panic!("unexpected instruction"),
            }
        }
    }
    assert_eq!(paid, 1000);
    assert!(state.reward_tokens[0].reward_streams.is_empty());
    assert_eq!(state.reward_tokens[0].reward_per_token_stored, 1000);
}

#[test]
fn total_matches_sum_of_stakes() {
    let mut state = new_pool();
    let mut a = UserInfo::empty();
    let mut b = UserInfo::empty();
    deposit(&mut state, &mut a, 70, T0);
    deposit(&mut state, &mut b, 30, T0 + 1);
    let (a2, _) = execute_withdraw(&mut state, Some(a), &s("a"), 20, T0 + 2).unwrap();
    a = a2;
    deposit(&mut state, &mut b, 5, T0 + 3);
    assert_eq!(state.total_staked, a.amount_staked + b.amount_staked);
    assert_eq!(state.total_staked, 85);
}

#[test]
fn accumulator_never_decreases() {
    let mut state = new_pool();
    let mut user = UserInfo::empty();
    deposit(&mut state, &mut user, 7, T0);
    receive_add_rewards(&mut state, &s("erth"), 700, 70, T0).unwrap();
    let mut last = 0;
    for now in [T0 + 5, T0 + 5, T0 + 33, T0 + 70, T0 + 200] {
        update_rewards(&mut state, &mut user, now).unwrap();
        let acc = state.reward_tokens[0].reward_per_token_stored;
        assert!(acc >= last);
        last = acc;
    }
    // 700 released over 7 units, truncated at each step: 7 + 40 + 52.
    assert_eq!(last, 99);
}

#[test]
fn late_depositor_earns_nothing_before_deposit() {
    let mut state = new_pool();
    let mut early = UserInfo::empty();
    let mut late = UserInfo::empty();
    deposit(&mut state, &mut early, 100, T0);
    receive_add_rewards(&mut state, &s("erth"), 2000, 100, T0).unwrap();
    deposit(&mut state, &mut late, 100, T0 + 50);
    assert_eq!(pending_of(&state, &late, T0 + 50), vec![0]);
    assert_eq!(pending_of(&state, &early, T0 + 50), vec![1000]);
    assert_eq!(pending_of(&state, &late, T0 + 100), vec![500]);
    assert_eq!(pending_of(&state, &early, T0 + 100), vec![1500]);
}

#[test]
fn second_advance_at_same_time_changes_nothing() {
    let mut state = new_pool();
    let mut user = UserInfo::empty();
    deposit(&mut state, &mut user, 3, T0);
    receive_add_rewards(&mut state, &s("erth"), 90, 30, T0).unwrap();
    update_rewards(&mut state, &mut user, T0 + 10).unwrap();
    let (s1, u1) = (state.clone(), user.clone());
    update_rewards(&mut state, &mut user, T0 + 10).unwrap();
    assert_eq!(state, s1);
    assert_eq!(user, u1);
    assert_eq!(user.rewards_info[0].pending_rewards, 30);
}

#[test]
fn truncation_dust_is_kept_out() {
    let mut state = new_pool();
    let mut user = UserInfo::empty();
    deposit(&mut state, &mut user, 3, T0);
    receive_add_rewards(&mut state, &s("erth"), 10, 10, T0).unwrap();
    // 10 released over 3 staked units: 3 per unit, 1 left undistributed.
    assert_eq!(pending_of(&state, &user, T0 + 10), vec![9]);
}

#[test]
fn withdraw_pays_out_and_reduces_stake() {
    let mut state = new_pool();
    let mut user = UserInfo::empty();
    deposit(&mut state, &mut user, 100, T0);
    receive_add_rewards(&mut state, &s("erth"), 1000, 100, T0).unwrap();
    let (u, msgs) = execute_withdraw(&mut state, Some(user), &s("alice"), 40, T0 + 20).unwrap();
    assert_eq!(
        msgs,
        vec![OutboundMsg::Transfer {
            contract: s("erth"),
            hash: s("erth_hash"),
            recipient: s("alice"),
            amount: 200,
        }]
    );
    assert_eq!(u.amount_staked, 60);
    assert_eq!(state.total_staked, 60);
    assert_eq!(u.rewards_info[0].pending_rewards, 0);
    // 100 released over 60 staked units: 1 per unit.
    assert_eq!(pending_of(&state, &u, T0 + 30), vec![60]);
}

#[test]
fn claim_errors() {
    let mut state = new_pool();
    assert_eq!(
        execute_claim_rewards(&mut state, None, &s("x"), T0),
        Err(StakingError::NotFound)
    );
    assert_eq!(
        execute_claim_rewards(&mut state, Some(UserInfo::empty()), &s("x"), T0),
        Err(StakingError::NothingStaked)
    );
    assert_eq!(
        execute_withdraw(&mut state, None, &s("x"), 1, T0),
        Err(StakingError::NotFound)
    );
    assert_eq!(query_pending_rewards(&state, None, T0), Err(StakingError::NotFound));
}

#[test]
fn claim_with_nothing_pending_sends_nothing() {
    let mut state = new_pool();
    let mut user = UserInfo::empty();
    deposit(&mut state, &mut user, 10, T0);
    let (_, msgs) = execute_claim_rewards(&mut state, Some(user), &s("x"), T0 + 5).unwrap();
    assert!(msgs.is_empty());
}

#[test]
fn deposit_from_wrong_token_fails() {
    let mut state = new_pool();
    let mut user = UserInfo::empty();
    let before = state.clone();
    assert_eq!(
        receive_deposit(&mut state, &mut user, &s("erth"), 10, T0),
        Err(StakingError::WrongAsset)
    );
    assert_eq!(state, before);
    assert_eq!(user, UserInfo::empty());
}

#[test]
fn deposit_overflow_fails() {
    let mut state = new_pool();
    let mut user = UserInfo::empty();
    deposit(&mut state, &mut user, u128::MAX, T0);
    let mut other = UserInfo::empty();
    assert_eq!(
        receive_deposit(&mut state, &mut other, &s("lp"), 1, T0),
        Err(StakingError::Overflow)
    );
    assert_eq!(state.total_staked, u128::MAX);
}

#[test]
fn funding_unknown_token_fails() {
    let mut state = new_pool();
    let mut user = UserInfo::empty();
    deposit(&mut state, &mut user, 1, T0);
    assert_eq!(
        receive_add_rewards(&mut state, &s("other"), 10, 10, T0),
        Err(StakingError::NotFound)
    );
}

#[test]
fn reward_token_registration() {
    let mut state = new_pool();
    assert_eq!(
        execute_add_reward_token(&mut state, &s("eve"), s("sscrt"), s("h"), T0),
        Err(StakingError::Unauthorized)
    );
    assert_eq!(
        execute_add_reward_token(&mut state, &s("manager"), s("erth"), s("h"), T0),
        Err(StakingError::DuplicateAsset)
    );
    let msg = execute_add_reward_token(&mut state, &s("manager"), s("sscrt"), s("h"), T0 + 1);
    assert_eq!(msg, Ok(OutboundMsg::RegisterReceive { contract: s("sscrt"), hash: s("h") }));
    assert_eq!(state.reward_tokens.len(), 2);
    assert_eq!(state.reward_tokens[1].last_updated_time, T0 + 1);
}

#[test]
fn reward_token_hash_update() {
    let mut state = new_pool();
    assert_eq!(
        execute_update_reward_token_hash(&mut state, &s("eve"), &s("erth"), s("new")),
        Err(StakingError::Unauthorized)
    );
    assert_eq!(
        execute_update_reward_token_hash(&mut state, &s("manager"), &s("nope"), s("new")),
        Err(StakingError::NotFound)
    );
    assert_eq!(
        execute_update_reward_token_hash(&mut state, &s("manager"), &s("erth"), s("new")),
        Ok(())
    );
    assert_eq!(state.reward_tokens[0].reward_token_hash, "new");
}

#[test]
fn two_reward_assets_pay_in_order() {
    let mut state = new_pool();
    execute_add_reward_token(&mut state, &s("manager"), s("sscrt"), s("sh"), T0).unwrap();
    let mut user = UserInfo::empty();
    deposit(&mut state, &mut user, 10, T0);
    receive_add_rewards(&mut state, &s("sscrt"), 100, 10, T0).unwrap();
    receive_add_rewards(&mut state, &s("erth"), 50, 10, T0).unwrap();
    let (_, msgs) = execute_claim_rewards(&mut state, Some(user), &s("bob"), T0 + 10).unwrap();
    assert_eq!(
        msgs,
        vec![
            OutboundMsg::Transfer { contract: s("erth"), hash: s("erth_hash"), recipient: s("bob"), amount: 50 },
            OutboundMsg::Transfer { contract: s("sscrt"), hash: s("sh"), recipient: s("bob"), amount: 100 },
        ]
    );
}

#[test]
fn deposit_into_emptied_pool_earns_nothing_before_deposit() {
    let mut state = new_pool();
    let mut a = UserInfo::empty();
    deposit(&mut state, &mut a, 100, T0);
    receive_add_rewards(&mut state, &s("erth"), 1000, 100, T0).unwrap();
    let (a2, msgs) = execute_withdraw(&mut state, Some(a), &s("a"), 100, T0 + 10).unwrap();
    assert_eq!(a2.amount_staked, 0);
    assert_eq!(msgs.len(), 1);
    assert_eq!(state.total_staked, 0);
    let mut c = UserInfo::empty();
    deposit(&mut state, &mut c, 100, T0 + 50);
    assert_eq!(state.reward_tokens[0].last_updated_time, T0 + 50);
    assert_eq!(state.reward_tokens[0].reward_per_token_stored, 1);
    assert_eq!(pending_of(&state, &c, T0 + 50), vec![0]);
    assert_eq!(pending_of(&state, &c, T0 + 60), vec![100]);
}

#[test]
fn query_on_empty_pool_reports_existing_positions() {
    let mut state = new_pool();
    execute_add_reward_token(&mut state, &s("manager"), s("sscrt"), s("sh"), T0).unwrap();
    let user = UserInfo {
        amount_staked: 0,
        rewards_info: vec![UserRewardInfo {
            reward_token_contract: s("erth"),
            reward_debt: 0,
            pending_rewards: 7,
        }],
    };
    let rewards = query_pending_rewards(&state, Some(user), T0 + 10).unwrap();
    assert_eq!(rewards.len(), 1);
    assert_eq!(rewards[0].reward_token_contract, "erth");
    assert_eq!(rewards[0].pending_rewards, 7);
}
