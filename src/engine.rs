//! The reward accrual engine: advancing the reward ledgers to a time and
//! settling a user's positions against them.
use crate::error::StakingError;
use crate::state::{
    RewardStream, RewardTokenInfo, State, UserInfo, UserRewardInfo, lemma_aligned_same_assets,
    same_assets, user_aligned,
};
use vstd::prelude::*;

verus! {

/// What `s` releases between `last` and `now`, counting only the seconds
/// inside the stream's own window.
pub open spec fn stream_release(s: RewardStream, last: u64, now: u64) -> int {
    let from: int = if s.start_time >= last { s.start_time as int } else { last as int };
    let to: int = if now < s.end_time { now as int } else { s.end_time as int };
    if to > from { s.release_rate * (to - from) } else { 0 }
}

/// What all `streams` release together between `last` and `now`.
pub open spec fn released_total(streams: Seq<RewardStream>, last: u64, now: u64) -> int
    decreases streams.len(),
{
    if streams.len() == 0 {
        0
    } else {
        released_total(streams.drop_last(), last, now) + stream_release(streams.last(), last, now)
    }
}

/// The streams that are still running at `now`, in their order.
pub open spec fn live_streams(streams: Seq<RewardStream>, now: u64) -> Seq<RewardStream>
    decreases streams.len(),
{
    if streams.len() == 0 {
        Seq::empty()
    } else {
        let r = live_streams(streams.drop_last(), now);
        if now < streams.last().end_time { r.push(streams.last()) } else { r }
    }
}

/// The accumulator of `t` once advanced to `now` with `staked` units staked.
pub open spec fn accrued_value(t: RewardTokenInfo, staked: u128, now: u64) -> int {
    t.reward_per_token_stored + released_total(t.reward_streams@, t.last_updated_time, now)
        / (staked as int)
}

/// Advancing `t` to `now` stays within `u128`.
pub open spec fn token_accrual_fits(t: RewardTokenInfo, staked: u128, now: u64) -> bool {
    &&& released_total(t.reward_streams@, t.last_updated_time, now) <= u128::MAX
    &&& accrued_value(t, staked, now) <= u128::MAX
}

/// `r` is `t` advanced to `now`: the release folded into the accumulator,
/// the finished streams dropped, the time moved.
pub open spec fn token_advanced(t: RewardTokenInfo, r: RewardTokenInfo, staked: u128, now: u64) -> bool {
    &&& r.reward_token_contract@ == t.reward_token_contract@
    &&& r.reward_token_hash@ == t.reward_token_hash@
    &&& r.reward_per_token_stored == accrued_value(t, staked, now)
    &&& r.last_updated_time == now
    &&& r.reward_streams@ == live_streams(t.reward_streams@, now)
}

pub proof fn lemma_released_nonneg(streams: Seq<RewardStream>, last: u64, now: u64)
    ensures
        released_total(streams, last, now) >= 0,
    decreases streams.len(),
{
    if streams.len() > 0 {
        lemma_released_nonneg(streams.drop_last(), last, now);
        let s = streams.last();
        let from: int = if s.start_time >= last { s.start_time as int } else { last as int };
        let to: int = if now < s.end_time { now as int } else { s.end_time as int };
        if to > from {
            assert(s.release_rate * (to - from) >= 0) by (nonlinear_arith)
                requires to > from;
        }
    }
}

proof fn lemma_released_prefix(streams: Seq<RewardStream>, j: int, last: u64, now: u64)
    requires
        0 <= j <= streams.len(),
    ensures
        released_total(streams.take(j), last, now) <= released_total(streams, last, now),
    decreases streams.len(),
{
    if j < streams.len() {
        let d = streams.drop_last();
        assert(d.take(j) =~= streams.take(j));
        lemma_released_prefix(d, j, last, now);
        let s = streams.last();
        let from: int = if s.start_time >= last { s.start_time as int } else { last as int };
        let to: int = if now < s.end_time { now as int } else { s.end_time as int };
        if to > from {
            assert(s.release_rate * (to - from) >= 0) by (nonlinear_arith)
                requires to > from;
        }
    } else {
        assert(streams.take(j) =~= streams);
    }
}

/// Advances one reward ledger to `now`: adds what its streams released since
/// its last update, divided by `total_staked`, to its accumulator, and drops
/// the streams that have ended.
pub fn advance_token(t: &RewardTokenInfo, total_staked: u128, now: u64) -> (r: Result<
    RewardTokenInfo,
    StakingError,
>)
    requires
        total_staked > 0,
    ensures
        r is Ok <==> token_accrual_fits(*t, total_staked, now),
        r is Err ==> r == Err::<RewardTokenInfo, StakingError>(StakingError::Overflow),
        r is Ok ==> token_advanced(*t, r->Ok_0, total_staked, now),
        r is Ok ==> r->Ok_0.reward_per_token_stored >= t.reward_per_token_stored,
{
    let streams = &t.reward_streams;
    let last = t.last_updated_time;
    let mut released: u128 = 0;
    let mut kept: Vec<RewardStream> = Vec::new();
    let mut i: usize = 0;
    while i < streams.len()
        invariant
            i <= streams@.len(),
            streams@ == t.reward_streams@,
            last == t.last_updated_time,
            released == released_total(streams@.take(i as int), last, now),
            kept@ == live_streams(streams@.take(i as int), now),
        decreases streams@.len() - i,
    {
        let s = streams[i];
        proof {
            assert(streams@.take(i + 1).drop_last() =~= streams@.take(i as int));
            assert(streams@.take(i + 1).last() == s);
            lemma_released_prefix(streams@, i + 1, last, now);
            lemma_released_nonneg(streams@.take(i as int), last, now);
            assert(released_total(streams@.take(i + 1), last, now) == released
                + stream_release(s, last, now));
        }
        let from: u64 = if s.start_time >= last { s.start_time } else { last };
        let to: u64 = if now < s.end_time { now } else { s.end_time };
        let part: u128 = if to > from {
            match s.release_rate.checked_mul((to - from) as u128) {
                Some(v) => v,
                None => {
                    assert(stream_release(s, last, now) > u128::MAX);
                    assert(released_total(streams@, last, now) > u128::MAX);
                    return Err(StakingError::Overflow);
                },
            }
        } else {
            0
        };
        assert(part == stream_release(s, last, now));
        released = match released.checked_add(part) {
            Some(v) => v,
            None => {
                assert(released_total(streams@, last, now) > u128::MAX);
                return Err(StakingError::Overflow);
            },
        };
        if now < s.end_time {
            kept.push(s);
        }
        i = i + 1;
    }
    proof {
        assert(streams@.take(streams@.len() as int) =~= streams@);
    }
    let acc = match t.reward_per_token_stored.checked_add(released / total_staked) {
        Some(v) => v,
        None => {
            return Err(StakingError::Overflow);
        },
    };
    Ok(
        RewardTokenInfo {
            reward_token_contract: t.reward_token_contract.clone(),
            reward_token_hash: t.reward_token_hash.clone(),
            reward_per_token_stored: acc,
            last_updated_time: now,
            reward_streams: kept,
        },
    )
}

/// No accumulator of `t` is higher in `r`.
pub open spec fn accs_not_lower(t: Seq<RewardTokenInfo>, r: Seq<RewardTokenInfo>) -> bool {
    &&& r.len() == t.len()
    &&& forall|i: int|
        0 <= i < t.len() ==> (#[trigger] r[i]).reward_per_token_stored
            >= t[i].reward_per_token_stored
}

/// `r` is `t` brought to `now` with nothing staked: the finished streams
/// dropped and the time moved, the accumulator kept. The seconds spent with
/// nothing staked are not distributed.
pub open spec fn token_idled(t: RewardTokenInfo, r: RewardTokenInfo, now: u64) -> bool {
    &&& r.reward_token_contract@ == t.reward_token_contract@
    &&& r.reward_token_hash@ == t.reward_token_hash@
    &&& r.reward_per_token_stored == t.reward_per_token_stored
    &&& r.last_updated_time == now
    &&& r.reward_streams@ == live_streams(t.reward_streams@, now)
}

fn live_of(streams: &Vec<RewardStream>, now: u64) -> (r: Vec<RewardStream>)
    ensures
        r@ == live_streams(streams@, now),
{
    let mut kept: Vec<RewardStream> = Vec::new();
    let mut i: usize = 0;
    while i < streams.len()
        invariant
            i <= streams@.len(),
            kept@ == live_streams(streams@.take(i as int), now),
        decreases streams@.len() - i,
    {
        let s = streams[i];
        assert(streams@.take(i + 1).drop_last() =~= streams@.take(i as int));
        assert(streams@.take(i + 1).last() == s);
        if now < s.end_time {
            kept.push(s);
        }
        i = i + 1;
    }
    assert(streams@.take(streams@.len() as int) =~= streams@);
    kept
}

/// Brings every ledger to `now` without crediting anything, for a pool in
/// which nothing is staked.
pub(crate) fn idle_all(tokens: &Vec<RewardTokenInfo>, now: u64) -> (r: Vec<RewardTokenInfo>)
    ensures
        r@.len() == tokens@.len(),
        forall|i: int| 0 <= i < tokens@.len() ==> token_idled(tokens@[i], #[trigger] r@[i], now),
        same_assets(tokens@, r@),
        accumulators(r@) == accumulators(tokens@),
{
    let mut out: Vec<RewardTokenInfo> = Vec::new();
    let mut i: usize = 0;
    while i < tokens.len()
        invariant
            i <= tokens@.len(),
            out@.len() == i,
            forall|k: int| 0 <= k < i ==> token_idled(tokens@[k], #[trigger] out@[k], now),
        decreases tokens@.len() - i,
    {
        let t = &tokens[i];
        out.push(
            RewardTokenInfo {
                reward_token_contract: t.reward_token_contract.clone(),
                reward_token_hash: t.reward_token_hash.clone(),
                reward_per_token_stored: t.reward_per_token_stored,
                last_updated_time: now,
                reward_streams: live_of(&t.reward_streams, now),
            },
        );
        i = i + 1;
    }
    assert(accumulators(out@) =~= accumulators(tokens@));
    out
}

/// `share - debt`, or zero where the debt exceeds the share.
pub open spec fn owed(share: int, debt: int) -> int {
    if share > debt { share - debt } else { 0 }
}

/// The accumulator of each ledger.
pub open spec fn accumulators(tokens: Seq<RewardTokenInfo>) -> Seq<int> {
    tokens.map_values(|t: RewardTokenInfo| t.reward_per_token_stored as int)
}

/// The accumulator of each ledger once advanced to `now`.
pub open spec fn accrued_values(tokens: Seq<RewardTokenInfo>, staked: u128, now: u64) -> Seq<int> {
    tokens.map_values(|t: RewardTokenInfo| accrued_value(t, staked, now))
}

/// The pending amount of `u`'s position `i` once synced against a ledger whose
/// accumulator is `acc`. With `credit`, what the stake earned since the last
/// settlement is added; a position created now starts at zero.
pub open spec fn new_pending(u: UserInfo, i: int, acc: int, credit: bool) -> int {
    if i < u.rewards_info@.len() {
        let p = u.rewards_info@[i];
        if credit {
            p.pending_rewards + owed(u.amount_staked * acc, p.reward_debt as int)
        } else {
            p.pending_rewards as int
        }
    } else {
        0
    }
}

/// Syncing `u` with a new stake of `staked` against ledgers with
/// accumulators `accs` stays within `u128`.
pub open spec fn sync_fits(u: UserInfo, accs: Seq<int>, credit: bool, staked: u128) -> bool {
    forall|i: int|
        0 <= i < accs.len() ==> {
            &&& staked * #[trigger] accs[i] <= u128::MAX
            &&& credit ==> u.amount_staked * accs[i] <= u128::MAX
            &&& new_pending(u, i, accs[i], credit) <= u128::MAX
        }
}

/// `r` is `u` synced against `tokens` with a new stake of `staked`: one
/// position per ledger, each with its debt at the new share and its pending
/// amount as `new_pending` says.
pub open spec fn user_synced(
    u: UserInfo,
    tokens: Seq<RewardTokenInfo>,
    r: UserInfo,
    credit: bool,
    staked: u128,
) -> bool {
    &&& r.amount_staked == staked
    &&& r.rewards_info@.len() == tokens.len()
    &&& forall|i: int|
        0 <= i < tokens.len() ==> {
            let p = #[trigger] r.rewards_info@[i];
            &&& p.reward_token_contract@ == tokens[i].reward_token_contract@
            &&& p.reward_debt == staked * tokens[i].reward_per_token_stored
            &&& p.pending_rewards == new_pending(u, i, tokens[i].reward_per_token_stored as int, credit)
        }
}

/// Settles every position of `u` against `tokens`, creating the missing ones:
/// with `credit`, what the old stake earned since the last settlement goes to
/// pending; then the stake becomes `staked` and each debt its share of the
/// ledger's accumulator.
pub fn sync_user(u: &UserInfo, tokens: &Vec<RewardTokenInfo>, credit: bool, staked: u128) -> (r: Result<
    UserInfo,
    StakingError,
>)
    requires
        user_aligned(*u, tokens@),
    ensures
        r is Ok <==> sync_fits(*u, accumulators(tokens@), credit, staked),
        r is Err ==> r == Err::<UserInfo, StakingError>(StakingError::Overflow),
        r is Ok ==> user_synced(*u, tokens@, r->Ok_0, credit, staked),
        r is Ok ==> user_aligned(r->Ok_0, tokens@),
{
    let old_staked = u.amount_staked;
    let mut out: Vec<UserRewardInfo> = Vec::new();
    let mut i: usize = 0;
    while i < tokens.len()
        invariant
            i <= tokens@.len(),
            old_staked == u.amount_staked,
            user_aligned(*u, tokens@),
            out@.len() == i,
            forall|k: int| 0 <= k < i ==> {
                let acc = #[trigger] accumulators(tokens@)[k];
                &&& staked * acc <= u128::MAX
                &&& credit ==> u.amount_staked * acc <= u128::MAX
                &&& new_pending(*u, k, acc, credit) <= u128::MAX
            },
            forall|k: int|
                0 <= k < i ==> {
                    let p = #[trigger] out@[k];
                    &&& p.reward_token_contract@ == tokens@[k].reward_token_contract@
                    &&& p.reward_debt == staked * tokens@[k].reward_per_token_stored
                    &&& p.pending_rewards == new_pending(*u, k, tokens@[k].reward_per_token_stored as int, credit)
                },
        decreases tokens@.len() - i,
    {
        let t = &tokens[i];
        let ghost acc = accumulators(tokens@)[i as int];
        assert(acc == t.reward_per_token_stored);
        let earned: u128 = if credit {
            match old_staked.checked_mul(t.reward_per_token_stored) {
                Some(v) => v,
                None => {
                    return Err(StakingError::Overflow);
                },
            }
        } else {
            0
        };
        let share = match staked.checked_mul(t.reward_per_token_stored) {
            Some(v) => v,
            None => {
                assert(!(staked * accumulators(tokens@)[i as int] <= u128::MAX));
                return Err(StakingError::Overflow);
            },
        };
        let pending: u128 = if i < u.rewards_info.len() {
            let p = &u.rewards_info[i];
            if credit {
                let o: u128 = if earned > p.reward_debt { earned - p.reward_debt } else { 0 };
                match p.pending_rewards.checked_add(o) {
                    Some(v) => v,
                    None => {
                        assert(!(new_pending(*u, i as int, accumulators(tokens@)[i as int], credit) <= u128::MAX));
                        return Err(StakingError::Overflow);
                    },
                }
            } else {
                p.pending_rewards
            }
        } else {
            0
        };
        out.push(
            UserRewardInfo {
                reward_token_contract: t.reward_token_contract.clone(),
                reward_debt: share,
                pending_rewards: pending,
            },
        );
        i = i + 1;
    }
    Ok(UserInfo { amount_staked: staked, rewards_info: out })
}

/// Advancing every ledger of `s` to `now` and crediting `u` stays within `u128`.
pub open spec fn update_fits(s: State, u: UserInfo, now: u64) -> bool {
    &&& forall|i: int|
        0 <= i < s.reward_tokens@.len() ==> token_accrual_fits(
            #[trigger] s.reward_tokens@[i],
            s.total_staked,
            now,
        )
    &&& sync_fits(u, accrued_values(s.reward_tokens@, s.total_staked, now), true, u.amount_staked)
}

/// `r` is `s` with every ledger advanced to `now`, all else kept.
pub open spec fn pool_advanced(s: State, r: State, now: u64) -> bool {
    &&& r.lp_token_contract == s.lp_token_contract
    &&& r.lp_token_hash == s.lp_token_hash
    &&& r.total_staked == s.total_staked
    &&& r.contract_manager == s.contract_manager
    &&& r.reward_tokens@.len() == s.reward_tokens@.len()
    &&& forall|i: int|
        0 <= i < s.reward_tokens@.len() ==> token_advanced(
            s.reward_tokens@[i],
            #[trigger] r.reward_tokens@[i],
            s.total_staked,
            now,
        )
}

pub(crate) fn advance_all(tokens: &Vec<RewardTokenInfo>, total_staked: u128, now: u64) -> (r: Result<
    Vec<RewardTokenInfo>,
    StakingError,
>)
    requires
        total_staked > 0,
    ensures
        r is Ok <==> forall|i: int|
            0 <= i < tokens@.len() ==> token_accrual_fits(#[trigger] tokens@[i], total_staked, now),
        r is Err ==> r == Err::<Vec<RewardTokenInfo>, StakingError>(StakingError::Overflow),
        r is Ok ==> r->Ok_0@.len() == tokens@.len() && forall|i: int|
            0 <= i < tokens@.len() ==> token_advanced(
                tokens@[i],
                #[trigger] r->Ok_0@[i],
                total_staked,
                now,
            ),
        r is Ok ==> same_assets(tokens@, r->Ok_0@),
        r is Ok ==> accs_not_lower(tokens@, r->Ok_0@),
{
    let mut out: Vec<RewardTokenInfo> = Vec::new();
    let mut i: usize = 0;
    while i < tokens.len()
        invariant
            i <= tokens@.len(),
            total_staked > 0,
            out@.len() == i,
            forall|k: int|
                0 <= k < i ==> token_accrual_fits(#[trigger] tokens@[k], total_staked, now),
            forall|k: int|
                0 <= k < i ==> token_advanced(tokens@[k], #[trigger] out@[k], total_staked, now),
            forall|k: int|
                0 <= k < i ==> (#[trigger] out@[k]).reward_per_token_stored
                    >= tokens@[k].reward_per_token_stored,
        decreases tokens@.len() - i,
    {
        let t = advance_token(&tokens[i], total_staked, now)?;
        out.push(t);
        i = i + 1;
    }
    Ok(out)
}

/// `r` and `nu` are `s` and `u` after the accrual step at `now`.
pub open spec fn accrual_outcome(s: State, u: UserInfo, now: u64, r: State, nu: UserInfo) -> bool {
    if s.total_staked == 0 {
        r == s && nu == u
    } else {
        &&& pool_advanced(s, r, now)
        &&& user_synced(u, r.reward_tokens@, nu, true, u.amount_staked)
    }
}

/// The accrual step: when anything is staked, advances every reward ledger of
/// `state` to `now` and credits `user` with what their stake earned since
/// their last settlement, creating the positions the user lacks. When nothing
/// is staked, nothing changes. On an error nothing changes either.
pub fn update_rewards(state: &mut State, user: &mut UserInfo, now: u64) -> (r: Result<
    (),
    StakingError,
>)
    requires
        user_aligned(*old(user), old(state).reward_tokens@),
    ensures
        old(state).total_staked == 0 ==> r is Ok,
        old(state).total_staked > 0 ==> (r is Ok <==> update_fits(*old(state), *old(user), now)),
        r is Err ==> r == Err::<(), StakingError>(StakingError::Overflow),
        r is Err ==> *final(state) == *old(state) && *final(user) == *old(user),
        r is Ok ==> accrual_outcome(*old(state), *old(user), now, *final(state), *final(user)),
        accs_not_lower(old(state).reward_tokens@, final(state).reward_tokens@),
        user_aligned(*final(user), final(state).reward_tokens@),
{
    if state.total_staked == 0 {
        return Ok(());
    }
    let tokens = advance_all(&state.reward_tokens, state.total_staked, now)?;
    assert(accumulators(tokens@) =~= accrued_values(state.reward_tokens@, state.total_staked, now));
    proof {
        lemma_aligned_same_assets(*user, state.reward_tokens@, tokens@);
    }
    let synced = sync_user(user, &tokens, true, user.amount_staked)?;
    state.reward_tokens = tokens;
    *user = synced;
    Ok(())
}

} // verus!
