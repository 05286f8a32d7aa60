//! Laws of the ledger, stated over the outcomes that the operations' contracts
//! describe.
use crate::contract::{deposit_outcome, ledgers_current, token_funded, withdraw_outcome};
use crate::engine::{
    accrual_outcome, accrued_value, lemma_released_nonneg, live_streams, new_pending, owed,
    released_total, stream_release, token_advanced, token_idled,
};
use crate::state::{RewardStream, RewardTokenInfo, State, UserInfo};
use vstd::prelude::*;

verus! {

/// The sum of `stakes`.
pub open spec fn stake_sum(stakes: Seq<int>) -> int
    decreases stakes.len(),
{
    if stakes.len() == 0 {
        0
    } else {
        stake_sum(stakes.drop_last()) + stakes.last()
    }
}

proof fn lemma_sum_update(stakes: Seq<int>, k: int, v: int)
    requires
        0 <= k < stakes.len(),
    ensures
        stake_sum(stakes.update(k, v)) == stake_sum(stakes) - stakes[k] + v,
    decreases stakes.len(),
{
    let t = stakes.update(k, v);
    if k < stakes.len() - 1 {
        assert(t.drop_last() =~= stakes.drop_last().update(k, v));
        lemma_sum_update(stakes.drop_last(), k, v);
    } else {
        assert(t.drop_last() =~= stakes.drop_last());
    }
}

/// A deposit keeps the pool's total equal to the sum of all stakes: where
/// `stakes` lists every account's stake, `k` the depositor's, the total after
/// the deposit is the sum with the depositor's new stake in place. A rejected
/// deposit changes nothing, so this holds of either outcome.
pub proof fn conservation_on_deposit(
    s: State,
    u: UserInfo,
    amount: u128,
    now: u64,
    r: State,
    nu: UserInfo,
    stakes: Seq<int>,
    k: int,
)
    requires
        0 <= k < stakes.len(),
        stakes[k] == u.amount_staked,
        s.total_staked == stake_sum(stakes),
        (r == s && nu == u) || deposit_outcome(s, u, amount, now, r, nu),
    ensures
        r.total_staked == stake_sum(stakes.update(k, nu.amount_staked as int)),
{
    lemma_sum_update(stakes, k, nu.amount_staked as int);
}

/// A withdrawal, accepted or rejected, keeps the pool's total equal to the
/// sum of all stakes, in the same sense as a deposit.
pub proof fn conservation_on_withdraw(
    s: State,
    u: UserInfo,
    amount: u128,
    now: u64,
    r: State,
    nu: UserInfo,
    stakes: Seq<int>,
    k: int,
)
    requires
        0 <= k < stakes.len(),
        stakes[k] == u.amount_staked,
        s.total_staked == stake_sum(stakes),
        (r == s && nu == u) || withdraw_outcome(s, u, amount, now, r, nu),
    ensures
        r.total_staked == stake_sum(stakes.update(k, nu.amount_staked as int)),
{
    lemma_sum_update(stakes, k, nu.amount_staked as int);
}

/// Advancing a ledger never lowers its accumulator.
pub proof fn accumulator_monotone(t: RewardTokenInfo, r: RewardTokenInfo, staked: u128, now: u64)
    requires
        staked > 0,
        token_advanced(t, r, staked, now),
    ensures
        r.reward_per_token_stored >= t.reward_per_token_stored,
{
    lemma_released_nonneg(t.reward_streams@, t.last_updated_time, now);
    let x = released_total(t.reward_streams@, t.last_updated_time, now);
    assert(x / (staked as int) >= 0) by (nonlinear_arith)
        requires x >= 0, staked > 0;
}

/// The accrual step never lowers any ledger's accumulator.
pub proof fn accrual_step_monotone(s: State, u: UserInfo, now: u64, r: State, nu: UserInfo)
    requires
        accrual_outcome(s, u, now, r, nu),
    ensures
        r.reward_tokens@.len() == s.reward_tokens@.len(),
        forall|i: int|
            0 <= i < s.reward_tokens@.len() ==> (#[trigger] r.reward_tokens@[i]).reward_per_token_stored
                >= s.reward_tokens@[i].reward_per_token_stored,
{
    if s.total_staked > 0 {
        assert forall|i: int| 0 <= i < s.reward_tokens@.len() implies
            (#[trigger] r.reward_tokens@[i]).reward_per_token_stored
            >= s.reward_tokens@[i].reward_per_token_stored by {
            accumulator_monotone(s.reward_tokens@[i], r.reward_tokens@[i], s.total_staked, now);
        }
    }
}

/// Deposits, withdrawals and claims bring the ledgers up to date without
/// lowering any accumulator.
pub proof fn ledgers_current_monotone(
    t: Seq<RewardTokenInfo>,
    r: Seq<RewardTokenInfo>,
    total_staked: u128,
    now: u64,
)
    requires
        ledgers_current(t, r, total_staked, now),
    ensures
        r.len() == t.len(),
        forall|i: int|
            0 <= i < t.len() ==> (#[trigger] r[i]).reward_per_token_stored
                >= t[i].reward_per_token_stored,
{
    if total_staked > 0 {
        assert forall|i: int| 0 <= i < t.len() implies (#[trigger] r[i]).reward_per_token_stored
            >= t[i].reward_per_token_stored by {
            accumulator_monotone(t[i], r[i], total_staked, now);
        }
    }
}

/// Funding a stream does not lower the funded ledger's accumulator.
pub proof fn funding_monotone(
    t: RewardTokenInfo,
    r: RewardTokenInfo,
    total_staked: u128,
    amount: u128,
    release_duration: u64,
    now: u64,
)
    requires
        total_staked > 0,
        token_funded(t, r, total_staked, amount, release_duration, now),
    ensures
        r.reward_per_token_stored >= t.reward_per_token_stored,
{
    lemma_released_nonneg(t.reward_streams@, t.last_updated_time, now);
    let x = released_total(t.reward_streams@, t.last_updated_time, now);
    assert(x / (total_staked as int) >= 0) by (nonlinear_arith)
        requires
            x >= 0,
            total_staked > 0,
    ;
}

proof fn lemma_nothing_released_at_last(streams: Seq<RewardStream>, now: u64)
    ensures
        released_total(streams, now, now) == 0,
    decreases streams.len(),
{
    if streams.len() > 0 {
        lemma_nothing_released_at_last(streams.drop_last(), now);
    }
}

proof fn lemma_live_idempotent(streams: Seq<RewardStream>, now: u64)
    ensures
        live_streams(live_streams(streams, now), now) == live_streams(streams, now),
    decreases streams.len(),
{
    if streams.len() > 0 {
        let d = streams.drop_last();
        lemma_live_idempotent(d, now);
        let l = live_streams(d, now);
        if now < streams.last().end_time {
            assert(l.push(streams.last()).drop_last() =~= l);
        }
    }
}

/// Running the accrual step a second time at the same `now` changes no
/// accumulator, no stream list and no pending amount.
pub proof fn accrual_step_idempotent(
    s: State,
    u: UserInfo,
    now: u64,
    r1: State,
    u1: UserInfo,
    r2: State,
    u2: UserInfo,
)
    requires
        accrual_outcome(s, u, now, r1, u1),
        accrual_outcome(r1, u1, now, r2, u2),
    ensures
        r2.reward_tokens@.len() == r1.reward_tokens@.len(),
        forall|i: int|
            0 <= i < r1.reward_tokens@.len() ==> {
                &&& (#[trigger] r2.reward_tokens@[i]).reward_per_token_stored
                    == r1.reward_tokens@[i].reward_per_token_stored
                &&& r2.reward_tokens@[i].reward_streams@ == r1.reward_tokens@[i].reward_streams@
            },
        u2.rewards_info@.len() == u1.rewards_info@.len(),
        forall|i: int|
            0 <= i < u1.rewards_info@.len() ==> (#[trigger] u2.rewards_info@[i]).pending_rewards
                == u1.rewards_info@[i].pending_rewards,
{
    if s.total_staked > 0 {
        assert forall|i: int| 0 <= i < r1.reward_tokens@.len() implies {
            &&& (#[trigger] r2.reward_tokens@[i]).reward_per_token_stored
                == r1.reward_tokens@[i].reward_per_token_stored
            &&& r2.reward_tokens@[i].reward_streams@ == r1.reward_tokens@[i].reward_streams@
        } by {
            let t0 = s.reward_tokens@[i];
            let t1 = r1.reward_tokens@[i];
            assert(token_advanced(t0, t1, s.total_staked, now));
            assert(token_advanced(t1, r2.reward_tokens@[i], r1.total_staked, now));
            lemma_nothing_released_at_last(t1.reward_streams@, now);
            lemma_live_idempotent(t0.reward_streams@, now);
        }
        assert forall|i: int| 0 <= i < u1.rewards_info@.len() implies
            (#[trigger] u2.rewards_info@[i]).pending_rewards == u1.rewards_info@[i].pending_rewards by {
            let acc = r2.reward_tokens@[i].reward_per_token_stored;
            assert(acc == r1.reward_tokens@[i].reward_per_token_stored);
            assert(u1.rewards_info@[i].reward_debt == u1.amount_staked * acc);
            assert(owed(u1.amount_staked * acc, u1.rewards_info@[i].reward_debt as int) == 0);
        }
    }
}

/// No retroactive rewards: right after a deposit at `now` that leaves stake
/// in the pool, every ledger stands at `now`, a first-time depositor has nothing
/// pending, and what the next accrual step at any `later` time credits is the
/// new stake times the per-unit release of stream-seconds from `now` on.
pub proof fn deposit_earns_from_now(
    s: State,
    u: UserInfo,
    amount: u128,
    now: u64,
    r: State,
    nu: UserInfo,
    later: u64,
)
    requires
        s.total_staked + amount > 0,
        deposit_outcome(s, u, amount, now, r, nu),
    ensures
        nu.rewards_info@.len() == r.reward_tokens@.len(),
        forall|i: int|
            0 <= i < r.reward_tokens@.len() ==> {
                let t = #[trigger] r.reward_tokens@[i];
                &&& t.last_updated_time == now
                &&& u.rewards_info@.len() == 0 ==> nu.rewards_info@[i].pending_rewards == 0
                &&& new_pending(nu, i, accrued_value(t, r.total_staked, later), true)
                    == nu.rewards_info@[i].pending_rewards + nu.amount_staked * (released_total(
                    t.reward_streams@,
                    now,
                    later,
                ) / (r.total_staked as int))
            },
{
    assert forall|i: int| 0 <= i < r.reward_tokens@.len() implies {
        let t = #[trigger] r.reward_tokens@[i];
        &&& t.last_updated_time == now
        &&& u.rewards_info@.len() == 0 ==> nu.rewards_info@[i].pending_rewards == 0
        &&& new_pending(nu, i, accrued_value(t, r.total_staked, later), true)
            == nu.rewards_info@[i].pending_rewards + nu.amount_staked * (released_total(
            t.reward_streams@,
            now,
            later,
        ) / (r.total_staked as int))
    } by {
        let t = r.reward_tokens@[i];
        if s.total_staked > 0 {
            assert(token_advanced(s.reward_tokens@[i], t, s.total_staked, now));
        } else {
            assert(token_idled(s.reward_tokens@[i], t, now));
        }
        lemma_released_nonneg(t.reward_streams@, now, later);
        let x = released_total(t.reward_streams@, now, later) / (r.total_staked as int);
        assert(x >= 0) by (nonlinear_arith)
            requires
                released_total(t.reward_streams@, now, later) >= 0,
                r.total_staked > 0,
                x == released_total(t.reward_streams@, now, later) / (r.total_staked as int),
        ;
        let st = nu.amount_staked as int;
        let acc = t.reward_per_token_stored as int;
        assert(st * (acc + x) - st * acc == st * x && st * x >= 0) by (nonlinear_arith)
            requires
                x >= 0,
                st >= 0,
        ;
    }
}

/// A stream's release splits over consecutive periods: what it releases from
/// `a` to `b` and from `b` to `c` is what it releases from `a` to `c`.
pub proof fn stream_release_additive(st: RewardStream, a: u64, b: u64, c: u64)
    requires
        st.start_time <= a <= b <= c,
    ensures
        stream_release(st, a, b) + stream_release(st, b, c) == stream_release(st, a, c),
{
    let rate = st.release_rate as int;
    let e = st.end_time as int;
    let (ai, bi, ci) = (a as int, b as int, c as int);
    let tb: int = if bi < e { bi } else { e };
    let tc: int = if ci < e { ci } else { e };
    assert(rate * (bi - ai) + rate * (tc - bi) == rate * (tc - ai)) by (nonlinear_arith);
    assert(rate * 0 == 0);
}

/// Over its whole window a stream releases `release_rate` times its duration,
/// and once its end has come it is no longer among the live streams.
pub proof fn stream_released_in_full(st: RewardStream, now: u64)
    requires
        st.start_time <= st.end_time <= now,
    ensures
        stream_release(st, st.start_time, st.end_time) == st.release_rate * (st.end_time
            - st.start_time),
        live_streams(seq![st], now).len() == 0,
{
    let one = seq![st];
    assert(one.drop_last() =~= Seq::<RewardStream>::empty());
    assert(live_streams(Seq::<RewardStream>::empty(), now) == Seq::<RewardStream>::empty());
    assert(one.last() == st);
    if st.end_time == st.start_time {
        assert(st.release_rate * (st.end_time - st.start_time) == 0) by (nonlinear_arith)
            requires st.end_time == st.start_time;
    }
}

/// The time a ledger stands at after the first `j` of `times`.
pub open spec fn time_after(st: RewardStream, times: Seq<u64>, j: int) -> u64 {
    if j == 0 { st.start_time } else { times[j - 1] }
}

/// `ledgers[j + 1]` is `ledgers[j]` advanced to `times[j]`, starting from a
/// ledger that holds the one stream `st` and stands at its start.
pub open spec fn single_stream_run(
    ledgers: Seq<RewardTokenInfo>,
    times: Seq<u64>,
    staked: u128,
    st: RewardStream,
) -> bool {
    &&& staked > 0
    &&& st.start_time < st.end_time
    &&& ledgers.len() == times.len() + 1
    &&& ledgers[0].reward_streams@ == seq![st]
    &&& ledgers[0].last_updated_time == st.start_time
    &&& forall|j: int|
        0 <= j < times.len() ==> time_after(st, times, j) <= #[trigger] times[j]
    &&& forall|j: int|
        0 <= j < times.len() ==> token_advanced(
            ledgers[j],
            #[trigger] ledgers[j + 1],
            staked,
            times[j],
        )
}

proof fn lemma_single_stream_steps(
    ledgers: Seq<RewardTokenInfo>,
    times: Seq<u64>,
    staked: u128,
    st: RewardStream,
    k: int,
)
    requires
        single_stream_run(ledgers, times, staked, st),
        0 <= k <= times.len(),
    ensures
        time_after(st, times, k) >= st.start_time,
        ledgers[k].last_updated_time == time_after(st, times, k),
        ledgers[k].reward_streams@ == (if time_after(st, times, k) < st.end_time {
            seq![st]
        } else {
            Seq::<RewardStream>::empty()
        }),
        staked * (ledgers[k].reward_per_token_stored - ledgers[0].reward_per_token_stored)
            <= stream_release(st, st.start_time, time_after(st, times, k)),
        staked * (ledgers[k].reward_per_token_stored - ledgers[0].reward_per_token_stored)
            >= stream_release(st, st.start_time, time_after(st, times, k)) - k * (staked - 1),
    decreases k,
{
    let s = staked as int;
    if k == 0 {
        assert(stream_release(st, st.start_time, st.start_time) == 0);
        assert(s * 0 == 0);
    } else {
        lemma_single_stream_steps(ledgers, times, staked, st, k - 1);
        let j = k - 1;
        let prev = ledgers[j];
        let cur = ledgers[j + 1];
        assert(cur == ledgers[k]);
        let l = time_after(st, times, j);
        let t = times[j];
        assert(time_after(st, times, k) == t);
        assert(l <= t);
        assert(token_advanced(prev, cur, staked, t));
        let d = stream_release(st, l, t);
        let one = seq![st];
        assert(one.drop_last() =~= Seq::<RewardStream>::empty());
        assert(one.last() == st);
        assert(live_streams(Seq::<RewardStream>::empty(), t) == Seq::<RewardStream>::empty());
        assert(released_total(Seq::<RewardStream>::empty(), l, t) == 0);
        assert(released_total(one, l, t) == released_total(one.drop_last(), l, t) + stream_release(
            st,
            l,
            t,
        ));
        if l < st.end_time {
            assert(released_total(one, l, t) == d);
        } else {
            assert(released_total(Seq::<RewardStream>::empty(), l, t) == 0);
            assert(d == 0);
        }
        assert(released_total(prev.reward_streams@, l, t) == d);
        stream_release_additive(st, st.start_time, l, t);
        let r0 = stream_release(st, st.start_time, l);
        let q = d / s;
        lemma_released_nonneg(seq![st], l, t);
        assert(d >= 0);
        assert(s * q <= d && s * q >= d - (s - 1)) by (nonlinear_arith)
            requires
                d >= 0,
                s > 0,
                q == d / s,
        ;
        let a0 = ledgers[0].reward_per_token_stored as int;
        let ap = prev.reward_per_token_stored as int;
        let ac = cur.reward_per_token_stored as int;
        assert(ac == ap + q);
        assert(s * (ac - a0) == s * (ap - a0) + s * q) by (nonlinear_arith)
            requires
                ac == ap + q,
        ;
        assert((k - 1) * (s - 1) + (s - 1) == k * (s - 1)) by (nonlinear_arith);
    }
}

/// A stream run through `k` accrual steps at non-decreasing times, the last
/// at or after its end, is released in full and no more: the stake times the
/// accumulator's growth lies between `release_rate` times the duration and
/// that less one truncation remainder (below the stake) per step; and the
/// stream is gone from the ledger.
pub proof fn stream_completion(
    ledgers: Seq<RewardTokenInfo>,
    times: Seq<u64>,
    staked: u128,
    st: RewardStream,
)
    requires
        single_stream_run(ledgers, times, staked, st),
        times.len() > 0,
        times.last() >= st.end_time,
    ensures
        ({
            let k = times.len() as int;
            let grown = staked * (ledgers[k].reward_per_token_stored
                - ledgers[0].reward_per_token_stored);
            let full = st.release_rate * (st.end_time - st.start_time);
            &&& grown <= full
            &&& grown >= full - k * (staked - 1)
            &&& ledgers[k].reward_streams@.len() == 0
        }),
{
    let k = times.len() as int;
    lemma_single_stream_steps(ledgers, times, staked, st, k);
    assert(time_after(st, times, k) == times.last());
    stream_release_additive(st, st.start_time, st.end_time, times.last());
    stream_released_in_full(st, times.last());
}

} // verus!
