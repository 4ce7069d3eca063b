//! Properties of the accrual rules, stated over the abstract pool state.

use vstd::prelude::*;
use crate::arith::{lemma_div_bounds, lemma_mul_grows, lemma_mul_le};
use crate::model::{AccountId, PoolState, SCALE};

verus! {

/// The index as of a later time is never below the index as of an earlier
/// time, and neither is below the stored index: a checkpoint never lowers it.
pub proof fn lemma_index_monotone(s: PoolState, account: Option<AccountId>, t1: int, t2: int)
    requires
        s.inv(),
        s.updated_at <= t1 <= t2,
    ensures
        s.reward_per_token_stored <= s.reward_per_token(t1) <= s.reward_per_token(t2),
        s.checkpoint(account, t1).reward_per_token_stored >= s.reward_per_token_stored,
{
    if s.total_supply != 0 {
        let e1 = s.last_time_reward_applicable(t1) - s.updated_at;
        let e2 = s.last_time_reward_applicable(t2) - s.updated_at;
        lemma_mul_grows(s.reward_rate, e1, SCALE as int);
        lemma_mul_grows(s.reward_rate, e2, SCALE as int);
        lemma_mul_le(e1, e2, s.reward_rate);
        lemma_mul_le(s.reward_rate * e1, s.reward_rate * e2, SCALE as int);
        assert(e1 * s.reward_rate == s.reward_rate * e1 && e2 * s.reward_rate == s.reward_rate
            * e2) by (nonlinear_arith);
        lemma_div_bounds(s.reward_rate * e1 * (SCALE as int), s.total_supply);
        vstd::arithmetic::div_mod::lemma_div_is_ordered(
            s.reward_rate * e1 * (SCALE as int),
            s.reward_rate * e2 * (SCALE as int),
            s.total_supply,
        );
    }
}

/// While nothing is staked, checkpoints and funding leave the stored index as it is,
/// however much time has passed.
pub proof fn lemma_idle_pool_keeps_index(
    s: PoolState,
    account: Option<AccountId>,
    amount: int,
    now: int,
)
    requires
        s.total_supply == 0,
    ensures
        s.reward_per_token(now) == s.reward_per_token_stored,
        s.checkpoint(account, now).reward_per_token_stored == s.reward_per_token_stored,
        s.fund(amount, now).reward_per_token_stored == s.reward_per_token_stored,
{
}

/// Two checkpoints of the same account at the same instant act as one, and a
/// checkpoint leaves what the account has earned unchanged.
pub proof fn lemma_checkpoint_idempotent(s: PoolState, account: AccountId, now: int)
    requires
        s.inv(),
        s.updated_at <= now,
    ensures
        s.checkpoint(Some(account), now).checkpoint(Some(account), now) == s.checkpoint(
            Some(account),
            now,
        ),
        s.checkpoint(Some(account), now).earned(account, now) == s.earned(account, now),
{
    let c = s.checkpoint(Some(account), now);
    assert(c.last_time_reward_applicable(now) == c.updated_at);
    assert(c.accrued_per_token(now) == 0) by {
        if c.total_supply != 0 {
            assert(c.reward_rate * 0 * (SCALE as int) == 0) by (nonlinear_arith);
        }
    }
    let r = c.accounts[account];
    assert(r.staked * (c.reward_per_token(now) - r.reward_per_token_paid) == 0) by (nonlinear_arith)
        requires
            c.reward_per_token(now) == r.reward_per_token_paid,
    ;
    assert(c.checkpoint(Some(account), now).accounts =~= c.accounts);
}

/// Funding in the middle of a running period rolls the unspent emission into
/// the new rate, and leaves what every account has earned at that instant as it was.
pub proof fn lemma_refund_rolls_over(s: PoolState, amount: int, now: int, account: AccountId)
    requires
        s.inv(),
        s.updated_at <= now < s.finish_at,
    ensures
        s.fund(amount, now).reward_rate == (amount + (s.finish_at - now) * s.reward_rate)
            / s.duration,
        s.fund(amount, now).finish_at == now + s.duration,
        s.fund(amount, now).earned(account, now) == s.earned(account, now),
{
    let f = s.fund(amount, now);
    assert(f.last_time_reward_applicable(now) == f.updated_at);
    assert(f.accrued_per_token(now) == 0) by {
        if f.total_supply != 0 {
            assert(f.reward_rate * 0 * (SCALE as int) == 0) by (nonlinear_arith);
        }
    }
}

/// A sole staker whose stake starts the accrual at `t0` earns, by `t1`, the
/// whole emission `reward_rate * (t1 - t0)` up to rounding: never more, and
/// less by under `1 + stake / SCALE`; by at most one unit per elapsed second
/// when the stake is at most `SCALE`.
pub proof fn lemma_sole_staker_earns_emission(
    s: PoolState,
    account: AccountId,
    stake: int,
    t0: int,
    t1: int,
)
    requires
        s.inv(),
        s.total_supply == 0,
        stake > 0,
        s.updated_at <= t0 <= t1 <= s.finish_at,
    ensures
        ({
            let p = s.stake(account, stake, t0);
            let gained = p.earned(account, t1) - s.accounts[account].pending_reward;
            let emitted = s.reward_rate * (t1 - t0);
            &&& 0 <= gained <= emitted
            &&& (emitted - gained) * (SCALE as int) < stake + SCALE
            &&& stake <= SCALE ==> emitted - gained <= t1 - t0
        }),
{
    let p = s.stake(account, stake, t0);
    let sc = SCALE as int;
    let r = s.reward_rate;
    let dt = t1 - t0;
    assert(s.accounts[account].staked == 0);
    assert(s.earned(account, t0) == s.accounts[account].pending_reward) by {
        assert(0 * (s.reward_per_token(t0) - s.accounts[account].reward_per_token_paid) == 0);
    }
    assert(p.updated_at == t0);
    assert(p.total_supply == stake);
    assert(p.accounts[account].staked == stake);
    assert(p.accounts[account].reward_per_token_paid == p.reward_per_token_stored);
    assert(p.last_time_reward_applicable(t1) == t1);
    let x = r * dt * sc;
    lemma_mul_grows(r, dt, sc);
    let q = x / stake;
    lemma_div_bounds(x, stake);
    assert(p.reward_per_token(t1) - p.reward_per_token_stored == q);
    let y = stake * q;
    assert(y == q * stake) by (nonlinear_arith)
        requires
            y == stake * q,
    ;
    assert(y >= 0) by (nonlinear_arith)
        requires
            stake > 0,
            q >= 0,
            y == stake * q,
    ;
    let gained = y / sc;
    lemma_div_bounds(y, sc);
    assert(p.earned(account, t1) - s.accounts[account].pending_reward == gained);
    // gained * sc <= y <= x = r * dt * sc
    assert(gained <= r * dt) by (nonlinear_arith)
        requires
            gained * sc <= x,
            x == r * dt * sc,
            sc > 0,
    ;
    // x < y + stake < gained * sc + sc + stake
    assert((r * dt - gained) * sc < stake + sc) by (nonlinear_arith)
        requires
            x < y + stake,
            y < gained * sc + sc,
            x == r * dt * sc,
    ;
    if stake <= sc {
        assert(r * dt - gained < 2) by (nonlinear_arith)
            requires
                (r * dt - gained) * sc < stake + sc,
                stake <= sc,
                sc > 0,
        ;
        if dt == 0 {
            assert(x == 0) by (nonlinear_arith)
                requires
                    x == r * dt * sc,
                    dt == 0,
            ;
            assert(r * dt == 0) by (nonlinear_arith)
                requires
                    dt == 0,
            ;
        }
    }
}

} // verus!
