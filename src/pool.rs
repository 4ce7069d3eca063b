//! The staking pool: ledger, reward accumulator and owner-gated scheduling.
//!
//! Every operation takes the caller and the current block time as plain
//! values. Operations that move tokens leave the transfer itself to the host:
//! it keeps a clone of the pool from before the operation and hands it, with
//! the transfer's outcome, to `complete_transfer`, which restores it when the
//! token contract refused.

use vstd::prelude::*;
use crate::arith::{lemma_div_bounds, lemma_mul_grows, lemma_mul_le};
use crate::laws::lemma_index_monotone;
use crate::ledger::{
    Entry,
    Record,
    distinct_accounts,
    find,
    lemma_record_push,
    lemma_record_update,
    lemma_slot,
    lemma_slot_at,
    lemma_sum_bounds,
    lemma_sum_update,
    record_in,
    same_account,
    staked_sum,
};
use crate::model::{AccountId, Balance, PoolState, SCALE, Timestamp, untouched};

verus! {

/// Why an operation was refused.
#[derive(Debug, Clone, Copy, PartialEq, Eq, Structural)]
pub enum Error {
    /// The caller is not the pool's owner.
    NotOwner,
    /// A zero amount was given where a positive one is needed.
    AmountMustBePositive,
    /// A withdrawal exceeds the caller's stake.
    InsufficientStake,
    /// The reward period is still running.
    PeriodStillActive,
    /// The computed reward rate is negative; unsigned amounts never produce it.
    InvalidRate,
    /// The pool's reward holdings do not cover the scheduled emission.
    InsufficientRewardBalance,
    /// A token contract refused a transfer; reported by the host.
    TransferFailed,
}

/// The state of a fresh pool.
pub open spec fn fresh_pool(owner: AccountId, duration: int) -> PoolState {
    PoolState {
        owner,
        duration,
        finish_at: 0,
        updated_at: 0,
        reward_rate: 0,
        reward_per_token_stored: 0,
        total_supply: 0,
        accounts: Map::new(|a: AccountId| true, |a: AccountId| untouched()),
    }
}

/// The staking pool.
#[derive(Clone, Debug)]
pub struct Staking {
    owner: AccountId,
    duration: Balance,
    finish_at: Balance,
    updated_at: Balance,
    reward_rate: Balance,
    reward_per_token_stored: Balance,
    total_supply: Balance,
    entries: Vec<Entry>,
}

impl View for Staking {
    type V = PoolState;

    closed spec fn view(&self) -> PoolState {
        PoolState {
            owner: self.owner,
            duration: self.duration as int,
            finish_at: self.finish_at as int,
            updated_at: self.updated_at as int,
            reward_rate: self.reward_rate as int,
            reward_per_token_stored: self.reward_per_token_stored as int,
            total_supply: self.total_supply as int,
            accounts: Map::new(|a: AccountId| true, |a: AccountId| record_in(self.entries@, a)),
        }
    }
}

impl Staking {
    /// The pool's internal consistency.
    pub closed spec fn wf(&self) -> bool {
        &&& self.duration > 0
        &&& self.updated_at <= self.finish_at
        &&& distinct_accounts(self.entries@)
        &&& staked_sum(self.entries@) == self.total_supply
        &&& forall|i: int|
            0 <= i < self.entries@.len()
                ==> #[trigger] self.entries@[i].record.reward_per_token_paid
                <= self.reward_per_token_stored
    }

    /// A consistent pool has a consistent abstract state.
    pub proof fn lemma_view_inv(&self)
        requires
            self.wf(),
        ensures
            self@.inv(),
    {
        assert forall|a: AccountId| {
            let r = #[trigger] self@.accounts[a];
            &&& 0 <= r.staked <= self@.total_supply
            &&& 0 <= r.reward_per_token_paid <= self@.reward_per_token_stored
            &&& r.pending_reward >= 0
        } by {
            lemma_slot(self.entries@, a);
            let k = crate::ledger::slot(self.entries@, a);
            if k >= 0 {
                lemma_sum_bounds(self.entries@, k);
            }
        }
    }

    /// Creates a pool owned by `owner` whose reward periods last `reward_duration`.
    pub fn new(owner: AccountId, reward_duration: Balance) -> (r: Staking)
        requires
            reward_duration > 0,
        ensures
            r.wf(),
            r@ == fresh_pool(owner, reward_duration as int),
    {
        let r = Staking {
            owner,
            duration: reward_duration,
            finish_at: 0,
            updated_at: 0,
            reward_rate: 0,
            reward_per_token_stored: 0,
            total_supply: 0,
            entries: Vec::new(),
        };
        assert(r@.accounts =~= fresh_pool(owner, reward_duration as int).accounts);
        r
    }

    fn min(x: Balance, y: Balance) -> (r: Balance)
        ensures
            r == if x <= y {
                x
            } else {
                y
            },
    {
        if x <= y {
            x
        } else {
            y
        }
    }

    fn only_owner(&self, caller: &AccountId) -> (r: Result<(), Error>)
        ensures
            r is Ok <==> *caller == self@.owner,
            r is Err ==> r == Err::<(), Error>(Error::NotOwner),
    {
        if same_account(caller, &self.owner) {
            Ok(())
        } else {
            Err(Error::NotOwner)
        }
    }

    /// The record held for `account`; all zero for an account never seen.
    pub fn record_of(&self, account: &AccountId) -> (r: Record)
        requires
            self.wf(),
        ensures
            r.state() == self@.accounts[*account],
    {
        match find(&self.entries, account) {
            Some(i) => {
                proof {
                    lemma_slot_at(self.entries@, *account, i as int);
                }
                self.entries[i].record
            },
            None => {
                proof {
                    lemma_slot(self.entries@, *account);
                }
                Record { staked: 0, reward_per_token_paid: 0, pending_reward: 0 }
            },
        }
    }

    /// `min(finish_at, now)`: the last instant at which rewards stream.
    pub fn last_time_reward_applicable(&self, now: Timestamp) -> (r: Balance)
        ensures
            r == self@.last_time_reward_applicable(now as int),
    {
        Self::min(self.finish_at, now as u128)
    }

    /// The reward-per-token index as of `now`.
    pub fn reward_per_token(&self, now: Timestamp) -> (r: Balance)
        requires
            self.wf(),
            self@.updated_at <= now,
            self@.index_fits(now as int),
        ensures
            r == self@.reward_per_token(now as int),
    {
        if self.total_supply == 0 {
            self.reward_per_token_stored
        } else {
            let elapsed = self.last_time_reward_applicable(now) - self.updated_at;
            proof {
                lemma_mul_grows(self.reward_rate as int, elapsed as int, SCALE as int);
                lemma_div_bounds(
                    self.reward_rate * elapsed * SCALE,
                    self.total_supply as int,
                );
            }
            self.reward_per_token_stored + self.reward_rate * elapsed * SCALE / self.total_supply
        }
    }

    /// What `account` may claim at `now`.
    pub fn earned(&self, account: AccountId, now: Timestamp) -> (r: Balance)
        requires
            self.wf(),
            self@.updated_at <= now,
            self@.earned_fits(account, now as int),
        ensures
            r == self@.earned(account, now as int),
    {
        let index = self.reward_per_token(now);
        let rec = self.record_of(&account);
        proof {
            self.lemma_view_inv();
            lemma_index_monotone(self@, None, now as int, now as int);
            lemma_mul_grows(
                rec.staked as int,
                (index - rec.reward_per_token_paid) as int,
                1,
            );
            lemma_div_bounds(
                rec.staked * (index - rec.reward_per_token_paid),
                SCALE as int,
            );
        }
        rec.staked * (index - rec.reward_per_token_paid) / SCALE + rec.pending_reward
    }

    /// Stores `r` as the record of `a`, adding an entry for a new account.
    fn set_record(&mut self, a: AccountId, r: Record)
        requires
            distinct_accounts(old(self).entries@),
            r.reward_per_token_paid <= old(self).reward_per_token_stored,
            forall|i: int|
                0 <= i < old(self).entries@.len()
                    ==> #[trigger] old(self).entries@[i].record.reward_per_token_paid
                    <= old(self).reward_per_token_stored,
        ensures
            final(self).owner == old(self).owner,
            final(self).duration == old(self).duration,
            final(self).finish_at == old(self).finish_at,
            final(self).updated_at == old(self).updated_at,
            final(self).reward_rate == old(self).reward_rate,
            final(self).reward_per_token_stored == old(self).reward_per_token_stored,
            final(self).total_supply == old(self).total_supply,
            distinct_accounts(final(self).entries@),
            forall|i: int|
                0 <= i < final(self).entries@.len()
                    ==> #[trigger] final(self).entries@[i].record.reward_per_token_paid
                    <= final(self).reward_per_token_stored,
            staked_sum(final(self).entries@) == staked_sum(old(self).entries@) - record_in(
                old(self).entries@,
                a,
            ).staked + r.staked,
            final(self)@.accounts == old(self)@.accounts.insert(a, r.state()),
    {
        let ghost before = self.entries@;
        let e = Entry { account: a, record: r };
        match find(&self.entries, &a) {
            Some(i) => {
                proof {
                    lemma_slot_at(before, a, i as int);
                    lemma_sum_update(before, i as int, e);
                }
                self.entries.set(i, e);
                proof {
                    assert forall|b: AccountId|
                        record_in(self.entries@, b) == if b == a {
                            r.state()
                        } else {
                            record_in(before, b)
                        } by {
                        lemma_record_update(before, i as int, e, b);
                    }
                    lemma_record_update(before, i as int, e, a);
                }
            },
            None => {
                proof {
                    lemma_slot(before, a);
                }
                self.entries.push(e);
                proof {
                    assert forall|b: AccountId|
                        record_in(self.entries@, b) == if b == a {
                            r.state()
                        } else {
                            record_in(before, b)
                        } by {
                        lemma_record_push(before, e, b);
                    }
                    lemma_record_push(before, e, a);
                }
            },
        }
        proof {
            assert forall|i: int|
                0 <= i < self.entries@.len()
                    implies #[trigger] self.entries@[i].record.reward_per_token_paid
                    <= self.reward_per_token_stored by {
                if i < before.len() && self.entries@[i] != e {
                    assert(self.entries@[i] == before[i]);
                }
            }
            assert(self@.accounts =~= old(self)@.accounts.insert(a, r.state()));
        }
    }

    /// Whether the index as of `now` can be computed in 128 bits.
    pub fn index_fits(&self, now: Timestamp) -> (r: bool)
        requires
            self.wf(),
            self@.updated_at <= now,
        ensures
            r == self@.index_fits(now as int),
    {
        if self.total_supply == 0 {
            return true;
        }
        let elapsed = self.last_time_reward_applicable(now) - self.updated_at;
        proof {
            lemma_mul_grows(self.reward_rate as int, elapsed as int, SCALE as int);
        }
        match self.reward_rate.checked_mul(elapsed) {
            None => false,
            Some(x) => match x.checked_mul(SCALE) {
                None => false,
                Some(y) => {
                    proof {
                        lemma_div_bounds(y as int, self.total_supply as int);
                    }
                    self.reward_per_token_stored.checked_add(y / self.total_supply).is_some()
                },
            },
        }
    }

    /// Whether a checkpoint of `account` at `now` can be computed in 128 bits.
    pub fn checkpoint_fits(&self, account: Option<AccountId>, now: Timestamp) -> (r: bool)
        requires
            self.wf(),
            self@.updated_at <= now,
        ensures
            r == self@.checkpoint_fits(account, now as int),
    {
        if !self.index_fits(now) {
            return false;
        }
        match account {
            None => true,
            Some(a) => {
                let index = self.reward_per_token(now);
                let rec = self.record_of(&a);
                proof {
                    self.lemma_view_inv();
                    lemma_index_monotone(self@, None, now as int, now as int);
                }
                match rec.staked.checked_mul(index - rec.reward_per_token_paid) {
                    None => false,
                    Some(p) => {
                        proof {
                            lemma_mul_grows(
                                rec.staked as int,
                                (index - rec.reward_per_token_paid) as int,
                                1,
                            );
                            lemma_div_bounds(p as int, SCALE as int);
                        }
                        (p / SCALE).checked_add(rec.pending_reward).is_some()
                    },
                }
            },
        }
    }

    /// Whether funding with `amount` at `now` can be computed in 128 bits.
    pub fn fund_fits(&self, amount: Balance, now: Timestamp) -> (r: bool)
        requires
            self.wf(),
            self@.updated_at <= now,
        ensures
            r == self@.fund_fits(amount as int, now as int),
    {
        if !self.index_fits(now) {
            return false;
        }
        let t = now as u128;
        if t.checked_add(self.duration).is_none() {
            return false;
        }
        if t < self.finish_at {
            match (self.finish_at - t).checked_mul(self.reward_rate) {
                None => false,
                Some(remaining) => amount.checked_add(remaining).is_some(),
            }
        } else {
            true
        }
    }

    /// Checkpoint: brings the index up to `now` and, for an account, freezes
    /// what it has earned so far.
    pub fn update_reward(&mut self, account: Option<AccountId>, now: Timestamp)
        requires
            old(self).wf(),
            old(self)@.updated_at <= now,
            old(self)@.checkpoint_fits(account, now as int),
        ensures
            final(self).wf(),
            final(self)@ == old(self)@.checkpoint(account, now as int),
            final(self)@.reward_per_token_stored >= old(self)@.reward_per_token_stored,
    {
        let index = self.reward_per_token(now);
        let applicable = self.last_time_reward_applicable(now);
        proof {
            self.lemma_view_inv();
            lemma_index_monotone(self@, None, now as int, now as int);
        }
        match account {
            None => {
                self.reward_per_token_stored = index;
                self.updated_at = applicable;
                proof {
                    assert(self@.accounts =~= old(self)@.accounts);
                }
            },
            Some(a) => {
                let pending = self.earned(a, now);
                let rec = self.record_of(&a);
                self.reward_per_token_stored = index;
                self.updated_at = applicable;
                proof {
                    assert(self@.accounts =~= old(self)@.accounts);
                }
                self.set_record(
                    a,
                    Record {
                        staked: rec.staked,
                        reward_per_token_paid: index,
                        pending_reward: pending,
                    },
                );
                proof {
                    assert(self@.accounts =~= old(self)@.checkpoint(account, now as int).accounts);
                }
            },
        }
    }

    /// `caller` stakes `amount` at `now`. The host then pulls `amount` of the
    /// stake token from `caller` into the pool.
    pub fn stake(&mut self, caller: AccountId, now: Timestamp, amount: Balance) -> (r: Result<
        (),
        Error,
    >)
        requires
            old(self).wf(),
            old(self)@.updated_at <= now,
            amount > 0 ==> old(self)@.checkpoint_fits(Some(caller), now as int),
            amount > 0 ==> old(self)@.total_supply + amount <= u128::MAX,
        ensures
            final(self).wf(),
            r is Ok <==> amount > 0,
            r is Err ==> r == Err::<(), Error>(Error::AmountMustBePositive) && final(self)@ == old(
                self,
            )@,
            r is Ok ==> final(self)@ == old(self)@.stake(caller, amount as int, now as int),
            final(self)@.reward_per_token_stored >= old(self)@.reward_per_token_stored,
    {
        if amount == 0 {
            return Err(Error::AmountMustBePositive);
        }
        self.update_reward(Some(caller), now);
        let rec = self.record_of(&caller);
        proof {
            self.lemma_view_inv();
            lemma_slot(self.entries@, caller);
        }
        self.total_supply = self.total_supply + amount;
        self.set_record(
            caller,
            Record { staked: rec.staked + amount, ..rec },
        );
        proof {
            assert(self@.accounts =~= old(self)@.stake(caller, amount as int, now as int).accounts);
        }
        Ok(())
    }

    /// `caller` withdraws `amount` of its stake at `now`. The host then pushes
    /// `amount` of the stake token from the pool to `caller`.
    pub fn withdraw(&mut self, caller: AccountId, now: Timestamp, amount: Balance) -> (r: Result<
        (),
        Error,
    >)
        requires
            old(self).wf(),
            old(self)@.updated_at <= now,
            0 < amount <= old(self)@.accounts[caller].staked ==> old(self)@.checkpoint_fits(
                Some(caller),
                now as int,
            ),
        ensures
            final(self).wf(),
            r == Err::<(), Error>(Error::AmountMustBePositive) <==> amount == 0,
            r == Err::<(), Error>(Error::InsufficientStake) <==> amount > 0 && amount > old(
                self,
            )@.accounts[caller].staked,
            r is Ok <==> 0 < amount <= old(self)@.accounts[caller].staked,
            r is Err ==> final(self)@ == old(self)@,
            r is Ok ==> final(self)@ == old(self)@.withdraw(caller, amount as int, now as int),
            final(self)@.reward_per_token_stored >= old(self)@.reward_per_token_stored,
    {
        if amount == 0 {
            return Err(Error::AmountMustBePositive);
        }
        let held = self.record_of(&caller);
        if amount > held.staked {
            return Err(Error::InsufficientStake);
        }
        self.update_reward(Some(caller), now);
        let rec = self.record_of(&caller);
        proof {
            self.lemma_view_inv();
            lemma_slot(self.entries@, caller);
        }
        self.total_supply = self.total_supply - amount;
        self.set_record(
            caller,
            Record { staked: rec.staked - amount, ..rec },
        );
        proof {
            assert(self@.accounts =~= old(self)@.withdraw(caller, amount as int, now as int).accounts);
        }
        Ok(())
    }

    /// `caller` claims its reward at `now`. Returns the amount the host then
    /// pushes from the pool's reward token to `caller` (nothing when zero).
    pub fn get_reward(&mut self, caller: AccountId, now: Timestamp) -> (r: Balance)
        requires
            old(self).wf(),
            old(self)@.updated_at <= now,
            old(self)@.checkpoint_fits(Some(caller), now as int),
        ensures
            final(self).wf(),
            r == old(self)@.earned(caller, now as int),
            final(self)@ == old(self)@.claim(caller, now as int),
            final(self)@.reward_per_token_stored >= old(self)@.reward_per_token_stored,
    {
        self.update_reward(Some(caller), now);
        let rec = self.record_of(&caller);
        self.set_record(caller, Record { pending_reward: 0, ..rec });
        proof {
            assert(self@.accounts =~= old(self)@.claim(caller, now as int).accounts);
        }
        rec.pending_reward
    }

    /// The owner funds the pool with `amount` at `now`. The host pulls
    /// `amount` of the reward token from the owner first and passes the
    /// pool's reward-token balance after that pull as `reward_balance`.
    pub fn update_reward_rate(
        &mut self,
        caller: AccountId,
        now: Timestamp,
        amount: Balance,
        reward_balance: Balance,
    ) -> (r: Result<(), Error>)
        requires
            old(self).wf(),
            old(self)@.updated_at <= now,
            caller == old(self)@.owner ==> old(self)@.fund_fits(amount as int, now as int),
        ensures
            final(self).wf(),
            r == Err::<(), Error>(Error::NotOwner) <==> caller != old(self)@.owner,
            r == Err::<(), Error>(Error::InsufficientRewardBalance) <==> caller == old(self)@.owner
                && old(self)@.exceeds_balance(amount as int, now as int, reward_balance as int),
            r is Ok <==> caller == old(self)@.owner && !old(self)@.exceeds_balance(
                amount as int,
                now as int,
                reward_balance as int,
            ),
            r is Err ==> final(self)@ == old(self)@,
            r is Ok ==> final(self)@ == old(self)@.fund(amount as int, now as int),
            final(self)@.reward_per_token_stored >= old(self)@.reward_per_token_stored,
    {
        if let Err(e) = self.only_owner(&caller) {
            return Err(e);
        }
        let t = now as u128;
        let total = if t >= self.finish_at {
            amount
        } else {
            proof {
                lemma_mul_le((self.finish_at - t) as int, self.finish_at as int, self.reward_rate as int);
            }
            amount + (self.finish_at - t) * self.reward_rate
        };
        proof {
            lemma_div_bounds(total as int, self.duration as int);
        }
        let rate = total / self.duration;
        if rate * self.duration > reward_balance {
            return Err(Error::InsufficientRewardBalance);
        }
        let duration = self.duration;
        self.update_reward(None, now);
        self.reward_rate = rate;
        self.finish_at = t + duration;
        self.updated_at = t;
        proof {
            assert(self@.accounts =~= old(self)@.fund(amount as int, now as int).accounts);
        }
        Ok(())
    }

    /// The owner lengthens the reward duration by `extra` while no period runs.
    pub fn set_rewards_duration(&mut self, caller: AccountId, now: Timestamp, extra: Balance) -> (r:
        Result<(), Error>)
        requires
            old(self).wf(),
            caller == old(self)@.owner && old(self)@.finish_at <= now ==> old(self)@.duration
                + extra <= u128::MAX,
        ensures
            final(self).wf(),
            r == Err::<(), Error>(Error::NotOwner) <==> caller != old(self)@.owner,
            r == Err::<(), Error>(Error::PeriodStillActive) <==> caller == old(self)@.owner && now
                < old(self)@.finish_at,
            r is Ok <==> caller == old(self)@.owner && old(self)@.finish_at <= now,
            r is Err ==> final(self)@ == old(self)@,
            r is Ok ==> final(self)@ == (PoolState {
                duration: old(self)@.duration + extra,
                ..old(self)@
            }),
            final(self)@.reward_per_token_stored == old(self)@.reward_per_token_stored,
    {
        if let Err(e) = self.only_owner(&caller) {
            return Err(e);
        }
        if (now as u128) < self.finish_at {
            return Err(Error::PeriodStillActive);
        }
        self.duration = self.duration + extra;
        proof {
            assert(self@.accounts =~= old(self)@.accounts);
        }
        Ok(())
    }

    /// Completes an operation once the host has attempted its token transfer.
    /// `before` is the pool as it stood when the operation started; a refused
    /// transfer puts it back, so the operation leaves no trace.
    pub fn complete_transfer(&mut self, before: Staking, transferred: bool) -> (r: Result<(), Error>)
        requires
            old(self).wf(),
            before.wf(),
        ensures
            final(self).wf(),
            transferred ==> r is Ok && final(self)@ == old(self)@,
            !transferred ==> r == Err::<(), Error>(Error::TransferFailed) && final(self)@ == before@,
    {
        if transferred {
            Ok(())
        } else {
            *self = before;
            Err(Error::TransferFailed)
        }
    }

    /// The account allowed to fund and reschedule the pool.
    pub fn owner(&self) -> (r: AccountId)
        ensures
            r == self@.owner,
    {
        self.owner
    }

    /// The length of a reward period.
    pub fn duration(&self) -> (r: Balance)
        ensures
            r as int == self@.duration,
    {
        self.duration
    }

    /// When the current reward period ends.
    pub fn finish_at(&self) -> (r: Balance)
        ensures
            r as int == self@.finish_at,
    {
        self.finish_at
    }

    /// The time of the last checkpoint.
    pub fn updated_at(&self) -> (r: Balance)
        ensures
            r as int == self@.updated_at,
    {
        self.updated_at
    }

    /// Reward units emitted per second.
    pub fn reward_rate(&self) -> (r: Balance)
        ensures
            r as int == self@.reward_rate,
    {
        self.reward_rate
    }

    /// The index as of the last checkpoint.
    pub fn reward_per_token_stored(&self) -> (r: Balance)
        ensures
            r as int == self@.reward_per_token_stored,
    {
        self.reward_per_token_stored
    }

    /// The sum of all stakes.
    pub fn total_supply(&self) -> (r: Balance)
        ensures
            r as int == self@.total_supply,
    {
        self.total_supply
    }
}

} // verus!
