//! The abstract state of the pool and the accrual rules, over mathematical
//! integers.

use vstd::prelude::*;

verus! {

/// Identifies an account (the 32 bytes of its address).
pub type AccountId = [u8; 32];

/// An amount of a token, or a point in time in pool units.
pub type Balance = u128;

/// A block timestamp as the host hands it to the pool.
pub type Timestamp = u64;

/// Fixed-point scale of the reward-per-token index.
pub const SCALE: u128 = 1_000_000_000_000_000_000;

/// What the pool records of one account.
pub struct AccountState {
    pub staked: int,
    pub reward_per_token_paid: int,
    pub pending_reward: int,
}

/// The record of an account that never interacted with the pool.
pub open spec fn untouched() -> AccountState {
    AccountState { staked: 0, reward_per_token_paid: 0, pending_reward: 0 }
}

/// The pool as a whole; `accounts` is total, absent accounts map to `untouched()`.
pub struct PoolState {
    pub owner: AccountId,
    pub duration: int,
    pub finish_at: int,
    pub updated_at: int,
    pub reward_rate: int,
    pub reward_per_token_stored: int,
    pub total_supply: int,
    pub accounts: Map<AccountId, AccountState>,
}

impl PoolState {
    /// The consistency conditions every reachable pool state satisfies.
    pub open spec fn inv(self) -> bool {
        &&& self.duration > 0
        &&& 0 <= self.updated_at <= self.finish_at
        &&& self.reward_rate >= 0
        &&& self.reward_per_token_stored >= 0
        &&& self.total_supply >= 0
        &&& forall|a: AccountId| #[trigger] self.accounts.contains_key(a)
        &&& forall|a: AccountId|
            {
                let r = #[trigger] self.accounts[a];
                &&& 0 <= r.staked <= self.total_supply
                &&& 0 <= r.reward_per_token_paid <= self.reward_per_token_stored
                &&& r.pending_reward >= 0
            }
    }

    /// The last instant at which rewards are still streaming: `min(finish_at, now)`.
    pub open spec fn last_time_reward_applicable(self, now: int) -> int {
        if self.finish_at <= now {
            self.finish_at
        } else {
            now
        }
    }

    /// Reward per unit of stake accrued since the last checkpoint.
    pub open spec fn accrued_per_token(self, now: int) -> int {
        if self.total_supply == 0 {
            0
        } else {
            self.reward_rate * (self.last_time_reward_applicable(now) - self.updated_at)
                * (SCALE as int) / self.total_supply
        }
    }

    /// The reward-per-token index as of `now`.
    pub open spec fn reward_per_token(self, now: int) -> int {
        self.reward_per_token_stored + self.accrued_per_token(now)
    }

    /// What `account` may claim at `now`.
    pub open spec fn earned(self, account: AccountId, now: int) -> int {
        let r = self.accounts[account];
        r.staked * (self.reward_per_token(now) - r.reward_per_token_paid) / (SCALE as int)
            + r.pending_reward
    }

    /// Bring the index up to `now` and, for a real account, freeze what it has earned.
    pub open spec fn checkpoint(self, account: Option<AccountId>, now: int) -> PoolState {
        let base = PoolState {
            reward_per_token_stored: self.reward_per_token(now),
            updated_at: self.last_time_reward_applicable(now),
            ..self
        };
        match account {
            None => base,
            Some(a) => PoolState {
                accounts: self.accounts.insert(
                    a,
                    AccountState {
                        staked: self.accounts[a].staked,
                        reward_per_token_paid: self.reward_per_token(now),
                        pending_reward: self.earned(a, now),
                    },
                ),
                ..base
            },
        }
    }

    /// Add `amount` to the stake of `account` and to the total.
    pub open spec fn deposit(self, account: AccountId, amount: int) -> PoolState {
        let r = self.accounts[account];
        PoolState {
            total_supply: self.total_supply + amount,
            accounts: self.accounts.insert(account, AccountState { staked: r.staked + amount, ..r }),
            ..self
        }
    }

    /// Take `amount` off the stake of `account` and off the total.
    pub open spec fn release(self, account: AccountId, amount: int) -> PoolState {
        let r = self.accounts[account];
        PoolState {
            total_supply: self.total_supply - amount,
            accounts: self.accounts.insert(account, AccountState { staked: r.staked - amount, ..r }),
            ..self
        }
    }

    /// The pool after `account` stakes `amount` at `now`.
    pub open spec fn stake(self, account: AccountId, amount: int, now: int) -> PoolState {
        self.checkpoint(Some(account), now).deposit(account, amount)
    }

    /// The pool after `account` withdraws `amount` at `now`.
    pub open spec fn withdraw(self, account: AccountId, amount: int, now: int) -> PoolState {
        self.checkpoint(Some(account), now).release(account, amount)
    }

    /// The pool after `account` claims its reward at `now`.
    pub open spec fn claim(self, account: AccountId, now: int) -> PoolState {
        let c = self.checkpoint(Some(account), now);
        let r = c.accounts[account];
        PoolState {
            accounts: c.accounts.insert(account, AccountState { pending_reward: 0, ..r }),
            ..c
        }
    }

    /// The rate that funding with `amount` at `now` sets: the unspent part of a
    /// running period is rolled into the new one.
    pub open spec fn next_reward_rate(self, amount: int, now: int) -> int {
        if self.finish_at <= now {
            amount / self.duration
        } else {
            (amount + (self.finish_at - now) * self.reward_rate) / self.duration
        }
    }

    /// The pool after the owner funds it with `amount` at `now`.
    pub open spec fn fund(self, amount: int, now: int) -> PoolState {
        let c = self.checkpoint(None, now);
        PoolState {
            reward_rate: self.next_reward_rate(amount, now),
            finish_at: now + self.duration,
            updated_at: now,
            ..c
        }
    }

    /// Whether funding with `amount` at `now` promises more than `balance` covers.
    pub open spec fn exceeds_balance(self, amount: int, now: int, balance: int) -> bool {
        self.next_reward_rate(amount, now) * self.duration > balance
    }

    /// The index at `now` can be computed in 128 bits.
    pub open spec fn index_fits(self, now: int) -> bool {
        self.total_supply == 0 || {
            &&& self.reward_rate * (self.last_time_reward_applicable(now) - self.updated_at)
                * (SCALE as int) <= u128::MAX
            &&& self.reward_per_token(now) <= u128::MAX
        }
    }

    /// What `account` has earned at `now` can be computed in 128 bits.
    pub open spec fn earned_fits(self, account: AccountId, now: int) -> bool {
        let r = self.accounts[account];
        &&& self.index_fits(now)
        &&& r.staked * (self.reward_per_token(now) - r.reward_per_token_paid) <= u128::MAX
        &&& self.earned(account, now) <= u128::MAX
    }

    /// A checkpoint at `now` can be computed in 128 bits.
    pub open spec fn checkpoint_fits(self, account: Option<AccountId>, now: int) -> bool {
        match account {
            None => self.index_fits(now),
            Some(a) => self.earned_fits(a, now),
        }
    }

    /// Funding with `amount` at `now` can be computed in 128 bits.
    pub open spec fn fund_fits(self, amount: int, now: int) -> bool {
        &&& self.index_fits(now)
        &&& now < self.finish_at ==> amount + (self.finish_at - now) * self.reward_rate
            <= u128::MAX
        &&& now + self.duration <= u128::MAX
    }
}

} // verus!
