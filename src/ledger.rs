//! The per-account table: one entry per account that ever interacted with
//! the pool, looked up by address.

use vstd::prelude::*;
use crate::model::{AccountId, AccountState, Balance, untouched};

verus! {

/// The stored record of one account.
#[derive(Clone, Copy, Debug, PartialEq, Eq)]
pub struct Record {
    pub staked: Balance,
    pub reward_per_token_paid: Balance,
    pub pending_reward: Balance,
}

impl Record {
    pub open spec fn state(self) -> AccountState {
        AccountState {
            staked: self.staked as int,
            reward_per_token_paid: self.reward_per_token_paid as int,
            pending_reward: self.pending_reward as int,
        }
    }
}

/// An account together with its record.
#[derive(Clone, Copy, Debug)]
pub struct Entry {
    pub account: AccountId,
    pub record: Record,
}

/// Position of the last entry for `a` in `s`, or -1.
pub open spec fn slot(s: Seq<Entry>, a: AccountId) -> int
    decreases s.len(),
{
    if s.len() == 0 {
        -1
    } else if s.last().account == a {
        s.len() - 1
    } else {
        slot(s.drop_last(), a)
    }
}

/// The record of `a` held in `s`; untouched when `a` has no entry.
pub open spec fn record_in(s: Seq<Entry>, a: AccountId) -> AccountState {
    let k = slot(s, a);
    if k < 0 {
        untouched()
    } else {
        s[k].record.state()
    }
}

/// The sum of all stakes in `s`.
pub open spec fn staked_sum(s: Seq<Entry>) -> int
    decreases s.len(),
{
    if s.len() == 0 {
        0
    } else {
        staked_sum(s.drop_last()) + s.last().record.staked
    }
}

/// No account has two entries.
pub open spec fn distinct_accounts(s: Seq<Entry>) -> bool {
    forall|i: int, j: int|
        0 <= i < j < s.len() ==> #[trigger] s[i].account != #[trigger] s[j].account
}

pub proof fn lemma_slot(s: Seq<Entry>, a: AccountId)
    ensures
        -1 <= slot(s, a) < s.len(),
        slot(s, a) == -1 <==> forall|i: int| 0 <= i < s.len() ==> s[i].account != a,
        slot(s, a) >= 0 ==> s[slot(s, a)].account == a,
    decreases s.len(),
{
    if s.len() > 0 && s.last().account != a {
        lemma_slot(s.drop_last(), a);
        if slot(s, a) == -1 {
            assert forall|i: int| 0 <= i < s.len() implies s[i].account != a by {
                if i < s.len() - 1 {
                    assert(s[i] == s.drop_last()[i]);
                }
            }
        }
    }
}

pub proof fn lemma_slot_at(s: Seq<Entry>, a: AccountId, i: int)
    requires
        distinct_accounts(s),
        0 <= i < s.len(),
        s[i].account == a,
    ensures
        slot(s, a) == i,
{
    lemma_slot(s, a);
}

/// Replacing an entry by one of the same account leaves every other lookup alone.
pub proof fn lemma_record_update(s: Seq<Entry>, i: int, e: Entry, b: AccountId)
    requires
        distinct_accounts(s),
        0 <= i < s.len(),
        e.account == s[i].account,
    ensures
        distinct_accounts(s.update(i, e)),
        record_in(s.update(i, e), b) == if b == e.account {
            e.record.state()
        } else {
            record_in(s, b)
        },
{
    let t = s.update(i, e);
    assert forall|p: int, q: int| 0 <= p < q < t.len() implies #[trigger] t[p].account
        != #[trigger] t[q].account by {
        assert(t[p].account == s[p].account);
        assert(t[q].account == s[q].account);
    }
    lemma_slot(s, b);
    lemma_slot(t, b);
    if b == e.account {
        lemma_slot_at(t, b, i);
    } else if slot(s, b) >= 0 {
        lemma_slot_at(t, b, slot(s, b));
    } else if slot(t, b) >= 0 {
        assert(t[slot(t, b)] == s[slot(t, b)]);
    }
}

/// Appending an entry for a new account leaves every other lookup alone.
pub proof fn lemma_record_push(s: Seq<Entry>, e: Entry, b: AccountId)
    requires
        distinct_accounts(s),
        forall|i: int| 0 <= i < s.len() ==> s[i].account != e.account,
    ensures
        distinct_accounts(s.push(e)),
        record_in(s.push(e), b) == if b == e.account {
            e.record.state()
        } else {
            record_in(s, b)
        },
        staked_sum(s.push(e)) == staked_sum(s) + e.record.staked,
{
    let t = s.push(e);
    assert(t.drop_last() =~= s);
    lemma_slot(s, b);
    if b != e.account && slot(s, b) >= 0 {
        assert(t[slot(s, b)] == s[slot(s, b)]);
    }
    assert forall|p: int, q: int| 0 <= p < q < t.len() implies #[trigger] t[p].account
        != #[trigger] t[q].account by {
        if q == s.len() {
            assert(t[p] == s[p]);
        } else {
            assert(t[p] == s[p] && t[q] == s[q]);
        }
    }
}

pub proof fn lemma_sum_update(s: Seq<Entry>, i: int, e: Entry)
    requires
        0 <= i < s.len(),
    ensures
        staked_sum(s.update(i, e)) == staked_sum(s) - s[i].record.staked + e.record.staked,
    decreases s.len(),
{
    let t = s.update(i, e);
    if i == s.len() - 1 {
        assert(t.drop_last() =~= s.drop_last());
    } else {
        assert(t.drop_last() =~= s.drop_last().update(i, e));
        lemma_sum_update(s.drop_last(), i, e);
    }
}

pub proof fn lemma_sum_bounds(s: Seq<Entry>, i: int)
    requires
        0 <= i < s.len(),
    ensures
        s[i].record.staked <= staked_sum(s),
    decreases s.len(),
{
    lemma_sum_nonneg(s.drop_last());
    if i < s.len() - 1 {
        lemma_sum_bounds(s.drop_last(), i);
    }
}

pub proof fn lemma_sum_nonneg(s: Seq<Entry>)
    ensures
        staked_sum(s) >= 0,
    decreases s.len(),
{
    if s.len() > 0 {
        lemma_sum_nonneg(s.drop_last());
    }
}

/// Compares two addresses byte by byte.
pub fn same_account(a: &AccountId, b: &AccountId) -> (r: bool)
    ensures
        r == (*a == *b),
{
    let mut i: usize = 0;
    while i < 32
        invariant
            0 <= i <= 32,
            forall|k: int| 0 <= k < i ==> a[k] == b[k],
        decreases 32 - i,
    {
        if a[i] != b[i] {
            return false;
        }
        i += 1;
    }
    proof {
        assert(*a =~= *b);
    }
    true
}

/// The position of the entry for `a`, if there is one.
pub fn find(s: &Vec<Entry>, a: &AccountId) -> (r: Option<usize>)
    ensures
        match r {
            Some(i) => i < s@.len() && s@[i as int].account == *a,
            None => forall|i: int| 0 <= i < s@.len() ==> s@[i].account != *a,
        },
{
    let mut i: usize = 0;
    while i < s.len()
        invariant
            0 <= i <= s@.len(),
            forall|k: int| 0 <= k < i ==> s@[k].account != *a,
        decreases s@.len() - i,
    {
        if same_account(&s[i].account, a) {
            return Some(i);
        }
        i += 1;
    }
    None
}

} // verus!
