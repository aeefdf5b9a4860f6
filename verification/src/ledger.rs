//! The approval-stake ledger: for each target, the stake that backs it.

use std::collections::HashMap;
use vstd::prelude::*;
use crate::types::{AccountId, Balance, StakeDelta};

verus! {

broadcast use vstd::std_specs::hash::group_hash_axioms;

/// The amount recorded for `target` in `entries`, zero where it has no entry.
pub open spec fn amount_or_zero(entries: Map<AccountId, Balance>, target: AccountId) -> int {
    if entries.contains_key(target) {
        entries[target] as int
    } else {
        0
    }
}

/// Whether `delta` can be applied to the entry of `target` without leaving
/// the range of an amount.
pub open spec fn delta_fits(
    entries: Map<AccountId, Balance>,
    target: AccountId,
    delta: int,
) -> bool {
    0 <= amount_or_zero(entries, target) + delta <= u128::MAX
}

/// A mapping from target to the total active stake that backs it.
pub struct ApprovalStake {
    entries: HashMap<AccountId, Balance>,
}

impl View for ApprovalStake {
    type V = Map<AccountId, Balance>;

    closed spec fn view(&self) -> Map<AccountId, Balance> {
        self.entries@
    }
}

impl ApprovalStake {
    /// A ledger without entries.
    pub fn new() -> (ledger: ApprovalStake)
        ensures
            ledger@ == Map::<AccountId, Balance>::empty(),
    {
        ApprovalStake { entries: HashMap::new() }
    }

    /// The amount recorded for `target`, if it has an entry.
    pub fn get(&self, target: AccountId) -> (amount: Option<Balance>)
        ensures
            amount == (if self@.contains_key(target) {
                Some(self@[target])
            } else {
                None
            }),
    {
        match self.entries.get(&target) {
            Some(amount) => Some(*amount),
            None => None,
        }
    }

    /// Records `amount` for `target`, replacing what was recorded before.
    pub fn set(&mut self, target: AccountId, amount: Balance)
        ensures
            final(self)@ == old(self)@.insert(target, amount),
    {
        self.entries.insert(target, amount);
    }

    /// Adds `delta` to the entry of `target` and returns the new amount; an
    /// absent entry is created and counts as zero.
    pub fn mutate_delta(&mut self, target: AccountId, delta: StakeDelta) -> (updated: Balance)
        requires
            delta_fits(old(self)@, target, delta.signed()),
        ensures
            updated == amount_or_zero(old(self)@, target) + delta.signed(),
            final(self)@ == old(self)@.insert(
                target,
                (amount_or_zero(old(self)@, target) + delta.signed()) as u128,
            ),
    {
        let current: Balance = match self.entries.get(&target) {
            Some(amount) => *amount,
            None => 0,
        };
        let updated: Balance = match delta {
            StakeDelta::Increase(amount) => current + amount,
            StakeDelta::Decrease(amount) => current - amount,
        };
        self.entries.insert(target, updated);
        updated
    }

    /// Whether `delta` can be added to the entry of `target` without leaving
    /// the range of an amount.
    pub fn admits(&self, target: AccountId, delta: StakeDelta) -> (fits: bool)
        ensures
            fits == delta_fits(self@, target, delta.signed()),
    {
        let current: Balance = match self.entries.get(&target) {
            Some(amount) => *amount,
            None => 0,
        };
        match delta {
            StakeDelta::Increase(amount) => amount <= u128::MAX - current,
            StakeDelta::Decrease(amount) => amount <= current,
        }
    }

    /// Drops the entry of `target`, if there is one.
    pub fn remove(&mut self, target: AccountId)
        ensures
            final(self)@ == old(self)@.remove(target),
    {
        self.entries.remove(&target);
    }

    /// The number of entries.
    pub fn count(&self) -> (n: usize)
        ensures
            n == self@.len(),
            self@.dom().finite(),
    {
        self.entries.len()
    }
}

} // verus!
