//! The staking source: who has bonded what, and who validates or nominates.

use std::collections::HashMap;
use vstd::prelude::*;
use crate::types::{AccountId, Balance, Role, Stake, StakerStatus};

verus! {

broadcast use vstd::std_specs::hash::group_hash_axioms;

/// What the tracker reads from the staking source.
pub trait StakingInterface {
    /// The stake that `who` has bonded, if any.
    spec fn stake_of(&self, who: AccountId) -> Option<Stake>;

    /// The role of `who`.
    spec fn role_of(&self, who: AccountId) -> Role;

    /// Reads the stake of `who`.
    fn stake(&self, who: &AccountId) -> (stake: Option<Stake>)
        ensures
            stake == self.stake_of(*who),
    ;

    /// Reads the role of `who`.
    fn status(&self, who: &AccountId) -> (status: StakerStatus)
        ensures
            status@ == self.role_of(*who),
    ;
}

/// A copy of a list of identities.
pub fn copy_targets(targets: &Vec<AccountId>) -> (copy: Vec<AccountId>)
    ensures
        copy@ == targets@,
{
    let mut copy: Vec<AccountId> = Vec::new();
    let mut i: usize = 0;
    while i < targets.len()
        invariant
            i <= targets.len(),
            copy@ == targets@.take(i as int),
        decreases targets.len() - i,
    {
        copy.push(targets[i]);
        proof {
            assert(targets@.take(i + 1) =~= targets@.take(i as int).push(targets@[i as int]));
        }
        i += 1;
    }
    proof {
        assert(targets@.take(targets@.len() as int) =~= targets@);
    }
    copy
}

/// A staking source held in memory.
pub struct StakingTable {
    stakes: HashMap<AccountId, Stake>,
    roles: HashMap<AccountId, StakerStatus>,
}

impl StakingTable {
    /// The bonded stakes by identity.
    pub closed spec fn stakes(&self) -> Map<AccountId, Stake> {
        self.stakes@
    }

    /// The roles by identity; an identity without an entry is idle.
    pub closed spec fn roles(&self) -> Map<AccountId, Role> {
        Map::new(|who: AccountId| self.roles@.contains_key(who), |who: AccountId| self.roles@[who]@)
    }

    /// A source in which nobody has bonded.
    pub fn new() -> (table: StakingTable)
        ensures
            table.stakes() == Map::<AccountId, Stake>::empty(),
            table.roles() == Map::<AccountId, Role>::empty(),
    {
        let table = StakingTable { stakes: HashMap::new(), roles: HashMap::new() };
        proof {
            assert(table.roles() =~= Map::<AccountId, Role>::empty());
        }
        table
    }

    /// Records the stake of `who`, replacing an earlier one.
    pub fn bond(&mut self, who: AccountId, active: Balance, total: Balance)
        ensures
            final(self).stakes() == old(self).stakes().insert(
                who,
                (Stake { stash: who, active, total }),
            ),
            final(self).roles() == old(self).roles(),
    {
        self.stakes.insert(who, Stake { stash: who, active, total });
    }

    /// Forgets the stake and the role of `who`.
    pub fn withdraw(&mut self, who: AccountId)
        ensures
            final(self).stakes() == old(self).stakes().remove(who),
            final(self).roles() == old(self).roles().remove(who),
    {
        self.stakes.remove(&who);
        self.roles.remove(&who);
        proof {
            assert(self.roles() =~= old(self).roles().remove(who));
        }
    }

    /// Gives `who` the role `status`.
    pub fn set_status(&mut self, who: AccountId, status: StakerStatus)
        ensures
            final(self).stakes() == old(self).stakes(),
            final(self).roles() == old(self).roles().insert(who, status@),
    {
        self.roles.insert(who, status);
        proof {
            assert(self.roles() =~= old(self).roles().insert(who, status@));
        }
    }
}

impl StakingInterface for StakingTable {
    open spec fn stake_of(&self, who: AccountId) -> Option<Stake> {
        if self.stakes().contains_key(who) {
            Some(self.stakes()[who])
        } else {
            None
        }
    }

    open spec fn role_of(&self, who: AccountId) -> Role {
        if self.roles().contains_key(who) {
            self.roles()[who]
        } else {
            Role::Idle
        }
    }

    fn stake(&self, who: &AccountId) -> (stake: Option<Stake>) {
        match self.stakes.get(who) {
            Some(stake) => Some(*stake),
            None => None,
        }
    }

    fn status(&self, who: &AccountId) -> (status: StakerStatus) {
        match self.roles.get(who) {
            Some(StakerStatus::Validator) => StakerStatus::Validator,
            Some(StakerStatus::Nominator(targets)) => StakerStatus::Nominator(copy_targets(targets)),
            _ => StakerStatus::Idle,
        }
    }
}

} // verus!
