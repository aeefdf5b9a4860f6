//! Plain values exchanged between the staking source and the tracker.

use vstd::prelude::*;

verus! {

/// Identity of a staker: a validator, a nominator or an idle account.
pub type AccountId = u64;

/// An amount of stake.
pub type Balance = u128;

/// A voter's score in the voter ranking.
pub type VoteWeight = u64;

/// The bonded stake of one identity.
#[derive(Clone, Copy, Debug, PartialEq, Eq)]
pub struct Stake {
    /// The identity that the stake belongs to.
    pub stash: AccountId,
    /// The part of the stake that counts in elections.
    pub active: Balance,
    /// The whole bonded stake, the part being unbonded included.
    pub total: Balance,
}

/// What an identity currently does with its stake, as the staking source hands it out.
#[derive(Debug, PartialEq, Eq)]
pub enum StakerStatus {
    /// Bonded, neither validating nor nominating.
    Idle,
    /// Stands for election.
    Validator,
    /// Backs the listed targets.
    Nominator(Vec<AccountId>),
}

/// The mathematical value of a [`StakerStatus`].
pub ghost enum Role {
    Idle,
    Validator,
    Nominator(Seq<AccountId>),
}

impl View for StakerStatus {
    type V = Role;

    open spec fn view(&self) -> Role {
        match self {
            StakerStatus::Idle => Role::Idle,
            StakerStatus::Validator => Role::Validator,
            StakerStatus::Nominator(targets) => Role::Nominator(targets@),
        }
    }
}

/// The targets whose approval stake an identity with the given role contributes to:
/// a validator backs itself, a nominator backs its nominations, an idle identity nobody.
pub open spec fn backed_targets(who: AccountId, role: Role) -> Seq<AccountId> {
    match role {
        Role::Idle => Seq::empty(),
        Role::Validator => seq![who],
        Role::Nominator(targets) => targets,
    }
}

/// The targets that a nominator with the given role nominates; none for any other role.
pub open spec fn nominated_targets(role: Role) -> Seq<AccountId> {
    match role {
        Role::Nominator(targets) => targets,
        _ => Seq::empty(),
    }
}

/// A signed change of an amount of stake.
#[derive(Clone, Copy, Debug, PartialEq, Eq)]
pub enum StakeDelta {
    /// The amount grows by this much.
    Increase(Balance),
    /// The amount shrinks by this much.
    Decrease(Balance),
}

impl StakeDelta {
    /// The change as a signed integer.
    pub open spec fn signed(self) -> int {
        match self {
            StakeDelta::Increase(amount) => amount as int,
            StakeDelta::Decrease(amount) => -(amount as int),
        }
    }

    /// The change that leads from `previous` to `current`.
    pub fn between(previous: Balance, current: Balance) -> (delta: StakeDelta)
        ensures
            delta.signed() == current - previous,
    {
        if current >= previous {
            StakeDelta::Increase(current - previous)
        } else {
            StakeDelta::Decrease(previous - current)
        }
    }
}

/// The active part of an optional stake, zero where there is none.
pub open spec fn active_or_zero(stake: Option<Stake>) -> Balance {
    match stake {
        Some(s) => s.active,
        None => 0,
    }
}

/// The voter score that stands for an amount of stake: the amount itself
/// where it fits the score's range, the largest score otherwise.
pub open spec fn vote_weight(active: Balance) -> VoteWeight {
    if active > u64::MAX {
        u64::MAX
    } else {
        active as u64
    }
}

/// Converts an amount of stake to a voter score.
pub fn to_vote(active: Balance) -> (score: VoteWeight)
    ensures
        score == vote_weight(active),
{
    if active > u64::MAX as u128 {
        u64::MAX
    } else {
        active as u64
    }
}

/// The conversion to a voter score never reverses the order of two amounts.
pub proof fn vote_weight_is_monotonic(a: Balance, b: Balance)
    requires
        a <= b,
    ensures
        vote_weight(a) <= vote_weight(b),
{
}

} // verus!
