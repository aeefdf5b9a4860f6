//! The stake tracker: the hooks that the staking source calls when stakes,
//! nominations and roles change, and which keep the approval-stake ledger and
//! the two rankings in step.

use vstd::prelude::*;
use crate::invariants::{targets_mirror_ledger, voters_mirror_stakes, voters_mirror_stakes_except};
use crate::ledger::{amount_or_zero, ApprovalStake};
use crate::ranking::{ListError, SortedListProvider};
use crate::staking::StakingInterface;
use crate::types::{
    active_or_zero, backed_targets, nominated_targets, to_vote, vote_weight, AccountId, Balance,
    Stake, StakeDelta, StakerStatus, VoteWeight,
};

verus! {

/// Whether `target` is one of `gained` and none of `kept`: the targets that an
/// adjustment reaches.
pub open spec fn reached(gained: Seq<AccountId>, kept: Seq<AccountId>, target: AccountId) -> bool {
    gained.contains(target) && !kept.contains(target)
}

/// Whether `delta` can be added to the ledger entry of every reached target
/// without leaving the range of an amount.
pub open spec fn adjustment_fits(
    entries: Map<AccountId, Balance>,
    gained: Seq<AccountId>,
    kept: Seq<AccountId>,
    delta: int,
) -> bool {
    forall|target: AccountId| #[trigger]
        reached(gained, kept, target) ==> 0 <= amount_or_zero(entries, target) + delta
            <= u128::MAX
}

/// The ledger after `delta` was added once to the entry of every reached
/// target, an absent entry counting as zero.
pub open spec fn adjusted_ledger(
    entries: Map<AccountId, Balance>,
    gained: Seq<AccountId>,
    kept: Seq<AccountId>,
    delta: int,
) -> Map<AccountId, Balance> {
    Map::new(
        |target: AccountId| entries.contains_key(target) || reached(gained, kept, target),
        |target: AccountId|
            if reached(gained, kept, target) {
                (amount_or_zero(entries, target) + delta) as u128
            } else {
                entries[target]
            },
    )
}

/// The target ranking after every reached member took its amount from `entries`.
pub open spec fn refreshed_scores(
    scores: Map<AccountId, Balance>,
    entries: Map<AccountId, Balance>,
    gained: Seq<AccountId>,
    kept: Seq<AccountId>,
) -> Map<AccountId, Balance> {
    Map::new(
        |target: AccountId| scores.contains_key(target),
        |target: AccountId|
            if reached(gained, kept, target) {
                entries[target]
            } else {
                scores[target]
            },
    )
}

/// The voter ranking after the member `who` took the score `score`; unchanged
/// where `who` is no member.
pub open spec fn refreshed_voter(
    scores: Map<AccountId, VoteWeight>,
    who: AccountId,
    score: VoteWeight,
) -> Map<AccountId, VoteWeight> {
    if scores.contains_key(who) {
        scores.insert(who, score)
    } else {
        scores
    }
}

proof fn lemma_prefix_step(list: Seq<AccountId>, i: int)
    requires
        0 <= i < list.len(),
    ensures
        forall|x: AccountId|
            list.take(i + 1).contains(x) <==> (list.take(i).contains(x) || x == list[i]),
{
    let longer = list.take(i + 1);
    let shorter = list.take(i);
    assert(longer =~= shorter.push(list[i]));
    assert forall|x: AccountId| longer.contains(x) implies (shorter.contains(x) || x == list[i]) by {
        let k = choose|k: int| 0 <= k < longer.len() && longer[k] == x;
        if k < i {
            assert(shorter[k] == x);
        }
    }
    assert forall|x: AccountId| (shorter.contains(x) || x == list[i]) implies longer.contains(
        x,
    ) by {
        if x == list[i] {
            assert(longer[i] == x);
        } else {
            let k = choose|k: int| 0 <= k < shorter.len() && shorter[k] == x;
            assert(longer[k] == x);
        }
    }
}

/// Whether `id` is among the first `upto` items of `list`.
pub fn in_prefix(list: &Vec<AccountId>, upto: usize, id: AccountId) -> (found: bool)
    requires
        upto <= list.len(),
    ensures
        found == list@.take(upto as int).contains(id),
{
    let mut i: usize = 0;
    while i < upto
        invariant
            i <= upto <= list.len(),
            !list@.take(i as int).contains(id),
        decreases upto - i,
    {
        proof {
            lemma_prefix_step(list@, i as int);
        }
        if list[i] == id {
            return true;
        }
        i += 1;
    }
    false
}

/// Whether `delta` can be added to the ledger entry of every identity that
/// is in `gained` and not in `kept`.
pub fn adjustment_admissible(
    ledger: &ApprovalStake,
    gained: &Vec<AccountId>,
    kept: &Vec<AccountId>,
    delta: StakeDelta,
) -> (fits: bool)
    ensures
        fits == adjustment_fits(ledger@, gained@, kept@, delta.signed()),
{
    let mut i: usize = 0;
    while i < gained.len()
        invariant
            i <= gained.len(),
            adjustment_fits(ledger@, gained@.take(i as int), kept@, delta.signed()),
        decreases gained.len() - i,
    {
        let target: AccountId = gained[i];
        proof {
            lemma_prefix_step(gained@, i as int);
            assert(kept@.take(kept@.len() as int) =~= kept@);
        }
        if !in_prefix(kept, kept.len(), target) && !ledger.admits(target, delta) {
            proof {
                assert(gained@[i as int] == target);
                assert(reached(gained@, kept@, target));
            }
            return false;
        }
        proof {
            assert forall|other: AccountId| #[trigger]
                reached(gained@.take(i + 1), kept@, other) implies 0 <= amount_or_zero(
                ledger@,
                other,
            ) + delta.signed() <= u128::MAX by {
                if other != target {
                    assert(reached(gained@.take(i as int), kept@, other));
                }
            }
        }
        i += 1;
    }
    proof {
        assert(gained@.take(gained@.len() as int) =~= gained@);
    }
    true
}

/// Adds `delta` once to the ledger entry of every identity that is in
/// `gained` and not in `kept`, and hands each new amount to the target
/// ranking where the identity is a member of it.
pub fn adjust_targets<T: SortedListProvider<Balance>>(
    ledger: &mut ApprovalStake,
    ranking: &mut T,
    gained: &Vec<AccountId>,
    kept: &Vec<AccountId>,
    delta: StakeDelta,
)
    requires
        adjustment_fits(old(ledger)@, gained@, kept@, delta.signed()),
    ensures
        final(ledger)@ == adjusted_ledger(old(ledger)@, gained@, kept@, delta.signed()),
        final(ranking).scores() == refreshed_scores(
            old(ranking).scores(),
            final(ledger)@,
            gained@,
            kept@,
        ),
        (forall|target: AccountId| !reached(gained@, kept@, target)) ==> *final(ledger) == *old(
            ledger,
        ) && *final(ranking) == *old(ranking),
{
    let ghost before = ledger@;
    let ghost scores_before = ranking.scores();
    let ghost ledger_before = *ledger;
    let ghost ranking_before = *ranking;
    let mut i: usize = 0;
    proof {
        assert(ledger@ =~= adjusted_ledger(before, gained@.take(0), kept@, delta.signed()));
        assert(ranking.scores() =~= refreshed_scores(
            scores_before,
            ledger@,
            gained@.take(0),
            kept@,
        ));
    }
    while i < gained.len()
        invariant
            i <= gained.len(),
            adjustment_fits(before, gained@, kept@, delta.signed()),
            ledger@ == adjusted_ledger(before, gained@.take(i as int), kept@, delta.signed()),
            ranking.scores() == refreshed_scores(
                scores_before,
                ledger@,
                gained@.take(i as int),
                kept@,
            ),
            (forall|target: AccountId| !reached(gained@.take(i as int), kept@, target)) ==> *ledger
                == ledger_before && *ranking == ranking_before,
        decreases gained.len() - i,
    {
        let target: AccountId = gained[i];
        proof {
            lemma_prefix_step(gained@, i as int);
            assert(kept@.take(kept@.len() as int) =~= kept@);
        }
        if !in_prefix(gained, i, target) && !in_prefix(kept, kept.len(), target) {
            proof {
                assert(gained@[i as int] == target);
                assert(reached(gained@, kept@, target));
                assert(reached(gained@.take(i + 1), kept@, target));
            }
            let amount = ledger.mutate_delta(target, delta);
            if ranking.contains(&target) {
                ranking.on_update(&target, amount);
            }
        }
        proof {
            assert forall|other: AccountId|
                reached(gained@.take(i as int), kept@, other) implies reached(
                gained@.take(i + 1),
                kept@,
                other,
            ) by {}
            assert(ledger@ =~= adjusted_ledger(
                before,
                gained@.take(i + 1),
                kept@,
                delta.signed(),
            ));
            assert(ranking.scores() =~= refreshed_scores(
                scores_before,
                ledger@,
                gained@.take(i + 1),
                kept@,
            ));
        }
        i += 1;
    }
    proof {
        assert(gained@.take(gained@.len() as int) =~= gained@);
    }
}

/// The ledger after a nominator with active stake `active` moved its backing
/// from the targets `previous` to the targets `current`: what it left loses
/// `active`, what it joined gains it, what it kept stays.
pub open spec fn renominated_ledger(
    entries: Map<AccountId, Balance>,
    previous: Seq<AccountId>,
    current: Seq<AccountId>,
    active: Balance,
) -> Map<AccountId, Balance> {
    Map::new(
        |target: AccountId|
            entries.contains_key(target) || previous.contains(target) != current.contains(target),
        |target: AccountId|
            if reached(previous, current, target) {
                (amount_or_zero(entries, target) - active) as u128
            } else if reached(current, previous, target) {
                (amount_or_zero(entries, target) + active) as u128
            } else {
                entries[target]
            },
    )
}

/// The target ranking after every member that the nominator left or joined
/// took its amount from `entries`.
pub open spec fn renominated_scores(
    scores: Map<AccountId, Balance>,
    entries: Map<AccountId, Balance>,
    previous: Seq<AccountId>,
    current: Seq<AccountId>,
) -> Map<AccountId, Balance> {
    Map::new(
        |target: AccountId| scores.contains_key(target),
        |target: AccountId|
            if previous.contains(target) != current.contains(target) {
                entries[target]
            } else {
                scores[target]
            },
    )
}

/// The tracker's state: the approval-stake ledger, which it owns, and its
/// three collaborators.
pub struct StakeTracker<S, V, T> {
    /// The staking source.
    pub staking: S,
    /// The voter ranking.
    pub voters: V,
    /// The target ranking.
    pub targets: T,
    /// The approval-stake ledger.
    pub ledger: ApprovalStake,
}

impl<
    S: StakingInterface,
    V: SortedListProvider<VoteWeight>,
    T: SortedListProvider<Balance>,
> StakeTracker<S, V, T> {
    /// A tracker with an empty ledger over the given collaborators.
    pub fn new(staking: S, voters: V, targets: T) -> (tracker: Self)
        ensures
            tracker.staking == staking,
            tracker.voters == voters,
            tracker.targets == targets,
            tracker.ledger@ == Map::<AccountId, Balance>::empty(),
    {
        StakeTracker { staking, voters, targets, ledger: ApprovalStake::new() }
    }

    /// The active stake of `who` in the staking source, zero where it has none.
    pub open spec fn active_stake(&self, who: AccountId) -> Balance {
        active_or_zero(self.staking.stake_of(who))
    }

    /// The targets that `who` contributes to.
    pub open spec fn backed(&self, who: AccountId) -> Seq<AccountId> {
        backed_targets(who, self.staking.role_of(who))
    }

    /// The targets that `who` nominates.
    pub open spec fn nominated(&self, who: AccountId) -> Seq<AccountId> {
        nominated_targets(self.staking.role_of(who))
    }

    /// Whether `on_stake_update` may be called: `who` has a stake, and the
    /// change fits the ledger entry of every target that it backs.
    pub open spec fn allows_stake_update(&self, who: AccountId, prev_stake: Option<Stake>) -> bool {
        &&& self.staking.stake_of(who) is Some
        &&& adjustment_fits(
            self.ledger@,
            self.backed(who),
            Seq::empty(),
            self.active_stake(who) - active_or_zero(prev_stake),
        )
    }

    /// Whether `on_nominator_update` may be called: `who` has a stake, every
    /// target that it left holds at least that much, and every target that it
    /// joined has room for it.
    pub open spec fn allows_nominator_update(
        &self,
        who: AccountId,
        prev_nominations: Seq<AccountId>,
    ) -> bool {
        &&& self.staking.stake_of(who) is Some
        &&& adjustment_fits(
            self.ledger@,
            prev_nominations,
            self.nominated(who),
            -self.active_stake(who),
        )
        &&& adjustment_fits(
            self.ledger@,
            self.nominated(who),
            prev_nominations,
            self.active_stake(who) as int,
        )
    }

    /// Whether `on_validator_add` may be called: `who` is a member of the
    /// voter ranking or has a stake.
    pub open spec fn allows_validator_add(&self, who: AccountId) -> bool {
        self.voters.scores().contains_key(who) || self.staking.stake_of(who) is Some
    }

    /// Tells whether `on_stake_update` may be called with these arguments.
    /// Without a stake of `who` it never may.
    pub fn admits_stake_update(&self, who: &AccountId, prev_stake: Option<Stake>) -> (allowed: bool)
        ensures
            allowed == self.allows_stake_update(*who, prev_stake),
            self.staking.stake_of(*who) is None ==> !allowed,
    {
        let current: Balance = match self.staking.stake(who) {
            Some(stake) => stake.active,
            None => {
                return false;
            },
        };
        let previous: Balance = match prev_stake {
            Some(stake) => stake.active,
            None => 0,
        };
        let delta = StakeDelta::between(previous, current);
        let affected: Vec<AccountId> = match self.staking.status(who) {
            StakerStatus::Idle => Vec::new(),
            StakerStatus::Validator => {
                let mut own: Vec<AccountId> = Vec::new();
                own.push(*who);
                proof {
                    assert(own@ =~= seq![*who]);
                }
                own
            },
            StakerStatus::Nominator(nominations) => nominations,
        };
        let nobody: Vec<AccountId> = Vec::new();
        proof {
            assert(nobody@ =~= Seq::<AccountId>::empty());
            assert(affected@ =~= self.backed(*who));
        }
        adjustment_admissible(&self.ledger, &affected, &nobody, delta)
    }

    /// Tells whether `on_nominator_update` may be called with these
    /// arguments. Without a stake of `who` it never may.
    pub fn admits_nominator_update(&self, who: &AccountId, prev_nominations: &Vec<AccountId>) -> (allowed:
        bool)
        ensures
            allowed == self.allows_nominator_update(*who, prev_nominations@),
            self.staking.stake_of(*who) is None ==> !allowed,
    {
        let active: Balance = match self.staking.stake(who) {
            Some(stake) => stake.active,
            None => {
                return false;
            },
        };
        let nominations: Vec<AccountId> = match self.staking.status(who) {
            StakerStatus::Nominator(nominations) => nominations,
            _ => Vec::new(),
        };
        proof {
            assert(nominations@ =~= self.nominated(*who));
        }
        adjustment_admissible(
            &self.ledger,
            prev_nominations,
            &nominations,
            StakeDelta::Decrease(active),
        ) && adjustment_admissible(
            &self.ledger,
            &nominations,
            prev_nominations,
            StakeDelta::Increase(active),
        )
    }

    /// Tells whether `on_validator_add` may be called for `who`.
    pub fn admits_validator_add(&self, who: &AccountId) -> (allowed: bool)
        ensures
            allowed == self.allows_validator_add(*who),
    {
        self.voters.contains(who) || self.staking.stake(who).is_some()
    }

    /// The bonded stake of `who` changed from `prev_stake` to what the staking
    /// source now holds. The difference of the active parts goes to the
    /// ledger entry of every target that `who` backs, each such member of the
    /// target ranking takes its new amount, and `who`, where it is a member
    /// of the voter ranking, takes the score of its active stake. An idle
    /// identity changes nothing.
    pub fn on_stake_update(&mut self, who: &AccountId, prev_stake: Option<Stake>)
        requires
            old(self).allows_stake_update(*who, prev_stake),
        ensures
            final(self).staking == old(self).staking,
            final(self).ledger@ == adjusted_ledger(
                old(self).ledger@,
                old(self).backed(*who),
                Seq::empty(),
                old(self).active_stake(*who) - active_or_zero(prev_stake),
            ),
            final(self).targets.scores() == refreshed_scores(
                old(self).targets.scores(),
                final(self).ledger@,
                old(self).backed(*who),
                Seq::empty(),
            ),
            final(self).voters.scores() == (if old(self).staking.role_of(*who) is Idle {
                old(self).voters.scores()
            } else {
                refreshed_voter(
                    old(self).voters.scores(),
                    *who,
                    vote_weight(old(self).active_stake(*who)),
                )
            }),
            old(self).staking.role_of(*who) is Idle ==> *final(self) == *old(self),
            targets_mirror_ledger(old(self).targets.scores(), old(self).ledger@)
                ==> targets_mirror_ledger(final(self).targets.scores(), final(self).ledger@),
            !(old(self).staking.role_of(*who) is Idle) && voters_mirror_stakes_except(
                old(self).voters.scores(),
                old(self).staking,
                *who,
            ) ==> voters_mirror_stakes(final(self).voters.scores(), final(self).staking),
    {
        let current: Balance = self.staking.stake(who).unwrap().active;
        let previous: Balance = match prev_stake {
            Some(stake) => stake.active,
            None => 0,
        };
        let delta = StakeDelta::between(previous, current);
        let affected: Vec<AccountId> = match self.staking.status(who) {
            StakerStatus::Idle => {
                proof {
                    assert(self.ledger@ =~= adjusted_ledger(
                        self.ledger@,
                        Seq::empty(),
                        Seq::empty(),
                        delta.signed(),
                    ));
                    assert(self.targets.scores() =~= refreshed_scores(
                        self.targets.scores(),
                        self.ledger@,
                        Seq::empty(),
                        Seq::empty(),
                    ));
                }
                return ;
            },
            StakerStatus::Validator => {
                let mut own: Vec<AccountId> = Vec::new();
                own.push(*who);
                proof {
                    assert(own@ =~= seq![*who]);
                }
                own
            },
            StakerStatus::Nominator(nominations) => nominations,
        };
        let nobody: Vec<AccountId> = Vec::new();
        proof {
            assert(nobody@ =~= Seq::<AccountId>::empty());
        }
        adjust_targets(&mut self.ledger, &mut self.targets, &affected, &nobody, delta);
        if self.voters.contains(who) {
            self.voters.on_update(who, to_vote(current));
        }
    }

    /// The nominator `who`, which backed `prev_nominations`, now backs what
    /// the staking source holds for it. Every target that it left loses its
    /// active stake in the ledger, every target that it joined gains it, and
    /// each such member of the target ranking takes its new amount. Where
    /// `who` is a member of the voter ranking it takes the score of its
    /// active stake; it is not inserted.
    pub fn on_nominator_update(&mut self, who: &AccountId, prev_nominations: Vec<AccountId>)
        requires
            old(self).allows_nominator_update(*who, prev_nominations@),
        ensures
            final(self).staking == old(self).staking,
            final(self).ledger@ == renominated_ledger(
                old(self).ledger@,
                prev_nominations@,
                old(self).nominated(*who),
                old(self).active_stake(*who),
            ),
            final(self).targets.scores() == renominated_scores(
                old(self).targets.scores(),
                final(self).ledger@,
                prev_nominations@,
                old(self).nominated(*who),
            ),
            final(self).voters.scores() == refreshed_voter(
                old(self).voters.scores(),
                *who,
                vote_weight(old(self).active_stake(*who)),
            ),
            !old(self).voters.scores().contains_key(*who) && (forall|target: AccountId|
                prev_nominations@.contains(target) == old(self).nominated(*who).contains(target))
                ==> *final(self) == *old(self),
            targets_mirror_ledger(old(self).targets.scores(), old(self).ledger@)
                ==> targets_mirror_ledger(final(self).targets.scores(), final(self).ledger@),
            voters_mirror_stakes_except(
                old(self).voters.scores(),
                old(self).staking,
                *who,
            ) ==> voters_mirror_stakes(final(self).voters.scores(), final(self).staking),
    {
        let active: Balance = self.staking.stake(who).unwrap().active;
        let nominations: Vec<AccountId> = match self.staking.status(who) {
            StakerStatus::Nominator(nominations) => nominations,
            _ => Vec::new(),
        };
        let ghost before = self.ledger@;
        let ghost scores_before = self.targets.scores();
        proof {
            assert(nominations@ =~= self.nominated(*who));
        }
        adjust_targets(
            &mut self.ledger,
            &mut self.targets,
            &prev_nominations,
            &nominations,
            StakeDelta::Decrease(active),
        );
        let ghost between = self.ledger@;
        proof {
            assert forall|target: AccountId| #[trigger]
                reached(nominations@, prev_nominations@, target) implies 0 <= amount_or_zero(
                between,
                target,
            ) + active <= u128::MAX by {
                assert(!reached(prev_nominations@, nominations@, target));
                assert(amount_or_zero(between, target) == amount_or_zero(before, target));
            }
        }
        adjust_targets(
            &mut self.ledger,
            &mut self.targets,
            &nominations,
            &prev_nominations,
            StakeDelta::Increase(active),
        );
        proof {
            assert(self.ledger@ =~= renominated_ledger(
                before,
                prev_nominations@,
                nominations@,
                active,
            ));
            assert(self.targets.scores() =~= renominated_scores(
                scores_before,
                self.ledger@,
                prev_nominations@,
                nominations@,
            ));
        }
        if self.voters.contains(who) {
            self.voters.on_update(who, to_vote(active));
        }
    }

    /// `who` became a validator. Where it is a member of the voter ranking
    /// nothing changes; otherwise it is inserted there with the score of its
    /// active stake, and a refusal of the ranking is handed back. Ledger and
    /// target ranking are left to the stake update that goes with the change.
    pub fn on_validator_add(&mut self, who: &AccountId) -> (outcome: Result<(), ListError>)
        requires
            old(self).allows_validator_add(*who),
        ensures
            final(self).staking == old(self).staking,
            final(self).targets == old(self).targets,
            final(self).ledger == old(self).ledger,
            old(self).voters.scores().contains_key(*who) ==> outcome is Ok
                && *final(self) == *old(self),
            outcome is Ok && !old(self).voters.scores().contains_key(*who)
                ==> final(self).voters.scores() == old(self).voters.scores().insert(
                *who,
                vote_weight(old(self).active_stake(*who)),
            ),
            outcome is Err ==> final(self).voters.scores() == old(self).voters.scores(),
            outcome != Err::<(), ListError>(ListError::Duplicate),
            voters_mirror_stakes(old(self).voters.scores(), old(self).staking)
                ==> voters_mirror_stakes(final(self).voters.scores(), final(self).staking),
    {
        if self.voters.contains(who) {
            return Ok(());
        }
        let active: Balance = self.staking.stake(who).unwrap().active;
        self.voters.on_insert(*who, to_vote(active))
    }

    /// `who` is no validator any more: it leaves the voter ranking. Nothing
    /// changes where it is no member, whether or not it still has a stake.
    pub fn on_validator_remove(&mut self, who: &AccountId)
        ensures
            final(self).staking == old(self).staking,
            final(self).targets == old(self).targets,
            final(self).ledger == old(self).ledger,
            final(self).voters.scores() == old(self).voters.scores().remove(*who),
            !old(self).voters.scores().contains_key(*who) ==> *final(self) == *old(self),
            voters_mirror_stakes(old(self).voters.scores(), old(self).staking)
                ==> voters_mirror_stakes(final(self).voters.scores(), final(self).staking),
    {
        if self.voters.contains(who) {
            self.voters.on_remove(who);
        } else {
            proof {
                assert(self.voters.scores() =~= self.voters.scores().remove(*who));
            }
        }
    }

    /// `who` is no nominator any more: it leaves the voter ranking. Nothing
    /// changes where it is no member, whether or not it still has a stake.
    /// The nominations that it gives up are not read.
    pub fn on_nominator_remove(&mut self, who: &AccountId, nominations: Vec<AccountId>)
        ensures
            final(self).staking == old(self).staking,
            final(self).targets == old(self).targets,
            final(self).ledger == old(self).ledger,
            final(self).voters.scores() == old(self).voters.scores().remove(*who),
            !old(self).voters.scores().contains_key(*who) ==> *final(self) == *old(self),
            voters_mirror_stakes(old(self).voters.scores(), old(self).staking)
                ==> voters_mirror_stakes(final(self).voters.scores(), final(self).staking),
    {
        if self.voters.contains(who) {
            self.voters.on_remove(who);
        } else {
            proof {
                assert(self.voters.scores() =~= self.voters.scores().remove(*who));
            }
        }
    }

    /// `who` withdrew all of its stake. Nothing is changed, whatever the state.
    pub fn on_unstake(&mut self, who: &AccountId)
        ensures
            *final(self) == *old(self),
    {
    }
}

} // verus!
