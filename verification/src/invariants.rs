//! What the tracker keeps true of its state: the ledger holds for each target
//! the sum of what its backers have at stake, and the rankings mirror the
//! ledger and the stakes.

use vstd::prelude::*;
use crate::ledger::amount_or_zero;
use crate::staking::StakingInterface;
use crate::tracker::{adjusted_ledger, adjustment_fits, reached, renominated_ledger};
use crate::types::{
    active_or_zero, backed_targets, nominated_targets, vote_weight, AccountId, Balance, Stake,
    VoteWeight,
};

verus! {

/// Every member of the target ranking has the amount of its ledger entry as
/// its score, zero where it has no entry.
pub open spec fn targets_mirror_ledger(
    scores: Map<AccountId, Balance>,
    entries: Map<AccountId, Balance>,
) -> bool {
    forall|target: AccountId| #[trigger]
        scores.contains_key(target) ==> scores[target] == amount_or_zero(entries, target)
}

/// Every member of the voter ranking other than `except` has the score of
/// its active stake.
pub open spec fn voters_mirror_stakes_except<S: StakingInterface>(
    scores: Map<AccountId, VoteWeight>,
    staking: S,
    except: AccountId,
) -> bool {
    forall|voter: AccountId| #[trigger]
        scores.contains_key(voter) && voter != except ==> scores[voter] == vote_weight(
            active_or_zero(staking.stake_of(voter)),
        )
}

/// Every member of the voter ranking has the score of its active stake.
pub open spec fn voters_mirror_stakes<S: StakingInterface>(
    scores: Map<AccountId, VoteWeight>,
    staking: S,
) -> bool {
    forall|voter: AccountId| #[trigger]
        scores.contains_key(voter) ==> scores[voter] == vote_weight(
            active_or_zero(staking.stake_of(voter)),
        )
}

/// What `who` adds to the approval stake of `target`: its active stake where
/// it backs the target, nothing otherwise.
pub open spec fn contribution<S: StakingInterface>(
    staking: S,
    who: AccountId,
    target: AccountId,
) -> int {
    if backed_targets(who, staking.role_of(who)).contains(target) {
        active_or_zero(staking.stake_of(who)) as int
    } else {
        0
    }
}

/// The approval stake of `target`: the sum of what each of `stakers` adds to it.
pub open spec fn approval_stake<S: StakingInterface>(
    staking: S,
    stakers: Seq<AccountId>,
    target: AccountId,
) -> int
    decreases stakers.len(),
{
    if stakers.len() == 0 {
        0
    } else {
        approval_stake(staking, stakers.drop_last(), target) + contribution(
            staking,
            stakers.last(),
            target,
        )
    }
}

/// The ledger holds for every target its approval stake over `stakers`; a
/// target without an entry has none.
pub open spec fn ledger_is_aggregate<S: StakingInterface>(
    entries: Map<AccountId, Balance>,
    staking: S,
    stakers: Seq<AccountId>,
) -> bool {
    forall|target: AccountId|
        amount_or_zero(entries, target) == #[trigger] approval_stake(staking, stakers, target)
}

/// Two staking sources hold the same stake and role for everyone but `who`.
pub open spec fn differ_only_at<S: StakingInterface>(before: S, after: S, who: AccountId) -> bool {
    &&& forall|id: AccountId| id != who ==> #[trigger] after.stake_of(id) == before.stake_of(id)
    &&& forall|id: AccountId| id != who ==> #[trigger] after.role_of(id) == before.role_of(id)
}

/// Where only `who` changed, the approval stake of a target changes by the
/// difference of what `who` adds to it.
pub proof fn approval_stake_changes_with_one_staker<S: StakingInterface>(
    before: S,
    after: S,
    stakers: Seq<AccountId>,
    who: AccountId,
    target: AccountId,
)
    requires
        stakers.no_duplicates(),
        differ_only_at(before, after, who),
    ensures
        approval_stake(after, stakers, target) == approval_stake(before, stakers, target) + (
        if stakers.contains(who) {
            contribution(after, who, target) - contribution(before, who, target)
        } else {
            0
        }),
    decreases stakers.len(),
{
    if stakers.len() > 0 {
        let rest = stakers.drop_last();
        let last = stakers.last();
        approval_stake_changes_with_one_staker(before, after, rest, who, target);
        assert(stakers[stakers.len() - 1] == last);
        if last == who {
            if rest.contains(who) {
                let k = choose|k: int| 0 <= k < rest.len() && rest[k] == who;
                assert(stakers[k] == who);
            }
        } else {
            assert(after.stake_of(last) == before.stake_of(last));
            assert(after.role_of(last) == before.role_of(last));
            if stakers.contains(who) {
                let k = choose|k: int| 0 <= k < stakers.len() && stakers[k] == who;
                assert(rest[k] == who);
            }
            if rest.contains(who) {
                let k = choose|k: int| 0 <= k < rest.len() && rest[k] == who;
                assert(stakers[k] == who);
            }
        }
    }
}

/// A stake update keeps the ledger the aggregate of the stakes: where the
/// ledger held every target's approval stake, `who` alone then changed its
/// stake from `prev_stake`, and its role stayed, the ledger that
/// `on_stake_update` leaves holds every target's approval stake again.
pub proof fn stake_update_keeps_ledger_aggregate<S: StakingInterface>(
    before: S,
    after: S,
    stakers: Seq<AccountId>,
    who: AccountId,
    prev_stake: Option<Stake>,
    entries: Map<AccountId, Balance>,
)
    requires
        stakers.no_duplicates(),
        stakers.contains(who),
        differ_only_at(before, after, who),
        after.role_of(who) == before.role_of(who),
        active_or_zero(before.stake_of(who)) == active_or_zero(prev_stake),
        ledger_is_aggregate(entries, before, stakers),
        adjustment_fits(
            entries,
            backed_targets(who, after.role_of(who)),
            Seq::empty(),
            active_or_zero(after.stake_of(who)) - active_or_zero(prev_stake),
        ),
    ensures
        ledger_is_aggregate(
            adjusted_ledger(
                entries,
                backed_targets(who, after.role_of(who)),
                Seq::empty(),
                active_or_zero(after.stake_of(who)) - active_or_zero(prev_stake),
            ),
            after,
            stakers,
        ),
{
    let backed = backed_targets(who, after.role_of(who));
    let delta = active_or_zero(after.stake_of(who)) - active_or_zero(prev_stake);
    let updated = adjusted_ledger(entries, backed, Seq::empty(), delta);
    assert forall|target: AccountId|
        amount_or_zero(updated, target) == #[trigger] approval_stake(after, stakers, target) by {
        approval_stake_changes_with_one_staker(before, after, stakers, who, target);
        assert(amount_or_zero(entries, target) == approval_stake(before, stakers, target));
        if backed.contains(target) {
            assert(reached(backed, Seq::empty(), target));
        }
    }
}

/// The first stake update of a new backer makes the ledger the aggregate
/// again: where the ledger held every target's approval stake while `who` was
/// idle, and `who` alone then took a role and a stake, the ledger that
/// `on_stake_update` leaves when it is told of no previous stake holds every
/// target's approval stake.
pub proof fn first_stake_update_makes_ledger_aggregate<S: StakingInterface>(
    before: S,
    after: S,
    stakers: Seq<AccountId>,
    who: AccountId,
    entries: Map<AccountId, Balance>,
)
    requires
        stakers.no_duplicates(),
        stakers.contains(who),
        differ_only_at(before, after, who),
        before.role_of(who) is Idle,
        ledger_is_aggregate(entries, before, stakers),
        adjustment_fits(
            entries,
            backed_targets(who, after.role_of(who)),
            Seq::empty(),
            active_or_zero(after.stake_of(who)) as int,
        ),
    ensures
        ledger_is_aggregate(
            adjusted_ledger(
                entries,
                backed_targets(who, after.role_of(who)),
                Seq::empty(),
                active_or_zero(after.stake_of(who)) - active_or_zero(None),
            ),
            after,
            stakers,
        ),
{
    let backed = backed_targets(who, after.role_of(who));
    let delta = active_or_zero(after.stake_of(who)) as int;
    let updated = adjusted_ledger(entries, backed, Seq::empty(), delta);
    assert(backed_targets(who, before.role_of(who)) =~= Seq::<AccountId>::empty());
    assert forall|target: AccountId|
        amount_or_zero(updated, target) == #[trigger] approval_stake(after, stakers, target) by {
        approval_stake_changes_with_one_staker(before, after, stakers, who, target);
        assert(amount_or_zero(entries, target) == approval_stake(before, stakers, target));
        if backed.contains(target) {
            assert(reached(backed, Seq::empty(), target));
        }
    }
}

/// A change of nominations keeps the ledger the aggregate of the stakes:
/// where the ledger held every target's approval stake, and the nominator
/// `who` alone then changed what it backs from `prev_nominations`, the ledger
/// that `on_nominator_update` leaves holds every target's approval stake again.
pub proof fn nominator_update_keeps_ledger_aggregate<S: StakingInterface>(
    before: S,
    after: S,
    stakers: Seq<AccountId>,
    who: AccountId,
    prev_nominations: Seq<AccountId>,
    entries: Map<AccountId, Balance>,
)
    requires
        stakers.no_duplicates(),
        stakers.contains(who),
        differ_only_at(before, after, who),
        after.stake_of(who) == before.stake_of(who),
        !(before.role_of(who) is Validator),
        !(after.role_of(who) is Validator),
        nominated_targets(before.role_of(who)) == prev_nominations,
        ledger_is_aggregate(entries, before, stakers),
        adjustment_fits(
            entries,
            prev_nominations,
            nominated_targets(after.role_of(who)),
            -active_or_zero(after.stake_of(who)),
        ),
        adjustment_fits(
            entries,
            nominated_targets(after.role_of(who)),
            prev_nominations,
            active_or_zero(after.stake_of(who)) as int,
        ),
    ensures
        ledger_is_aggregate(
            renominated_ledger(
                entries,
                prev_nominations,
                nominated_targets(after.role_of(who)),
                active_or_zero(after.stake_of(who)),
            ),
            after,
            stakers,
        ),
{
    let current = nominated_targets(after.role_of(who));
    let active = active_or_zero(after.stake_of(who));
    let updated = renominated_ledger(entries, prev_nominations, current, active);
    assert(backed_targets(who, before.role_of(who)) =~= prev_nominations);
    assert(backed_targets(who, after.role_of(who)) =~= current);
    assert forall|target: AccountId|
        amount_or_zero(updated, target) == #[trigger] approval_stake(after, stakers, target) by {
        approval_stake_changes_with_one_staker(before, after, stakers, who, target);
        assert(amount_or_zero(entries, target) == approval_stake(before, stakers, target));
        if reached(prev_nominations, current, target) {
        } else if reached(current, prev_nominations, target) {
        } else {
        }
    }
}

/// An adjustment by nothing leaves the ledger as it was, where every target
/// that it reaches has an entry; and one that reaches no target leaves it as
/// it was whatever the change.
pub proof fn idle_adjustment_keeps_ledger(
    entries: Map<AccountId, Balance>,
    gained: Seq<AccountId>,
    kept: Seq<AccountId>,
    delta: int,
)
    requires
        forall|target: AccountId| #[trigger]
            reached(gained, kept, target) ==> delta == 0 && entries.contains_key(
                target,
            ),
    ensures
        adjusted_ledger(entries, gained, kept, delta) == entries,
{
    assert(adjusted_ledger(entries, gained, kept, delta) =~= entries);
}

/// Removing an identity from a ranking twice leaves what removing it once leaves.
pub proof fn removal_is_idempotent<Score>(scores: Map<AccountId, Score>, who: AccountId)
    ensures
        scores.remove(who).remove(who) == scores.remove(who),
        !scores.contains_key(who) ==> scores.remove(who) == scores,
{
    assert(scores.remove(who).remove(who) =~= scores.remove(who));
    if !scores.contains_key(who) {
        assert(scores.remove(who) =~= scores);
    }
}

} // verus!
