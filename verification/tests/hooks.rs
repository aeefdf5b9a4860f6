use stake_tracker::ledger::ApprovalStake;
use stake_tracker::ranking::{ListError, ScoreList, SortedListProvider};
use stake_tracker::staking::{copy_targets, StakingInterface, StakingTable};
use stake_tracker::tracker::{adjust_targets, adjustment_admissible, in_prefix, StakeTracker};
use stake_tracker::types::{to_vote, Stake, StakeDelta, StakerStatus};

type Tracker = StakeTracker<StakingTable, ScoreList<u64>, ScoreList<u128>>;

/// A bonded idle identity 1, validators 10 and 11, a nominator 20 that backs
/// both validators, and nothing bonded for 30.
fn staking() -> StakingTable {
    let mut table = StakingTable::new();
    table.bond(1, 100, 100);
    table.bond(10, 9, 10);
    table.bond(11, 15, 15);
    table.bond(20, 50, 60);
    table.set_status(10, StakerStatus::Validator);
    table.set_status(11, StakerStatus::Validator);
    table.set_status(20, StakerStatus::Nominator(vec![10, 11]));
    table
}

fn tracker() -> Tracker {
    StakeTracker::new(staking(), ScoreList::new(), ScoreList::new())
}

fn active(t: &Tracker, who: u64) -> u128 {
    t.staking.stake(&who).map(|s| s.active).unwrap()
}

/// Everything that can be seen of a tracker's state for the identities in use.
fn observe(t: &Tracker) -> (usize, usize, usize, Vec<(Option<u128>, Option<u64>, Option<u128>)>) {
    let mut seen = Vec::new();
    for id in [1u64, 10, 11, 20, 30] {
        seen.push((t.ledger.get(id), t.voters.get_score(&id), t.targets.get_score(&id)));
    }
    (t.ledger.count(), t.voters.count(), t.targets.count(), seen)
}

#[test]
fn empty_lists() {
    let mut t = tracker();
    assert_eq!(t.voters.count(), 0);
    assert_eq!(t.targets.count(), 0);
    let validator_id = 10u64;
    // usual user
    let before = observe(&t);
    t.on_stake_update(&1, None);
    assert_eq!(observe(&t), before);
    // validator
    t.on_stake_update(&validator_id, None);
    assert_eq!(t.ledger.get(validator_id).unwrap(), t.staking.stake(&validator_id).unwrap().active);
    assert_eq!(t.ledger.count(), 1);

    // nominator
    t.on_stake_update(&20, None);
    assert_eq!(
        t.ledger.get(validator_id).unwrap(),
        t.staking.stake(&validator_id).unwrap().active + t.staking.stake(&20).unwrap().active
    );
    assert_eq!(t.ledger.get(11).unwrap(), t.staking.stake(&20).unwrap().active);
    assert_eq!(t.ledger.count(), 2);
    assert_eq!(t.voters.count(), 0);
    assert_eq!(t.targets.count(), 0);
}

#[test]
fn noop_when_not_validator_or_nominator() {
    let mut t = tracker();
    t.voters.on_insert(1, 10000).unwrap();
    // usual user
    let before = observe(&t);
    t.on_stake_update(&1, None);
    assert_eq!(observe(&t), before);
    assert_eq!(t.voters.get_score(&1), Some(10000));
}

#[test]
fn works_for_validators_and_nominators() {
    let mut t = tracker();
    assert_eq!(t.voters.count(), 0);
    assert_eq!(t.targets.count(), 0);

    let score = 1000;
    let stake = 0;
    let validator_id = 10;
    let validator2_id = 11;
    let nominator_id = 20;

    // validator
    let _ = t.voters.on_insert(validator_id, score).unwrap();
    let _ = t.targets.on_insert(validator_id, stake).unwrap();

    assert_eq!(t.voters.get_score(&validator_id).unwrap(), score);
    assert_eq!(t.targets.get_score(&validator_id).unwrap(), stake);

    // Previous stake is less than current (default: 0)
    t.on_stake_update(&validator_id, None);
    // The voter ranking does not care about the previous stake, so it is tested only once.
    assert_eq!(t.voters.get_score(&validator_id).unwrap(), to_vote(active(&t, validator_id)));
    assert_eq!(t.targets.get_score(&validator_id).unwrap(), active(&t, validator_id));

    // Previous stake is more than current, 10 vs 9: the approval stake goes down by 1.
    t.on_stake_update(&validator_id, Some(Stake { stash: validator_id, active: 10, total: 11 }));
    assert_eq!(t.targets.get_score(&validator_id).unwrap(), active(&t, validator_id) - 1);

    // Previous stake is less than current, 8 vs 9: the approval stake goes up by 1.
    t.on_stake_update(&validator_id, Some(Stake { stash: validator_id, active: 8, total: 9 }));
    assert_eq!(t.targets.get_score(&validator_id).unwrap(), active(&t, validator_id));

    assert_eq!(t.voters.count(), 1);
    assert_eq!(t.targets.count(), 1);

    // nominator
    let _ = t.voters.on_insert(nominator_id, score).unwrap();
    let _ = t.targets.on_insert(validator2_id, stake);

    // Nominating two validators, one already has its own stake, the other has 0.
    t.on_stake_update(&nominator_id, None);
    assert_eq!(t.voters.get_score(&nominator_id).unwrap(), to_vote(active(&t, nominator_id)));
    assert_eq!(
        t.targets.get_score(&validator_id).unwrap(),
        active(&t, nominator_id) + active(&t, validator_id)
    );
    assert_eq!(t.ledger.get(validator_id).unwrap(), t.targets.get_score(&validator_id).unwrap());
    assert_eq!(t.targets.get_score(&validator2_id).unwrap(), active(&t, nominator_id));
    assert_eq!(t.ledger.get(validator2_id).unwrap(), t.targets.get_score(&validator2_id).unwrap());
    assert_eq!(t.voters.count(), 2);
    assert_eq!(t.targets.count(), 2);
}

// on_nominator_update: a member of the voter ranking is not inserted again; it
// takes the score of its active stake, and the targets it joined gain that stake.
#[test]
fn noop_when_in_the_list() {
    let mut t = tracker();
    assert_eq!(t.voters.count(), 0);

    // usual user, validator, nominator
    for id in [1u64, 10, 20] {
        let _ = t.voters.on_insert(id, 1000);
        let members = t.voters.count();
        let targets_before = t.targets.count();
        t.on_nominator_update(&id, Vec::new());
        assert_eq!(t.voters.count(), members);
        assert_eq!(t.targets.count(), targets_before);
        assert_eq!(t.voters.get_score(&id), Some(to_vote(active(&t, id))));
    }
    // Only the nominator backs anybody: 10 and 11 gained its 50.
    assert_eq!(t.ledger.count(), 2);
    assert_eq!(t.ledger.get(10), Some(50));
    assert_eq!(t.ledger.get(11), Some(50));
    assert_eq!(t.ledger.get(1), None);
    assert_eq!(t.ledger.get(20), None);
}

// on_nominator_update: whoever is a member of the voter ranking ends with the
// score of its active stake; whoever is not stays out.
#[test]
fn works_for_everyone() {
    let mut t = tracker();
    assert_eq!(t.voters.count(), 0);

    // usual user, validator, nominator
    for id in [1u64, 10, 20] {
        t.on_nominator_update(&id, Vec::new());
        assert_eq!(t.voters.get_score(&id), None);
    }
    assert_eq!(t.voters.count(), 0);

    let mut t = tracker();
    for id in [1u64, 10, 20] {
        t.voters.on_insert(id, 0).unwrap();
        t.on_nominator_update(&id, Vec::new());
        assert_eq!(t.voters.get_score(&id).unwrap(), to_vote(active(&t, id)));
    }
}

// on_validator_add
#[test]
fn tests_noop_when_in_the_list() {
    let mut t = tracker();
    assert_eq!(t.voters.count(), 0);

    // usual user, validator, nominator
    for id in [1u64, 10, 20] {
        let _ = t.voters.on_insert(id, 1000);
        let before = observe(&t);
        assert_eq!(t.on_validator_add(&id), Ok(()));
        assert_eq!(observe(&t), before);
        assert_eq!(t.voters.get_score(&id), Some(1000));
    }
}

// on_validator_add
#[test]
fn tests_works_for_everyone() {
    let mut t = tracker();
    assert_eq!(t.voters.count(), 0);

    // usual user, validator, nominator
    for id in [1u64, 10, 20] {
        t.on_validator_add(&id).unwrap();
        assert_eq!(t.voters.get_score(&id).unwrap(), to_vote(active(&t, id)));
    }
    assert_eq!(t.voters.count(), 3);
    assert_eq!(t.ledger.count(), 0);
    assert_eq!(t.targets.count(), 0);
}

// on_validator_remove
#[test]
fn noop_when_not_in_the_list() {
    let mut t = tracker();
    assert_eq!(t.voters.count(), 0);

    // usual user, validator, nominator, not bonded
    for id in [1u64, 10, 20, 30] {
        let before = observe(&t);
        t.on_validator_remove(&id);
        assert_eq!(observe(&t), before);
    }
}

// on_validator_remove
#[test]
fn works_for_everyone_also_unbonded() {
    let mut t = tracker();
    assert_eq!(t.voters.count(), 0);

    // usual user, validator, nominator, not bonded
    for id in [1u64, 10, 20, 30] {
        let _ = t.voters.on_insert(id, 100);
        assert_eq!(t.voters.count(), 1);
        t.on_validator_remove(&id);
        assert_eq!(t.voters.count(), 0);
    }
}

// on_nominator_remove
#[test]
fn tests_noop_when_not_in_the_list() {
    let mut t = tracker();
    assert_eq!(t.voters.count(), 0);

    // usual user, validator, nominator, not bonded
    for id in [1u64, 10, 20, 30] {
        let before = observe(&t);
        t.on_nominator_remove(&id, Vec::new());
        assert_eq!(observe(&t), before);
    }
}

// on_nominator_remove
#[test]
fn tests_works_for_everyone_also_unbonded() {
    let mut t = tracker();
    assert_eq!(t.voters.count(), 0);

    // usual user, validator, nominator, not bonded
    for id in [1u64, 10, 20, 30] {
        let _ = t.voters.on_insert(id, 100);
        assert_eq!(t.voters.count(), 1);
        t.on_nominator_remove(&id, Vec::new());
        assert_eq!(t.voters.count(), 0);
    }
}

#[test]
fn noop() {
    let mut t = tracker();
    assert_eq!(t.voters.count(), 0);

    // usual user, validator, nominator, not bonded
    for id in [1u64, 10, 20, 30] {
        let before = observe(&t);
        t.on_unstake(&id);
        assert_eq!(observe(&t), before);
    }

    // usual user, validator, nominator, not bonded
    for id in [1u64, 10, 20, 30] {
        assert!(t.voters.on_insert(id, 100).is_ok());
        let before = observe(&t);
        t.on_unstake(&id);
        assert_eq!(observe(&t), before);
    }
}

#[test]
fn validator_stake_update_on_empty_state_creates_one_entry() {
    let mut table = StakingTable::new();
    table.bond(10, 100, 100);
    table.set_status(10, StakerStatus::Validator);
    let mut t: Tracker = StakeTracker::new(table, ScoreList::new(), ScoreList::new());
    t.on_stake_update(&10, None);
    assert_eq!(t.ledger.get(10), Some(100));
    assert_eq!(t.ledger.count(), 1);
    assert_eq!(t.voters.count(), 0);
    assert_eq!(t.targets.count(), 0);
}

#[test]
fn nominator_stake_update_reaches_target_and_voter_rankings() {
    let mut table = StakingTable::new();
    table.bond(10, 100, 100);
    table.bond(20, 50, 50);
    table.set_status(10, StakerStatus::Validator);
    table.set_status(20, StakerStatus::Nominator(vec![10]));
    let mut t: Tracker = StakeTracker::new(table, ScoreList::new(), ScoreList::new());
    t.voters.on_insert(10, 0).unwrap();
    t.targets.on_insert(10, 0).unwrap();
    t.voters.on_insert(20, 0).unwrap();
    t.on_stake_update(&10, None);
    assert_eq!(t.ledger.get(10), Some(100));
    t.on_stake_update(&20, None);
    assert_eq!(t.ledger.get(10), Some(150));
    assert_eq!(t.targets.get_score(&10), Some(150));
    assert_eq!(t.voters.get_score(&20), Some(to_vote(50)));
    assert_eq!(t.voters.get_score(&20), Some(50));
    assert_eq!(t.voters.get_score(&10), Some(100));
}

#[test]
fn smaller_stake_decrements_the_ledger() {
    let mut table = StakingTable::new();
    table.bond(10, 10, 11);
    table.set_status(10, StakerStatus::Validator);
    let mut t: Tracker = StakeTracker::new(table, ScoreList::new(), ScoreList::new());
    t.on_stake_update(&10, None);
    assert_eq!(t.ledger.get(10), Some(10));
    t.staking.bond(10, 9, 11);
    t.on_stake_update(&10, Some(Stake { stash: 10, active: 10, total: 11 }));
    assert_eq!(t.ledger.get(10), Some(9));
    // The entry stays when it falls to zero.
    t.staking.bond(10, 0, 11);
    t.on_stake_update(&10, Some(Stake { stash: 10, active: 9, total: 11 }));
    assert_eq!(t.ledger.get(10), Some(0));
    assert_eq!(t.ledger.count(), 1);
}

#[test]
fn zero_delta_still_refreshes_scores() {
    let mut t = tracker();
    t.on_stake_update(&10, None);
    t.voters.on_insert(10, 77).unwrap();
    t.targets.on_insert(10, 77).unwrap();
    t.on_stake_update(&10, Some(Stake { stash: 10, active: 9, total: 10 }));
    assert_eq!(t.ledger.get(10), Some(9));
    assert_eq!(t.voters.get_score(&10), Some(9));
    assert_eq!(t.targets.get_score(&10), Some(9));
}

#[test]
fn nominator_update_moves_backing() {
    let mut t = tracker();
    t.targets.on_insert(10, 0).unwrap();
    t.targets.on_insert(11, 0).unwrap();
    t.on_stake_update(&10, None);
    t.on_stake_update(&11, None);
    t.on_stake_update(&20, None);
    assert_eq!(t.ledger.get(10), Some(59));
    assert_eq!(t.ledger.get(11), Some(65));
    // 20 drops 10, keeps 11 and joins 1; a target named twice counts once.
    t.staking.set_status(20, StakerStatus::Nominator(vec![11, 1, 1]));
    t.on_nominator_update(&20, vec![10, 11, 10]);
    assert_eq!(t.ledger.get(10), Some(9));
    assert_eq!(t.ledger.get(11), Some(65));
    assert_eq!(t.ledger.get(1), Some(50));
    assert_eq!(t.targets.get_score(&10), Some(9));
    assert_eq!(t.targets.get_score(&11), Some(65));
    assert_eq!(t.targets.get_score(&1), None);
    assert_eq!(t.voters.count(), 0);
    // The same nominations again change nothing.
    let before = observe(&t);
    t.on_nominator_update(&20, vec![1, 11]);
    assert_eq!(observe(&t), before);
}

#[test]
fn removal_twice_is_removal_once() {
    let mut t = tracker();
    t.on_validator_add(&10).unwrap();
    t.on_validator_add(&20).unwrap();
    t.on_validator_remove(&10);
    let once = observe(&t);
    t.on_validator_remove(&10);
    assert_eq!(observe(&t), once);
    t.on_nominator_remove(&20, vec![10, 11]);
    let once = observe(&t);
    t.on_nominator_remove(&20, vec![10, 11]);
    assert_eq!(observe(&t), once);
    assert_eq!(t.voters.count(), 0);
}

#[test]
fn to_vote_keeps_small_amounts_and_saturates() {
    assert_eq!(to_vote(0), 0);
    assert_eq!(to_vote(50), 50);
    assert_eq!(to_vote(u64::MAX as u128), u64::MAX);
    assert_eq!(to_vote(u64::MAX as u128 + 1), u64::MAX);
    assert_eq!(to_vote(u128::MAX), u64::MAX);
    assert!(to_vote(7) <= to_vote(8));
}

#[test]
fn stake_delta_between_two_amounts() {
    assert_eq!(StakeDelta::between(10, 9), StakeDelta::Decrease(1));
    assert_eq!(StakeDelta::between(8, 9), StakeDelta::Increase(1));
    assert_eq!(StakeDelta::between(9, 9), StakeDelta::Increase(0));
}

#[test]
fn ledger_accessors() {
    let mut ledger = ApprovalStake::new();
    assert_eq!(ledger.count(), 0);
    assert_eq!(ledger.get(7), None);
    assert_eq!(ledger.mutate_delta(7, StakeDelta::Increase(5)), 5);
    assert_eq!(ledger.get(7), Some(5));
    assert_eq!(ledger.mutate_delta(7, StakeDelta::Decrease(2)), 3);
    assert_eq!(ledger.get(7), Some(3));
    ledger.set(8, 40);
    ledger.set(7, 1);
    assert_eq!(ledger.get(7), Some(1));
    assert_eq!(ledger.count(), 2);
    ledger.remove(7);
    ledger.remove(7);
    assert_eq!(ledger.get(7), None);
    assert_eq!(ledger.count(), 1);
}

#[test]
fn score_list_refuses_a_member() {
    let mut list: ScoreList<u64> = ScoreList::new();
    assert_eq!(list.on_insert(3, 10), Ok(()));
    assert_eq!(list.on_insert(3, 11), Err(ListError::Duplicate));
    assert_eq!(list.get_score(&3), Some(10));
    list.on_update(&3, 12);
    list.on_update(&4, 12);
    assert_eq!(list.get_score(&3), Some(12));
    assert!(!list.contains(&4));
    list.on_remove(&3);
    assert_eq!(list.count(), 0);
}

#[test]
fn staking_table_reads_back_what_was_set() {
    let mut table = staking();
    assert_eq!(table.stake(&30), None);
    assert_eq!(table.stake(&20), Some(Stake { stash: 20, active: 50, total: 60 }));
    assert_eq!(table.status(&1), StakerStatus::Idle);
    assert_eq!(table.status(&10), StakerStatus::Validator);
    assert_eq!(table.status(&20), StakerStatus::Nominator(vec![10, 11]));
    table.withdraw(20);
    assert_eq!(table.stake(&20), None);
    assert_eq!(table.status(&20), StakerStatus::Idle);
}

#[test]
fn hooks_are_not_admitted_without_a_stake() {
    let mut t = tracker();
    assert!(!t.admits_stake_update(&30, None));
    assert!(!t.admits_stake_update(&30, Some(Stake { stash: 30, active: 5, total: 5 })));
    assert!(!t.admits_nominator_update(&30, &Vec::new()));
    assert!(!t.admits_nominator_update(&30, &vec![10, 11]));
    assert!(!t.admits_validator_add(&30));
    t.voters.on_insert(30, 1).unwrap();
    assert!(t.admits_validator_add(&30));
    assert!(!t.admits_stake_update(&30, None));
    for id in [1u64, 10, 20] {
        assert!(t.admits_stake_update(&id, None));
        assert!(t.admits_nominator_update(&id, &Vec::new()));
        assert!(t.admits_validator_add(&id));
    }
}

#[test]
fn changes_that_leave_the_range_are_not_admitted() {
    let mut t = tracker();
    // Nothing is recorded for 10 yet, so its entry cannot shrink.
    assert!(!t.admits_stake_update(&10, Some(Stake { stash: 10, active: 10, total: 11 })));
    assert!(!t.admits_nominator_update(&20, &vec![1]));
    t.ledger.set(10, u128::MAX);
    assert!(!t.admits_stake_update(&10, None));
    assert!(!t.admits_stake_update(&20, None));
    assert!(t.admits_stake_update(&10, Some(Stake { stash: 10, active: 9, total: 10 })));
    assert!(t.admits_stake_update(&10, Some(Stake { stash: 10, active: 10, total: 11 })));
    // 20 keeps 10 and joins 11: only 11 has to take its stake.
    assert!(t.admits_nominator_update(&20, &vec![10]));
    assert!(!t.admits_nominator_update(&20, &Vec::new()));
    assert!(!t.ledger.admits(10, StakeDelta::Increase(1)));
    assert!(t.ledger.admits(10, StakeDelta::Decrease(1)));
    assert!(t.ledger.admits(11, StakeDelta::Increase(u128::MAX)));
    assert!(!t.ledger.admits(11, StakeDelta::Decrease(1)));
}

#[test]
fn adjustment_reaches_each_gained_target_once() {
    let mut ledger = ApprovalStake::new();
    let mut ranking: ScoreList<u128> = ScoreList::new();
    ranking.on_insert(2, 0).unwrap();
    ranking.on_insert(4, 40).unwrap();
    let gained = vec![2u64, 3, 2, 4];
    let kept = vec![4u64];
    assert!(adjustment_admissible(&ledger, &gained, &kept, StakeDelta::Increase(7)));
    assert!(!adjustment_admissible(&ledger, &gained, &kept, StakeDelta::Decrease(7)));
    adjust_targets(&mut ledger, &mut ranking, &gained, &kept, StakeDelta::Increase(7));
    assert_eq!(ledger.get(2), Some(7));
    assert_eq!(ledger.get(3), Some(7));
    assert_eq!(ledger.get(4), None);
    assert_eq!(ledger.count(), 2);
    assert_eq!(ranking.get_score(&2), Some(7));
    assert_eq!(ranking.get_score(&3), None);
    assert_eq!(ranking.get_score(&4), Some(40));
    assert!(in_prefix(&gained, 3, 3));
    assert!(!in_prefix(&gained, 1, 3));
    assert!(!in_prefix(&gained, 3, 4));
    assert!(in_prefix(&gained, 4, 4));
    assert!(!in_prefix(&gained, 0, 2));
}

#[test]
fn copied_targets_are_the_same_list() {
    assert_eq!(copy_targets(&vec![3, 1, 2, 1]), vec![3, 1, 2, 1]);
    assert_eq!(copy_targets(&Vec::new()), Vec::<u64>::new());
}

/// The approval stake of `target`, summed up anew from the staking source.
fn summed_approval(t: &Tracker, target: u64) -> u128 {
    let mut sum = 0u128;
    for id in [1u64, 10, 11, 20, 30] {
        let backs = match t.staking.status(&id) {
            StakerStatus::Idle => false,
            StakerStatus::Validator => id == target,
            StakerStatus::Nominator(targets) => targets.contains(&target),
        };
        if backs {
            sum += t.staking.stake(&id).map(|s| s.active).unwrap_or(0);
        }
    }
    sum
}

fn assert_ledger_is_aggregate(t: &Tracker) {
    for target in [1u64, 10, 11, 20, 30] {
        assert_eq!(t.ledger.get(target).unwrap_or(0), summed_approval(t, target));
    }
}

fn assert_rankings_mirror(t: &Tracker) {
    for id in [1u64, 10, 11, 20, 30] {
        if let Some(score) = t.targets.get_score(&id) {
            assert_eq!(score, t.ledger.get(id).unwrap_or(0));
        }
        if let Some(score) = t.voters.get_score(&id) {
            assert_eq!(score, to_vote(active(t, id)));
        }
    }
}

#[test]
fn ledger_stays_the_sum_of_the_backers() {
    // Everybody starts idle with the ledger empty, then takes up a role.
    let mut table = StakingTable::new();
    table.bond(1, 100, 100);
    table.bond(10, 9, 10);
    table.bond(11, 15, 15);
    table.bond(20, 50, 60);
    let mut t: Tracker = StakeTracker::new(table, ScoreList::new(), ScoreList::new());
    assert_ledger_is_aggregate(&t);

    for validator in [10u64, 11] {
        t.staking.set_status(validator, StakerStatus::Validator);
        t.on_validator_add(&validator).unwrap();
        t.targets.on_insert(validator, 0).unwrap();
        t.on_stake_update(&validator, None);
        assert_ledger_is_aggregate(&t);
        assert_rankings_mirror(&t);
    }
    assert_eq!(t.ledger.get(10), Some(9));
    assert_eq!(t.ledger.get(11), Some(15));

    t.staking.set_status(20, StakerStatus::Nominator(vec![10, 11]));
    t.on_validator_add(&20).unwrap();
    t.on_stake_update(&20, None);
    assert_ledger_is_aggregate(&t);
    assert_rankings_mirror(&t);
    assert_eq!(t.ledger.get(10), Some(59));
    assert_eq!(t.ledger.get(11), Some(65));

    // The nominator bonds more.
    let previous = t.staking.stake(&20);
    t.staking.bond(20, 80, 90);
    t.on_stake_update(&20, previous);
    assert_ledger_is_aggregate(&t);
    assert_rankings_mirror(&t);
    assert_eq!(t.ledger.get(10), Some(89));
    assert_eq!(t.targets.get_score(&11), Some(95));
    assert_eq!(t.voters.get_score(&20), Some(80));

    // A validator is slashed.
    let previous = t.staking.stake(&11);
    t.staking.bond(11, 5, 5);
    t.on_stake_update(&11, previous);
    assert_ledger_is_aggregate(&t);
    assert_rankings_mirror(&t);
    assert_eq!(t.ledger.get(11), Some(85));

    // The nominator drops 10.
    t.staking.set_status(20, StakerStatus::Nominator(vec![11]));
    t.on_nominator_update(&20, vec![10, 11]);
    assert_ledger_is_aggregate(&t);
    assert_rankings_mirror(&t);
    assert_eq!(t.ledger.get(10), Some(9));
    assert_eq!(t.ledger.get(11), Some(85));
    assert_eq!(t.ledger.count(), 2);
    assert_eq!(t.voters.count(), 3);
    assert_eq!(t.targets.count(), 2);
}
