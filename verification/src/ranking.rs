//! Ranked indexes of identities by score, as the tracker sees them.

use std::collections::HashMap;
use vstd::prelude::*;
use crate::types::AccountId;

verus! {

broadcast use vstd::std_specs::hash::group_hash_axioms;

/// Why a ranked index refused an insertion.
#[derive(Clone, Copy, Debug, PartialEq, Eq)]
pub enum ListError {
    /// The identity is in the index already.
    Duplicate,
    /// The index does not take this score.
    InvalidScore,
}

/// What the tracker asks of a ranked index: membership, lookup, insertion,
/// overwriting, removal and size. How the index orders its members is its own affair.
pub trait SortedListProvider<S: Copy> {
    /// The members of the index with their scores.
    spec fn scores(&self) -> Map<AccountId, S>;

    /// Whether `id` is a member.
    fn contains(&self, id: &AccountId) -> (present: bool)
        ensures
            present == self.scores().contains_key(*id),
    ;

    /// The score of `id`, if it is a member.
    fn get_score(&self, id: &AccountId) -> (score: Option<S>)
        ensures
            score == (if self.scores().contains_key(*id) {
                Some(self.scores()[*id])
            } else {
                None
            }),
    ;

    /// Makes `id` a member with the given score. A member is refused as a
    /// duplicate; the index may refuse a score. A refusal changes nothing.
    fn on_insert(&mut self, id: AccountId, score: S) -> (outcome: Result<(), ListError>)
        ensures
            old(self).scores().contains_key(id) <==> outcome == Err::<(), ListError>(
                ListError::Duplicate,
            ),
            outcome is Ok ==> final(self).scores() == old(self).scores().insert(id, score),
            outcome is Err ==> final(self).scores() == old(self).scores(),
    ;

    /// Overwrites the score of the member `id`; changes nothing where `id` is no member.
    fn on_update(&mut self, id: &AccountId, score: S)
        ensures
            final(self).scores() == (if old(self).scores().contains_key(*id) {
                old(self).scores().insert(*id, score)
            } else {
                old(self).scores()
            }),
    ;

    /// Removes `id` from the index; changes nothing where `id` is no member.
    fn on_remove(&mut self, id: &AccountId)
        ensures
            final(self).scores() == old(self).scores().remove(*id),
    ;

    /// The number of members.
    fn count(&self) -> (n: usize)
        ensures
            self.scores().dom().finite(),
            n == self.scores().len(),
    ;
}

/// A ranked index held in memory, which takes every score.
pub struct ScoreList<S> {
    entries: HashMap<AccountId, S>,
}

impl<S> View for ScoreList<S> {
    type V = Map<AccountId, S>;

    closed spec fn view(&self) -> Map<AccountId, S> {
        self.entries@
    }
}

impl<S: Copy> ScoreList<S> {
    /// An index without members.
    pub fn new() -> (list: ScoreList<S>)
        ensures
            list@ == Map::<AccountId, S>::empty(),
    {
        ScoreList { entries: HashMap::new() }
    }
}

impl<S: Copy> SortedListProvider<S> for ScoreList<S> {
    open spec fn scores(&self) -> Map<AccountId, S> {
        self@
    }

    fn contains(&self, id: &AccountId) -> (present: bool) {
        self.entries.contains_key(id)
    }

    fn get_score(&self, id: &AccountId) -> (score: Option<S>) {
        match self.entries.get(id) {
            Some(score) => Some(*score),
            None => None,
        }
    }

    fn on_insert(&mut self, id: AccountId, score: S) -> (outcome: Result<(), ListError>)
        ensures
            outcome is Ok <==> !old(self).scores().contains_key(id),
    {
        if self.entries.contains_key(&id) {
            Err(ListError::Duplicate)
        } else {
            self.entries.insert(id, score);
            Ok(())
        }
    }

    fn on_update(&mut self, id: &AccountId, score: S) {
        if self.entries.contains_key(id) {
            self.entries.insert(*id, score);
        }
    }

    fn on_remove(&mut self, id: &AccountId) {
        self.entries.remove(id);
    }

    fn count(&self) -> (n: usize) {
        self.entries.len()
    }
}

} // verus!
