//! The balance ledger that the pallets rest on, as the runtime offers it.

use vstd::prelude::*;
use crate::primitives::{AccountId, Balance};

verus! {

/// The ledger's refusal to reserve an amount.
#[derive(Clone, Copy, Debug, PartialEq, Eq)]
pub struct InsufficientFunds;

/// The part of a reserved balance of `reserved` that a release of `value` frees.
pub open spec fn released(reserved: Balance, value: Balance) -> Balance {
    if value <= reserved {
        value
    } else {
        reserved
    }
}

/// A ledger in which each account has a free and a reserved balance.
///
/// The pallets are proved against the clauses below, so an implementation has to meet them.
/// Each operation applies in full or not at all, and several of them can be made to apply
/// together or not at all by a mark that is set before them.
pub trait ReservableCurrency: Sized {
    /// The failure of a transfer or of a dispatched call.
    type DispatchError;

    /// A mark to which the ledger can be taken back.
    type Checkpoint;

    /// The ledger as it was when `mark` was set.
    spec fn marked(mark: &Self::Checkpoint) -> Self;

    /// The free balance of `who`.
    spec fn free(&self, who: AccountId) -> Balance;

    /// The reserved balance of `who`.
    spec fn reserved(&self, who: AccountId) -> Balance;

    /// Whether the ledger would reserve `value` for `who`.
    spec fn can_reserve(&self, who: AccountId, value: Balance) -> bool;

    /// The ledger after a release of up to `value` from the reserved balance of `who`.
    spec fn after_unreserve(&self, who: AccountId, value: Balance) -> Self;

    /// What a transfer of `value` from `source` to `dest` returns.
    spec fn transfer_outcome(&self, source: AccountId, dest: AccountId, value: Balance) -> Result<
        (),
        Self::DispatchError,
    >;

    /// Sets a mark at the ledger as it is.
    fn checkpoint(&mut self) -> (mark: Self::Checkpoint)
        ensures
            *final(self) == *old(self),
            Self::marked(&mark) == *old(self),
    ;

    /// Takes the ledger back to where `mark` was set.
    fn rollback(&mut self, mark: Self::Checkpoint)
        ensures
            *final(self) == Self::marked(&mark),
    ;

    /// Gives `mark` up and keeps the ledger as it is.
    fn commit(&mut self, mark: Self::Checkpoint)
        ensures
            *final(self) == *old(self),
    ;

    /// The free balance of `who`.
    fn free_balance(&self, who: &AccountId) -> (amount: Balance)
        ensures
            amount == self.free(*who),
    ;

    /// The reserved balance of `who`.
    fn reserved_balance(&self, who: &AccountId) -> (amount: Balance)
        ensures
            amount == self.reserved(*who),
    ;

    /// Moves `value` from the free balance of `who` to its reserved balance, or changes
    /// nothing.
    fn reserve(&mut self, who: &AccountId, value: Balance) -> (r: Result<(), InsufficientFunds>)
        ensures
            r is Ok <==> old(self).can_reserve(*who, value),
            r is Ok ==> final(self).reserved(*who) == old(self).reserved(*who) + value,
            r is Ok ==> final(self).free(*who) == old(self).free(*who) - value,
            r is Err ==> *final(self) == *old(self),
            forall|other: AccountId|
                other != *who ==> final(self).reserved(other) == old(self).reserved(other)
                    && final(self).free(other) == old(self).free(other),
    ;

    /// Moves up to `value` from the reserved balance of `who` back to its free balance, and
    /// returns what of `value` was not there to be moved.
    fn unreserve(&mut self, who: &AccountId, value: Balance) -> (missing: Balance)
        ensures
            *final(self) == old(self).after_unreserve(*who, value),
            final(self).reserved(*who) == old(self).reserved(*who) - released(
                old(self).reserved(*who),
                value,
            ),
            final(self).free(*who) == old(self).free(*who) + released(
                old(self).reserved(*who),
                value,
            ),
            missing == value - released(old(self).reserved(*who), value),
            forall|other: AccountId|
                other != *who ==> final(self).reserved(other) == old(self).reserved(other)
                    && final(self).free(other) == old(self).free(other),
    ;

    /// Moves `value` from the free balance of `source` to that of `dest`, or changes nothing.
    fn transfer(&mut self, source: &AccountId, dest: &AccountId, value: Balance) -> (r: Result<
        (),
        Self::DispatchError,
    >)
        ensures
            r == old(self).transfer_outcome(*source, *dest, value),
            r is Err ==> *final(self) == *old(self),
            r is Ok && *source != *dest ==> final(self).free(*source) == old(self).free(*source)
                - value && final(self).free(*dest) == old(self).free(*dest) + value,
            r is Ok && *source == *dest ==> final(self).free(*source) == old(self).free(*source),
            r is Ok ==> forall|who: AccountId| final(self).reserved(who) == old(self).reserved(who),
            r is Ok ==> forall|other: AccountId|
                other != *source && other != *dest ==> final(self).free(other) == old(self).free(
                    other,
                ),
    ;
}

/// Moves all that `source` has to `dest`.
pub struct MergeAccountEvm;

impl MergeAccountEvm {
    /// The ledger after all that `source` has reserved was released.
    pub open spec fn released_ledger<B: ReservableCurrency>(balances: B, source: AccountId) -> B {
        balances.after_unreserve(source, balances.reserved(source))
    }

    /// Releases all that `source` has reserved, then transfers all that it has free to
    /// `dest`. Where the transfer fails, its failure is returned and the release is undone:
    /// the ledger is as it was.
    pub fn merge_account<B: ReservableCurrency>(
        balances: &mut B,
        source: &AccountId,
        dest: &AccountId,
    ) -> (r: Result<(), B::DispatchError>)
        ensures
            r == Self::released_ledger(*old(balances), *source).transfer_outcome(
                *source,
                *dest,
                Self::released_ledger(*old(balances), *source).free(*source),
            ),
            r is Err ==> *final(balances) == *old(balances),
            r is Ok ==> final(balances).reserved(*source) == 0,
            r is Ok ==> forall|who: AccountId|
                who != *source ==> final(balances).reserved(who) == old(balances).reserved(who),
            r is Ok ==> forall|other: AccountId|
                other != *source && other != *dest ==> final(balances).free(other) == old(
                    balances,
                ).free(other),
            r is Ok && *source != *dest ==> final(balances).free(*source) == 0,
            r is Ok && *source != *dest ==> final(balances).free(*dest) == old(balances).free(*dest)
                + old(balances).free(*source) + old(balances).reserved(*source),
            r is Ok && *source == *dest ==> final(balances).free(*source) == old(balances).free(
                *source,
            ) + old(balances).reserved(*source),
    {
        let mark = balances.checkpoint();
        let held: Balance = balances.reserved_balance(source);
        let _ = balances.unreserve(source, held);
        let all: Balance = balances.free_balance(source);
        let moved = balances.transfer(source, dest, all);
        if moved.is_ok() {
            balances.commit(mark);
        } else {
            balances.rollback(mark);
        }
        moved
    }
}

} // verus!
