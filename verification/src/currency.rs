//! The multi-currency interface that the exchange trades through.
use vstd::prelude::*;
use crate::{AccountId, Balance, CurrencyId};

verus! {

/// Where a repatriated amount lands in the beneficiary's account.
#[derive(PartialEq, Eq, Structural, Clone, Copy, Debug)]
pub enum BalanceStatus {
    Reserved,
    Free,
}

/// `v`, the amount held in cell `(c, a)`, after `amount` is taken from cell `(cid, who)`.
pub open spec fn debit(v: nat, c: CurrencyId, a: AccountId, cid: CurrencyId, who: AccountId, amount: nat) -> nat {
    if c == cid && a == who {
        (v - amount) as nat
    } else {
        v
    }
}

/// `v`, the amount held in cell `(c, a)`, after `amount` is added to cell `(cid, who)`.
pub open spec fn credit(v: nat, c: CurrencyId, a: AccountId, cid: CurrencyId, who: AccountId, amount: nat) -> nat {
    if c == cid && a == who {
        v + amount
    } else {
        v
    }
}

/// Free balance of cell `(c, a)` after a transfer of `amount` of `cid` from `from` to `to`.
pub open spec fn free_after_transfer(
    v: nat,
    c: CurrencyId,
    a: AccountId,
    cid: CurrencyId,
    from: AccountId,
    to: AccountId,
    amount: nat,
) -> nat {
    credit(debit(v, c, a, cid, from, amount), c, a, cid, to, amount)
}

/// Free balance of cell `(c, a)` after `amount` of `cid` is repatriated into `to` with `status`.
pub open spec fn free_after_repatriate(
    v: nat,
    c: CurrencyId,
    a: AccountId,
    cid: CurrencyId,
    to: AccountId,
    amount: nat,
    status: BalanceStatus,
) -> nat {
    match status {
        BalanceStatus::Free => credit(v, c, a, cid, to, amount),
        BalanceStatus::Reserved => v,
    }
}

/// Reserved balance of cell `(c, a)` after `amount` of `cid` is repatriated from the
/// reserve of `from` into `to` with `status`.
pub open spec fn reserved_after_repatriate(
    v: nat,
    c: CurrencyId,
    a: AccountId,
    cid: CurrencyId,
    from: AccountId,
    to: AccountId,
    amount: nat,
    status: BalanceStatus,
) -> nat {
    match status {
        BalanceStatus::Free => debit(v, c, a, cid, from, amount),
        BalanceStatus::Reserved => credit(debit(v, c, a, cid, from, amount), c, a, cid, to, amount),
    }
}

/// The part of a request to unreserve `bal` that a reserve of `reserved` covers.
pub open spec fn unreserve_amount(reserved: nat, bal: Balance) -> nat {
    if bal <= reserved {
        bal as nat
    } else {
        reserved
    }
}

/// The total issuance of every currency is the same in `pre` and `post`.
pub open spec fn same_issuance<C: MultiCurrency>(pre: C, post: C) -> bool {
    forall|c: CurrencyId| #[trigger] post.total_issuance_of(c) == pre.total_issuance_of(c)
}

/// A ledger of balances in many currencies, one free and one reserved balance for
/// each account in each currency.
///
/// An implementation describes its state through `free_of`, `reserved_of` and
/// `total_issuance_of`; the methods state their effect over these.
pub trait MultiCurrency: Sized {
    /// The implementation's own invariant.
    spec fn well_formed(&self) -> bool;

    /// Free balance of `who` in currency `cid`.
    spec fn free_of(&self, cid: CurrencyId, who: AccountId) -> nat;

    /// Reserved balance of `who` in currency `cid`.
    spec fn reserved_of(&self, cid: CurrencyId, who: AccountId) -> nat;

    /// Sum of all free and reserved balances in currency `cid`.
    spec fn total_issuance_of(&self, cid: CurrencyId) -> nat;

    /// The free balance of `user` in currency `cid`.
    fn free_balance(&self, cid: CurrencyId, user: &AccountId) -> (bal: Balance)
        requires
            self.well_formed(),
        ensures
            bal == self.free_of(cid, *user),
    ;

    /// Moves `bal` of currency `cid` from the free balance of `from` to that of `to`.
    /// Succeeds exactly when the free balance of `from` covers `bal`; on failure
    /// nothing changes.
    fn transfer(&mut self, cid: CurrencyId, from: &AccountId, to: &AccountId, bal: Balance) -> (r:
        Result<(), ()>)
        requires
            old(self).well_formed(),
        ensures
            final(self).well_formed(),
            r is Ok <==> old(self).free_of(cid, *from) >= bal,
            r is Ok ==> forall|c: CurrencyId, a: AccountId| #[trigger]
                final(self).free_of(c, a) == free_after_transfer(
                    old(self).free_of(c, a),
                    c,
                    a,
                    cid,
                    *from,
                    *to,
                    bal as nat,
                ),
            forall|c: CurrencyId, a: AccountId| #[trigger]
                final(self).reserved_of(c, a) == old(self).reserved_of(c, a),
            forall|c: CurrencyId| #[trigger]
                final(self).total_issuance_of(c) == old(self).total_issuance_of(c),
            r is Err ==> *final(self) == *old(self),
    ;
}

/// A multi-currency ledger in which part of a balance can be set aside.
pub trait MultiReservableCurrency: MultiCurrency {
    /// Moves `bal` of currency `cid` from the free to the reserved balance of `user`.
    /// Succeeds exactly when the free balance covers `bal`; on failure nothing changes.
    fn reserve(&mut self, cid: CurrencyId, user: &AccountId, bal: Balance) -> (r: Result<(), ()>)
        requires
            old(self).well_formed(),
        ensures
            final(self).well_formed(),
            r is Ok <==> old(self).free_of(cid, *user) >= bal,
            r is Ok ==> forall|c: CurrencyId, a: AccountId| #[trigger]
                final(self).free_of(c, a) == debit(old(self).free_of(c, a), c, a, cid, *user, bal as nat),
            r is Ok ==> forall|c: CurrencyId, a: AccountId| #[trigger]
                final(self).reserved_of(c, a) == credit(
                    old(self).reserved_of(c, a),
                    c,
                    a,
                    cid,
                    *user,
                    bal as nat,
                ),
            forall|c: CurrencyId| #[trigger]
                final(self).total_issuance_of(c) == old(self).total_issuance_of(c),
            r is Err ==> *final(self) == *old(self),
    ;

    /// Moves `bal` of currency `cid` from the reserved balance of `from` to the balance
    /// of `to` that `status` names. Succeeds exactly when the reserved balance of
    /// `from` covers `bal`; on failure nothing changes.
    fn repatriate_reserved(
        &mut self,
        cid: CurrencyId,
        from: &AccountId,
        to: &AccountId,
        bal: Balance,
        status: BalanceStatus,
    ) -> (r: Result<(), ()>)
        requires
            old(self).well_formed(),
        ensures
            final(self).well_formed(),
            r is Ok <==> old(self).reserved_of(cid, *from) >= bal,
            r is Ok ==> forall|c: CurrencyId, a: AccountId| #[trigger]
                final(self).free_of(c, a) == free_after_repatriate(
                    old(self).free_of(c, a),
                    c,
                    a,
                    cid,
                    *to,
                    bal as nat,
                    status,
                ),
            r is Ok ==> forall|c: CurrencyId, a: AccountId| #[trigger]
                final(self).reserved_of(c, a) == reserved_after_repatriate(
                    old(self).reserved_of(c, a),
                    c,
                    a,
                    cid,
                    *from,
                    *to,
                    bal as nat,
                    status,
                ),
            forall|c: CurrencyId| #[trigger]
                final(self).total_issuance_of(c) == old(self).total_issuance_of(c),
            r is Err ==> *final(self) == *old(self),
    ;

    /// Moves up to `bal` of currency `cid` from the reserved to the free balance of
    /// `user`: all of `bal` when the reserve covers it, else the whole reserve.
    fn unreserve(&mut self, cid: CurrencyId, user: &AccountId, bal: Balance)
        requires
            old(self).well_formed(),
        ensures
            final(self).well_formed(),
            forall|c: CurrencyId, a: AccountId| #[trigger]
                final(self).free_of(c, a) == credit(
                    old(self).free_of(c, a),
                    c,
                    a,
                    cid,
                    *user,
                    unreserve_amount(old(self).reserved_of(cid, *user), bal),
                ),
            forall|c: CurrencyId, a: AccountId| #[trigger]
                final(self).reserved_of(c, a) == debit(
                    old(self).reserved_of(c, a),
                    c,
                    a,
                    cid,
                    *user,
                    unreserve_amount(old(self).reserved_of(cid, *user), bal),
                ),
            forall|c: CurrencyId| #[trigger]
                final(self).total_issuance_of(c) == old(self).total_issuance_of(c),
    ;
}

} // verus!
