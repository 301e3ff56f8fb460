//! Calls as a runtime dispatches them: from an origin, which must be a signed account.
use vstd::prelude::*;
use crate::{AccountId, Balance, CurrencyId};
use crate::exchange::{cancel_outcome, submit_outcome, take_outcome, Config, Error, OrderId, Pallet};

verus! {

/// Who a call comes from.
#[derive(PartialEq, Eq, Structural, Clone, Copy, Debug)]
pub enum Origin {
    /// The system itself.
    Root,
    /// An account that signed the call.
    Signed(AccountId),
    /// Nobody.
    Unsigned,
}

/// Why a dispatched call was refused.
#[derive(PartialEq, Eq, Structural, Clone, Copy, Debug)]
pub enum DispatchError {
    /// The call was not signed by an account.
    BadOrigin,
    /// The exchange refused the call.
    Module(Error),
}

/// The answer of a dispatched call whose exchange answer is `r`.
pub open spec fn dispatched(r: Result<(), Error>) -> Result<(), DispatchError> {
    match r {
        Ok(()) => Ok(()),
        Err(e) => Err(DispatchError::Module(e)),
    }
}

/// The account that signed `origin`; refused with `BadOrigin` for any other origin.
pub fn ensure_signed(origin: Origin) -> (r: Result<AccountId, DispatchError>)
    ensures
        r == match origin {
            Origin::Signed(who) => Ok::<AccountId, DispatchError>(who),
            _ => Err(DispatchError::BadOrigin),
        },
{
    match origin {
        Origin::Signed(who) => Ok(who),
        _ => Err(DispatchError::BadOrigin),
    }
}

fn lift(r: Result<(), Error>) -> (d: Result<(), DispatchError>)
    ensures
        d == dispatched(r),
{
    match r {
        Ok(()) => Ok(()),
        Err(e) => Err(DispatchError::Module(e)),
    }
}

impl<T: Config> Pallet<T> {
    /// `submit_order` from `origin`: refused with `BadOrigin`, with nothing changed,
    /// unless `origin` is a signed account; else what `submit_order` does for that account.
    pub fn dispatch_submit_order(
        &mut self,
        origin: Origin,
        from_cid: CurrencyId,
        from_bal: Balance,
        to_cid: CurrencyId,
        to_bal: Balance,
    ) -> (r: Result<(), DispatchError>)
        requires
            old(self).well_formed(),
        ensures
            final(self).well_formed(),
            match origin {
                Origin::Signed(who) => {
                    &&& r == dispatched(
                        submit_outcome(old(self).ledger(), who, from_cid, from_bal, to_cid, to_bal),
                    )
                    &&& r is Ok ==> old(self).submitted(*final(self), who, from_cid, from_bal, to_cid, to_bal)
                },
                _ => r == Err::<(), DispatchError>(DispatchError::BadOrigin),
            },
            r is Err ==> *final(self) == *old(self),
    {
        let who = match ensure_signed(origin) {
            Ok(who) => who,
            Err(e) => {
                return Err(e);
            },
        };
        lift(self.submit_order(who, from_cid, from_bal, to_cid, to_bal))
    }

    /// `take_order` from `origin`: refused with `BadOrigin`, with nothing changed,
    /// unless `origin` is a signed account; else what `take_order` does for that account.
    pub fn dispatch_take_order(&mut self, origin: Origin, order_id: OrderId) -> (r: Result<(), DispatchError>)
        requires
            old(self).well_formed(),
        ensures
            final(self).well_formed(),
            match origin {
                Origin::Signed(who) => {
                    &&& r == dispatched(
                        take_outcome(old(self).ledger(), old(self).order_book(), who, order_id),
                    )
                    &&& r is Ok ==> old(self).taken(*final(self), who, order_id)
                },
                _ => r == Err::<(), DispatchError>(DispatchError::BadOrigin),
            },
            r is Err ==> *final(self) == *old(self),
    {
        let who = match ensure_signed(origin) {
            Ok(who) => who,
            Err(e) => {
                return Err(e);
            },
        };
        lift(self.take_order(who, order_id))
    }

    /// `cancel_order` from `origin`: refused with `BadOrigin`, with nothing changed,
    /// unless `origin` is a signed account; else what `cancel_order` does for that account.
    pub fn dispatch_cancel_order(&mut self, origin: Origin, order_id: OrderId) -> (r: Result<(), DispatchError>)
        requires
            old(self).well_formed(),
        ensures
            final(self).well_formed(),
            match origin {
                Origin::Signed(who) => {
                    &&& r == dispatched(cancel_outcome(old(self).order_book(), who, order_id))
                    &&& r is Ok ==> old(self).cancelled(*final(self), who, order_id)
                },
                _ => r == Err::<(), DispatchError>(DispatchError::BadOrigin),
            },
            r is Err ==> *final(self) == *old(self),
    {
        let who = match ensure_signed(origin) {
            Ok(who) => who,
            Err(e) => {
                return Err(e);
            },
        };
        lift(self.cancel_order(who, order_id))
    }
}

} // verus!
