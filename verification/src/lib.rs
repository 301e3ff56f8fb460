//! An order-book exchange between currencies held in a multi-currency ledger.
//!
//! Users submit orders that offer an amount of one currency for an amount of
//! another; the offered amount is reserved in the owner's account until the
//! order is taken by a counterparty (the two amounts change hands) or
//! cancelled by its owner (the reserve is released).
use vstd::prelude::*;

pub mod arithmetic;
pub mod currency;
pub mod ledger;
pub mod exchange;
pub mod laws;
pub mod dispatch;

verus! {

/// Identifier of an account.
pub type AccountId = u64;

/// Identifier of a currency.
pub type CurrencyId = u128;

/// An amount of some currency.
pub type Balance = u128;

/// Height of a block.
pub type BlockNumber = u64;

} // verus!
