use pallet_exchange::currency::MultiCurrency;
use pallet_exchange::dispatch::{ensure_signed, DispatchError, Origin};
use pallet_exchange::exchange::{Config, Error, Event, OrderStatus, Pallet};
use pallet_exchange::ledger::BalanceLedger;

#[derive(Clone, PartialEq, Eq, Debug)]
struct Runtime;

impl Config for Runtime {
    type Currency = BalanceLedger;
}

const ALICE: u64 = 1;
const BOB: u64 = 2;
const DOT: u128 = 1;
const BTC: u128 = 2;

fn genesis() -> Pallet<Runtime> {
    let mut tokens = BalanceLedger::new();
    tokens.deposit(DOT, &ALICE, 1000).unwrap();
    tokens.deposit(BTC, &BOB, 1000).unwrap();
    let mut ext = Pallet::new(tokens);
    ext.set_block_number(1);
    ext
}

#[test]
fn ensure_signed_accepts_only_signed_origins() {
    assert_eq!(ensure_signed(Origin::Signed(ALICE)), Ok(ALICE));
    assert_eq!(ensure_signed(Origin::Root), Err(DispatchError::BadOrigin));
    assert_eq!(ensure_signed(Origin::Unsigned), Err(DispatchError::BadOrigin));
}

#[test]
fn unsigned_calls_are_refused_with_nothing_changed() {
    let mut ext = genesis();
    assert_eq!(ext.dispatch_submit_order(Origin::Signed(ALICE), DOT, 2, BTC, 1), Ok(()));
    let before = ext.clone();
    assert_eq!(ext.dispatch_submit_order(Origin::Unsigned, DOT, 2, BTC, 1), Err(DispatchError::BadOrigin));
    assert_eq!(ext.dispatch_take_order(Origin::Root, 0), Err(DispatchError::BadOrigin));
    assert_eq!(ext.dispatch_cancel_order(Origin::Unsigned, 0), Err(DispatchError::BadOrigin));
    assert_eq!(ext, before);
}

#[test]
fn signed_calls_do_what_the_exchange_does() {
    let mut ext = genesis();
    assert_eq!(
        ext.dispatch_submit_order(Origin::Signed(ALICE), DOT, 2, DOT, 1),
        Err(DispatchError::Module(Error::SameToFromCurrency))
    );
    assert_eq!(ext.dispatch_submit_order(Origin::Signed(ALICE), DOT, 2, BTC, 1), Ok(()));
    assert_eq!(
        ext.dispatch_cancel_order(Origin::Signed(BOB), 0),
        Err(DispatchError::Module(Error::NotOrderOwner))
    );
    assert_eq!(ext.dispatch_take_order(Origin::Signed(BOB), 0), Ok(()));
    assert_eq!(ext.orders(0).unwrap().status, OrderStatus::Executed);
    assert_eq!(ext.currency().free_balance(DOT, &BOB), 2);
    assert_eq!(
        ext.dispatch_cancel_order(Origin::Signed(ALICE), 0),
        Err(DispatchError::Module(Error::OrderCannotBeCancelled))
    );
    assert_eq!(
        ext.events(),
        vec![Event::OrderSubmitted(ALICE, DOT, 2, BTC, 1), Event::OrderTaken(BOB, 0)]
    );
}
