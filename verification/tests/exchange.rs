use pallet_exchange::currency::MultiCurrency;
use pallet_exchange::exchange::{Config, Error, Event, Order, OrderStatus, Pallet};
use pallet_exchange::ledger::BalanceLedger;
use pallet_exchange::{AccountId, Balance, CurrencyId};

pub const ALICE: AccountId = 1;
pub const BOB: AccountId = 2;
pub const CHARLIE: AccountId = 3;

pub const NATIVE: CurrencyId = 0;
pub const DOT: CurrencyId = 1;
pub const BTC: CurrencyId = 2;

pub const ENDOWED_AMT: Balance = 1000;

#[derive(Clone, PartialEq, Eq, Debug)]
pub struct TestRuntime;

impl Config for TestRuntime {
    type Currency = BalanceLedger;
}

type Exchange = Pallet<TestRuntime>;

/// The genesis state: Alice holds native tokens and DOT, Bob holds BTC; block 1.
pub fn new_test_ext() -> Exchange {
    let mut tokens = BalanceLedger::new();
    for (who, cid, amount) in [(ALICE, NATIVE, ENDOWED_AMT), (ALICE, DOT, ENDOWED_AMT), (BOB, BTC, ENDOWED_AMT)] {
        tokens.deposit(cid, &who, amount).unwrap();
    }
    let mut ext = Exchange::new(tokens);
    ext.set_block_number(1);
    ext
}

fn events(ext: &mut Exchange) -> Vec<Event> {
    ext.events()
}

fn last_event(ext: &mut Exchange) -> Event {
    events(ext).pop().expect("Should have one event")
}

fn free(ext: &Exchange, cid: CurrencyId, who: AccountId) -> Balance {
    ext.currency().free_balance(cid, &who)
}

/// Runs `call` and checks that it fails with `err` and leaves the exchange unchanged.
fn assert_noop(ext: &mut Exchange, call: impl FnOnce(&mut Exchange) -> Result<(), Error>, err: Error) {
    let before = ext.clone();
    assert_eq!(call(ext), Err(err));
    assert_eq!(*ext, before);
}

#[test]
fn test_submit_order_should_fail() {
    let mut ext = new_test_ext();
    assert_noop(&mut ext, |e| e.submit_order(ALICE, DOT, 1, DOT, 2), Error::SameToFromCurrency);
    assert_noop(&mut ext, |e| e.submit_order(ALICE, DOT, 1, BTC, 0), Error::OrderWithZeroBal);
    assert_noop(&mut ext, |e| e.submit_order(ALICE, DOT, 0, BTC, 1), Error::OrderWithZeroBal);
}

#[test]
fn test_submit_order_should_succeed() {
    let mut ext = new_test_ext();
    assert_eq!(ext.submit_order(ALICE, DOT, 2, BTC, 1), Ok(()));
    assert_eq!(free(&ext, DOT, ALICE), ENDOWED_AMT - 2);
    assert_eq!(free(&ext, BTC, ALICE), 0);

    let order = ext.orders(0).expect("It should contains an order");
    assert_eq!(
        order,
        Order {
            owner: ALICE,
            from_cid: DOT,
            from_bal: 2,
            to_cid: BTC,
            to_bal: 1,
            status: OrderStatus::Alive,
            executed_with: None,
            created_at: 1_u64.into(),
            cancelled_at: None,
            executed_at: None
        }
    );

    assert_eq!(last_event(&mut ext), Event::OrderSubmitted(ALICE, DOT, 2, BTC, 1));
}

#[test]
fn test_cancel_order() {
    let mut ext = new_test_ext();
    assert_noop(&mut ext, |e| e.cancel_order(ALICE, 0), Error::NotOrderOwner);

    assert_eq!(ext.submit_order(ALICE, DOT, 2, BTC, 1), Ok(()));

    assert_noop(&mut ext, |e| e.cancel_order(BOB, 0), Error::NotOrderOwner);

    assert_eq!(ext.cancel_order(ALICE, 0), Ok(()));

    assert_eq!(free(&ext, DOT, ALICE), ENDOWED_AMT);

    let order = ext.orders(0).expect("Order should exist.");
    assert_eq!(
        order,
        Order {
            owner: ALICE,
            from_cid: DOT,
            from_bal: 2,
            to_cid: BTC,
            to_bal: 1,
            status: OrderStatus::Cancelled,
            executed_with: None,
            created_at: 1_u64.into(),
            cancelled_at: 1_u64.into(),
            executed_at: None
        }
    );

    assert_eq!(last_event(&mut ext), Event::OrderCancelled(ALICE, 0));

    assert_noop(&mut ext, |e| e.cancel_order(ALICE, 0), Error::OrderCannotBeCancelled);
}

#[test]
fn test_take_order() {
    let mut ext = new_test_ext();
    assert_eq!(ext.submit_order(ALICE, DOT, 2, BTC, 1), Ok(()));

    assert_noop(&mut ext, |e| e.take_order(BOB, 1), Error::OrderNotExist);

    assert_noop(&mut ext, |e| e.take_order(CHARLIE, 0), Error::NotEnoughBalance);

    assert_eq!(ext.take_order(BOB, 0), Ok(()));

    assert_eq!(free(&ext, DOT, ALICE), ENDOWED_AMT - 2);
    assert_eq!(free(&ext, BTC, ALICE), 1);
    assert_eq!(free(&ext, DOT, BOB), 2);
    assert_eq!(free(&ext, BTC, BOB), ENDOWED_AMT - 1);

    let order = ext.orders(0).expect("It should contains an order");
    assert_eq!(
        order,
        Order {
            owner: ALICE,
            from_cid: DOT,
            from_bal: 2,
            to_cid: BTC,
            to_bal: 1,
            status: OrderStatus::Executed,
            executed_with: Some(BOB),
            created_at: 1_u64.into(),
            cancelled_at: None,
            executed_at: 1_u64.into()
        }
    );

    assert_eq!(last_event(&mut ext), Event::OrderTaken(BOB, 0));

    assert_noop(&mut ext, |e| e.cancel_order(ALICE, 0), Error::OrderCannotBeCancelled);
}

#[test]
fn submit_order_without_enough_balance_is_refused() {
    let mut ext = new_test_ext();
    assert_noop(&mut ext, |e| e.submit_order(ALICE, BTC, 1, DOT, 1), Error::NotEnoughBalance);
    assert_noop(&mut ext, |e| e.submit_order(ALICE, DOT, ENDOWED_AMT + 1, BTC, 1), Error::NotEnoughBalance);
    // The whole free balance may be offered.
    assert_eq!(ext.submit_order(ALICE, DOT, ENDOWED_AMT, BTC, 1), Ok(()));
    assert_eq!(free(&ext, DOT, ALICE), 0);
    assert_eq!(ext.currency().reserved_balance(DOT, &ALICE), ENDOWED_AMT);
}

#[test]
fn submitted_orders_get_consecutive_ids_and_are_listed_per_user() {
    let mut ext = new_test_ext();
    assert_eq!(ext.next_order_id(), 0);
    assert_eq!(ext.submit_order(ALICE, DOT, 2, BTC, 1), Ok(()));
    assert_eq!(ext.submit_order(BOB, BTC, 5, DOT, 7), Ok(()));
    ext.set_block_number(9);
    assert_eq!(ext.submit_order(ALICE, NATIVE, 3, BTC, 4), Ok(()));
    assert_eq!(ext.next_order_id(), 3);
    assert_eq!(ext.user_orders(&ALICE), vec![0, 2]);
    assert_eq!(ext.user_orders(&BOB), vec![1]);
    assert_eq!(ext.user_orders(&CHARLIE), Vec::<u64>::new());
    assert_eq!(ext.orders(2).unwrap().created_at, 9);
    assert_eq!(ext.orders(3), None);
    assert_eq!(
        events(&mut ext),
        vec![
            Event::OrderSubmitted(ALICE, DOT, 2, BTC, 1),
            Event::OrderSubmitted(BOB, BTC, 5, DOT, 7),
            Event::OrderSubmitted(ALICE, NATIVE, 3, BTC, 4),
        ]
    );
    assert_eq!(events(&mut ext), Vec::new());
}

#[test]
fn taken_order_cannot_be_taken_again() {
    let mut ext = new_test_ext();
    assert_eq!(ext.submit_order(ALICE, DOT, 2, BTC, 1), Ok(()));
    assert_eq!(ext.take_order(BOB, 0), Ok(()));
    assert_noop(&mut ext, |e| e.take_order(BOB, 0), Error::OrderCannotBeTaken);
}

#[test]
fn cancelled_order_cannot_be_taken() {
    let mut ext = new_test_ext();
    assert_eq!(ext.submit_order(ALICE, DOT, 2, BTC, 1), Ok(()));
    assert_eq!(ext.cancel_order(ALICE, 0), Ok(()));
    assert_noop(&mut ext, |e| e.take_order(BOB, 0), Error::OrderCannotBeTaken);
}

#[test]
fn cancel_gives_back_every_balance() {
    let mut ext = new_test_ext();
    let before = ext.currency().clone();
    assert_eq!(ext.submit_order(ALICE, DOT, 300, BTC, 1), Ok(()));
    assert_eq!(ext.currency().reserved_balance(DOT, &ALICE), 300);
    assert_eq!(ext.cancel_order(ALICE, 0), Ok(()));
    for cid in [NATIVE, DOT, BTC] {
        for who in [ALICE, BOB, CHARLIE] {
            assert_eq!(free(&ext, cid, who), before.free_balance(cid, &who));
            assert_eq!(ext.currency().reserved_balance(cid, &who), before.reserved_balance(cid, &who));
        }
    }
}

#[test]
fn trading_keeps_total_issuance() {
    let mut ext = new_test_ext();
    assert_eq!(ext.submit_order(ALICE, DOT, 10, BTC, 20), Ok(()));
    assert_eq!(ext.submit_order(ALICE, DOT, 5, BTC, 5), Ok(()));
    assert_eq!(ext.take_order(BOB, 0), Ok(()));
    assert_eq!(ext.cancel_order(ALICE, 1), Ok(()));
    for cid in [NATIVE, DOT, BTC] {
        assert_eq!(ext.currency().total_issuance(cid), ENDOWED_AMT);
    }
    assert_eq!(free(&ext, DOT, BOB), 10);
    assert_eq!(free(&ext, BTC, ALICE), 20);
    assert_eq!(ext.currency().reserved_balance(DOT, &ALICE), 0);
}

#[test]
fn owner_may_take_own_order() {
    let mut ext = new_test_ext();
    let mut tokens = ext.currency().clone();
    tokens.deposit(BTC, &ALICE, 1).unwrap();
    ext = Exchange::new(tokens);
    assert_eq!(ext.submit_order(ALICE, DOT, 2, BTC, 1), Ok(()));
    assert_eq!(ext.take_order(ALICE, 0), Ok(()));
    assert_eq!(free(&ext, DOT, ALICE), ENDOWED_AMT);
    assert_eq!(free(&ext, BTC, ALICE), 1);
    assert_eq!(ext.currency().reserved_balance(DOT, &ALICE), 0);
}

#[test]
fn draining_events_twice_gives_nothing_the_second_time() {
    let mut ext = new_test_ext();
    assert_eq!(ext.submit_order(ALICE, DOT, 2, BTC, 1), Ok(()));
    assert_eq!(ext.pending_events(), &vec![Event::OrderSubmitted(ALICE, DOT, 2, BTC, 1)]);
    assert_eq!(ext.events(), vec![Event::OrderSubmitted(ALICE, DOT, 2, BTC, 1)]);
    let after_first = ext.clone();
    assert_eq!(ext.events(), Vec::new());
    assert_eq!(ext, after_first);
}

#[test]
fn cancel_refunds_owner_after_other_trades() {
    let mut ext = new_test_ext();
    let before = ext.currency().clone();
    assert_eq!(ext.submit_order(ALICE, DOT, 7, BTC, 3), Ok(()));
    // Other calls that leave Alice's balances and her order alone.
    assert_eq!(ext.submit_order(BOB, BTC, 10, NATIVE, 4), Ok(()));
    assert_eq!(ext.cancel_order(BOB, 1), Ok(()));
    ext.set_block_number(5);
    assert_noop(&mut ext, |e| e.take_order(CHARLIE, 0), Error::NotEnoughBalance);
    assert_eq!(ext.cancel_order(ALICE, 0), Ok(()));
    for cid in [NATIVE, DOT, BTC] {
        assert_eq!(free(&ext, cid, ALICE), before.free_balance(cid, &ALICE));
        assert_eq!(ext.currency().reserved_balance(cid, &ALICE), before.reserved_balance(cid, &ALICE));
    }
    assert_eq!(ext.orders(0).unwrap().cancelled_at, Some(5));
}

#[test]
fn settled_orders_stay_settled_through_later_calls() {
    let mut ext = new_test_ext();
    assert_eq!(ext.submit_order(ALICE, DOT, 2, BTC, 1), Ok(()));
    assert_eq!(ext.take_order(BOB, 0), Ok(()));
    let executed = ext.orders(0).unwrap();
    assert_eq!(ext.submit_order(ALICE, DOT, 3, BTC, 1), Ok(()));
    assert_eq!(ext.cancel_order(ALICE, 1), Ok(()));
    ext.set_block_number(8);
    let _ = ext.events();
    assert_noop(&mut ext, |e| e.take_order(BOB, 0), Error::OrderCannotBeTaken);
    assert_noop(&mut ext, |e| e.cancel_order(ALICE, 0), Error::OrderCannotBeCancelled);
    assert_noop(&mut ext, |e| e.take_order(BOB, 1), Error::OrderCannotBeTaken);
    assert_noop(&mut ext, |e| e.cancel_order(ALICE, 1), Error::OrderCannotBeCancelled);
    assert_eq!(ext.orders(0), Some(executed));
}
