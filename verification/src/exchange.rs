//! The exchange: an order book over a multi-currency ledger.
use vstd::prelude::*;
use crate::{AccountId, Balance, BlockNumber, CurrencyId};
use crate::currency::{
    credit, debit, free_after_repatriate, free_after_transfer, same_issuance, unreserve_amount,
    BalanceStatus, MultiCurrency, MultiReservableCurrency,
};

verus! {

/// Identifier of an order: its position in the order book.
pub type OrderId = u64;

/// Identifier of an execution.
pub type ExecutionId = u64;

/// The life cycle of an order.
#[derive(PartialEq, Eq, Structural, Clone, Copy, Debug)]
pub enum OrderStatus {
    Pending,
    Alive,
    Executed,
    Cancelled,
    Invalid,
}

/// The outcome of an execution.
#[derive(PartialEq, Eq, Structural, Clone, Copy, Debug)]
pub enum ExecutionStatus {
    SUCCEEDED,
    FAILED,
}

/// An offer by `owner` of `from_bal` of currency `from_cid` for `to_bal` of currency `to_cid`.
#[derive(PartialEq, Eq, Structural, Clone, Copy, Debug)]
pub struct Order {
    pub owner: AccountId,
    pub from_cid: CurrencyId,
    pub from_bal: Balance,
    pub to_cid: CurrencyId,
    pub to_bal: Balance,
    pub status: OrderStatus,
    pub executed_with: Option<AccountId>,
    pub created_at: BlockNumber,
    pub cancelled_at: Option<BlockNumber>,
    pub executed_at: Option<BlockNumber>,
}

/// What the exchange reports of each accepted call.
#[derive(PartialEq, Eq, Structural, Clone, Copy, Debug)]
pub enum Event {
    /// An order was submitted: owner, offered currency and amount, wanted currency and amount.
    OrderSubmitted(AccountId, CurrencyId, Balance, CurrencyId, Balance),
    /// An order was taken: taker, order.
    OrderTaken(AccountId, OrderId),
    /// An order was cancelled: owner, order.
    OrderCancelled(AccountId, OrderId),
}

/// Why the exchange refused a call.
#[derive(PartialEq, Eq, Structural, Clone, Copy, Debug)]
pub enum Error {
    /// There is no order with this identifier.
    OrderNotExist,
    /// The caller does not own an order with this identifier.
    NotOrderOwner,
    /// The order is no longer alive.
    OrderCannotBeCancelled,
    /// The order is no longer alive.
    OrderCannotBeTaken,
    /// The free balance does not cover the amount.
    NotEnoughBalance,
    /// The order would trade a currency for itself.
    SameToFromCurrency,
    /// The order offers or asks for nothing.
    OrderWithZeroBal,
}

/// How much of `a`'s reserve in currency `c` the order `o` holds.
pub open spec fn order_lock(o: Order, c: CurrencyId, a: AccountId) -> nat {
    if o.status == OrderStatus::Alive && o.from_cid == c && o.owner == a {
        o.from_bal as nat
    } else {
        0
    }
}

/// How much of `a`'s reserve in currency `c` the alive orders of `s` hold together.
pub open spec fn locked_in(s: Seq<Order>, c: CurrencyId, a: AccountId) -> nat
    decreases s.len(),
{
    if s.len() == 0 {
        0
    } else {
        locked_in(s.drop_last(), c, a) + order_lock(s.last(), c, a)
    }
}

/// An order that trades two different currencies, in positive amounts.
pub open spec fn order_valid(o: Order) -> bool {
    &&& o.from_cid != o.to_cid
    &&& o.from_bal > 0
    &&& o.to_bal > 0
}

/// Identifiers of the orders of `s` that `a` owns, in the order of submission.
pub open spec fn owned_ids(s: Seq<Order>, a: AccountId) -> Seq<OrderId>
    decreases s.len(),
{
    if s.len() == 0 {
        Seq::empty()
    } else if s.last().owner == a {
        owned_ids(s.drop_last(), a).push((s.len() - 1) as OrderId)
    } else {
        owned_ids(s.drop_last(), a)
    }
}

/// Every order of `pre` that is no longer alive stands unchanged in `post` under the
/// same identifier, and no order disappears.
pub open spec fn keeps_settled_orders(pre: Seq<Order>, post: Seq<Order>) -> bool {
    &&& pre.len() <= post.len()
    &&& forall|i: int|
        0 <= i < pre.len() && #[trigger] pre[i].status != OrderStatus::Alive ==> post[i] == pre[i]
}

/// The answer to a submission, given the ledger it is made against.
pub open spec fn submit_outcome<C: MultiCurrency>(
    ledger: C,
    who: AccountId,
    from_cid: CurrencyId,
    from_bal: Balance,
    to_cid: CurrencyId,
    to_bal: Balance,
) -> Result<(), Error> {
    if from_cid == to_cid {
        Err(Error::SameToFromCurrency)
    } else if from_bal == 0 || to_bal == 0 {
        Err(Error::OrderWithZeroBal)
    } else if ledger.free_of(from_cid, who) < from_bal {
        Err(Error::NotEnoughBalance)
    } else {
        Ok(())
    }
}

/// The answer to taking order `id`, given the ledger and the order book.
pub open spec fn take_outcome<C: MultiCurrency>(
    ledger: C,
    orders: Seq<Order>,
    who: AccountId,
    id: OrderId,
) -> Result<(), Error> {
    if id >= orders.len() {
        Err(Error::OrderNotExist)
    } else if orders[id as int].status != OrderStatus::Alive {
        Err(Error::OrderCannotBeTaken)
    } else if ledger.free_of(orders[id as int].to_cid, who) < orders[id as int].to_bal {
        Err(Error::NotEnoughBalance)
    } else {
        Ok(())
    }
}

/// The answer to cancelling order `id`, given the order book.
pub open spec fn cancel_outcome(orders: Seq<Order>, who: AccountId, id: OrderId) -> Result<(), Error> {
    if id >= orders.len() || orders[id as int].owner != who {
        Err(Error::NotOrderOwner)
    } else if orders[id as int].status != OrderStatus::Alive {
        Err(Error::OrderCannotBeCancelled)
    } else {
        Ok(())
    }
}

proof fn lemma_locked_push(s: Seq<Order>, o: Order, c: CurrencyId, a: AccountId)
    ensures
        locked_in(s.push(o), c, a) == locked_in(s, c, a) + order_lock(o, c, a),
{
    assert(s.push(o).drop_last() =~= s);
}

proof fn lemma_locked_update(s: Seq<Order>, i: int, o: Order, c: CurrencyId, a: AccountId)
    requires
        0 <= i < s.len(),
    ensures
        locked_in(s.update(i, o), c, a) + order_lock(s[i], c, a) == locked_in(s, c, a) + order_lock(
            o,
            c,
            a,
        ),
    decreases s.len(),
{
    let t = s.update(i, o);
    if i == s.len() - 1 {
        assert(t.drop_last() =~= s.drop_last());
    } else {
        assert(t.last() == s.last());
        assert(t.drop_last() =~= s.drop_last().update(i, o));
        lemma_locked_update(s.drop_last(), i, o, c, a);
    }
}

proof fn lemma_lock_le(s: Seq<Order>, i: int, c: CurrencyId, a: AccountId)
    requires
        0 <= i < s.len(),
    ensures
        order_lock(s[i], c, a) <= locked_in(s, c, a),
    decreases s.len(),
{
    if i != s.len() - 1 {
        assert(s.drop_last()[i] == s[i]);
        lemma_lock_le(s.drop_last(), i, c, a);
    }
}

/// What a runtime chooses for the exchange: the multi-currency ledger it trades in.
pub trait Config {
    type Currency: MultiReservableCurrency;
}

/// The exchange: a ledger of balances, the book of all orders ever submitted, the
/// events reported so far and the current block number.
#[derive(Clone, PartialEq, Eq, Debug)]
pub struct Pallet<T: Config> {
    currency: T::Currency,
    orders: Vec<Order>,
    events: Vec<Event>,
    block_number: BlockNumber,
}

impl<T: Config> Pallet<T> {
    /// The ledger.
    pub closed spec fn ledger(&self) -> T::Currency {
        self.currency
    }

    /// The order book; an order's identifier is its index.
    pub closed spec fn order_book(&self) -> Seq<Order> {
        self.orders@
    }

    /// The events reported so far, oldest first.
    pub closed spec fn event_log(&self) -> Seq<Event> {
        self.events@
    }

    /// The current block number.
    pub closed spec fn now(&self) -> BlockNumber {
        self.block_number
    }

    /// The exchange's invariant: the ledger is well formed, every order trades two
    /// different currencies in positive amounts, and every alive order is backed by
    /// its owner's reserve.
    pub closed spec fn well_formed(&self) -> bool {
        &&& self.currency.well_formed()
        &&& self.orders@.len() <= usize::MAX
        &&& forall|i: int| 0 <= i < self.orders@.len() ==> order_valid(#[trigger] self.orders@[i])
        &&& forall|c: CurrencyId, a: AccountId| #[trigger]
            locked_in(self.orders@, c, a) <= self.currency.reserved_of(c, a)
    }

    /// In every well-formed exchange, every order's position in the book fits in an
    /// `OrderId`.
    pub proof fn law_order_ids_fit(self)
        requires
            self.well_formed(),
        ensures
            self.order_book().len() <= u64::MAX,
    {
    }

    /// In every well-formed exchange, the alive orders of `a` offering currency `c`
    /// together hold no more than `a`'s reserve in `c`, and every order trades two
    /// different currencies in positive amounts.
    pub proof fn law_alive_orders_backed(self, c: CurrencyId, a: AccountId)
        requires
            self.well_formed(),
        ensures
            locked_in(self.order_book(), c, a) <= self.ledger().reserved_of(c, a),
            forall|i: int|
                0 <= i < self.order_book().len() ==> order_valid(#[trigger] self.order_book()[i]),
            forall|i: int|
                0 <= i < self.order_book().len() && #[trigger] self.order_book()[i].status
                    == OrderStatus::Alive ==> self.order_book()[i].from_bal
                    <= self.ledger().reserved_of(
                    self.order_book()[i].from_cid,
                    self.order_book()[i].owner,
                ),
    {
        assert forall|i: int|
            0 <= i < self.order_book().len() && #[trigger] self.order_book()[i].status
                == OrderStatus::Alive implies self.order_book()[i].from_bal
                <= self.ledger().reserved_of(
                self.order_book()[i].from_cid,
                self.order_book()[i].owner,
            ) by {
            let o = self.orders@[i];
            lemma_lock_le(self.orders@, i, o.from_cid, o.owner);
            assert(locked_in(self.orders@, o.from_cid, o.owner) <= self.currency.reserved_of(
                o.from_cid,
                o.owner,
            ));
        }
    }

    /// From `self` to `post`, an alive order changes only together with its owner's
    /// reserve in the currency it offers: a call that leaves that reserve alone leaves
    /// the order alone.
    pub open spec fn alive_orders_move_with_owner(self, post: Self) -> bool {
        forall|i: int|
            0 <= i < self.order_book().len() && #[trigger] self.order_book()[i].status
                == OrderStatus::Alive && post.ledger().reserved_of(
                self.order_book()[i].from_cid,
                self.order_book()[i].owner,
            ) == self.ledger().reserved_of(self.order_book()[i].from_cid, self.order_book()[i].owner)
                ==> i < post.order_book().len() && post.order_book()[i] == self.order_book()[i]
    }

    /// `post` is `self` after `who` submitted an order offering `from_bal` of `from_cid`
    /// for `to_bal` of `to_cid`.
    pub open spec fn submitted(
        self,
        post: Self,
        who: AccountId,
        from_cid: CurrencyId,
        from_bal: Balance,
        to_cid: CurrencyId,
        to_bal: Balance,
    ) -> bool {
        &&& post.order_book() == self.order_book().push(
            Order {
                owner: who,
                from_cid,
                from_bal,
                to_cid,
                to_bal,
                status: OrderStatus::Alive,
                executed_with: None,
                created_at: self.now(),
                cancelled_at: None,
                executed_at: None,
            },
        )
        &&& post.event_log() == self.event_log().push(
            Event::OrderSubmitted(who, from_cid, from_bal, to_cid, to_bal),
        )
        &&& post.now() == self.now()
        &&& forall|c: CurrencyId, a: AccountId| #[trigger]
            post.ledger().free_of(c, a) == debit(
                self.ledger().free_of(c, a),
                c,
                a,
                from_cid,
                who,
                from_bal as nat,
            )
        &&& forall|c: CurrencyId, a: AccountId| #[trigger]
            post.ledger().reserved_of(c, a) == credit(
                self.ledger().reserved_of(c, a),
                c,
                a,
                from_cid,
                who,
                from_bal as nat,
            )
        &&& same_issuance(self.ledger(), post.ledger())
    }

    /// `post` is `self` after `who` took alive order `id`: the taker paid the order's
    /// asked amount to its owner, and received the amount the owner had reserved.
    pub open spec fn taken(self, post: Self, who: AccountId, id: OrderId) -> bool {
        let o = self.order_book()[id as int];
        &&& post.order_book() == self.order_book().update(
            id as int,
            Order {
                status: OrderStatus::Executed,
                executed_with: Some(who),
                executed_at: Some(self.now()),
                ..o
            },
        )
        &&& post.event_log() == self.event_log().push(Event::OrderTaken(who, id))
        &&& post.now() == self.now()
        &&& forall|c: CurrencyId, a: AccountId| #[trigger]
            post.ledger().free_of(c, a) == free_after_repatriate(
                free_after_transfer(
                    self.ledger().free_of(c, a),
                    c,
                    a,
                    o.to_cid,
                    who,
                    o.owner,
                    o.to_bal as nat,
                ),
                c,
                a,
                o.from_cid,
                who,
                o.from_bal as nat,
                BalanceStatus::Free,
            )
        &&& forall|c: CurrencyId, a: AccountId| #[trigger]
            post.ledger().reserved_of(c, a) == debit(
                self.ledger().reserved_of(c, a),
                c,
                a,
                o.from_cid,
                o.owner,
                o.from_bal as nat,
            )
        &&& same_issuance(self.ledger(), post.ledger())
    }

    /// `post` is `self` after `who` cancelled its alive order `id`: the amount the
    /// order held in reserve is free again.
    pub open spec fn cancelled(self, post: Self, who: AccountId, id: OrderId) -> bool {
        let o = self.order_book()[id as int];
        &&& post.order_book() == self.order_book().update(
            id as int,
            Order { status: OrderStatus::Cancelled, cancelled_at: Some(self.now()), ..o },
        )
        &&& post.event_log() == self.event_log().push(Event::OrderCancelled(who, id))
        &&& post.now() == self.now()
        &&& forall|c: CurrencyId, a: AccountId| #[trigger]
            post.ledger().free_of(c, a) == credit(
                self.ledger().free_of(c, a),
                c,
                a,
                o.from_cid,
                o.owner,
                o.from_bal as nat,
            )
        &&& forall|c: CurrencyId, a: AccountId| #[trigger]
            post.ledger().reserved_of(c, a) == debit(
                self.ledger().reserved_of(c, a),
                c,
                a,
                o.from_cid,
                o.owner,
                o.from_bal as nat,
            )
        &&& same_issuance(self.ledger(), post.ledger())
    }

    /// An exchange over `currency` with no orders and no events, at block zero.
    pub fn new(currency: T::Currency) -> (p: Self)
        requires
            currency.well_formed(),
        ensures
            p.well_formed(),
            p.ledger() == currency,
            p.order_book() == Seq::<Order>::empty(),
            p.event_log() == Seq::<Event>::empty(),
            p.now() == 0,
    {
        Pallet { currency, orders: Vec::new(), events: Vec::new(), block_number: 0 }
    }

    /// The ledger.
    pub fn currency(&self) -> (c: &T::Currency)
        ensures
            *c == self.ledger(),
            self.well_formed() ==> c.well_formed(),
    {
        &self.currency
    }

    /// The current block number.
    pub fn block_number(&self) -> (n: BlockNumber)
        ensures
            n == self.now(),
    {
        self.block_number
    }

    /// Moves the exchange to block `n`; nothing else changes.
    pub fn set_block_number(&mut self, n: BlockNumber)
        requires
            old(self).well_formed(),
        ensures
            final(self).well_formed(),
            final(self).now() == n,
            final(self).ledger() == old(self).ledger(),
            final(self).order_book() == old(self).order_book(),
            final(self).event_log() == old(self).event_log(),
            keeps_settled_orders(old(self).order_book(), final(self).order_book()),
            old(self).alive_orders_move_with_owner(*final(self)),
    {
        self.block_number = n;
    }

    /// The order with identifier `id`, if there is one.
    pub fn orders(&self, id: OrderId) -> (o: Option<Order>)
        ensures
            o == if id < self.order_book().len() {
                Some(self.order_book()[id as int])
            } else {
                None::<Order>
            },
    {
        if id < self.orders.len() as u64 {
            Some(self.orders[id as usize])
        } else {
            None
        }
    }

    /// The identifier the next submitted order will get: the number of orders so far.
    pub fn next_order_id(&self) -> (id: OrderId)
        ensures
            id == self.order_book().len(),
    {
        self.orders.len() as u64
    }

    /// Identifiers of the orders that `who` submitted, oldest first.
    pub fn user_orders(&self, who: &AccountId) -> (ids: Vec<OrderId>)
        ensures
            ids@ == owned_ids(self.order_book(), *who),
    {
        let n = self.orders.len();
        let mut ids: Vec<OrderId> = Vec::new();
        let mut k: usize = 0;
        proof {
            assert(self.orders@.take(0) =~= Seq::<Order>::empty());
        }
        while k < n
            invariant
                n == self.orders@.len(),
                k <= n,
                ids@ == owned_ids(self.orders@.take(k as int), *who),
            decreases n - k,
        {
            proof {
                let s = self.orders@;
                assert(s.take(k + 1).drop_last() =~= s.take(k as int));
                assert(s.take(k + 1).last() == s[k as int]);
            }
            if self.orders[k].owner == *who {
                ids.push(k as u64);
            }
            k = k + 1;
        }
        proof {
            assert(self.orders@.take(n as int) =~= self.orders@);
        }
        ids
    }

    /// The events reported so far, oldest first, left in place.
    pub fn pending_events(&self) -> (evs: &Vec<Event>)
        ensures
            evs@ == self.event_log(),
    {
        &self.events
    }

    /// Hands out the events reported so far, oldest first, and forgets them; each
    /// event is handed out once. With no event reported, nothing changes.
    pub fn events(&mut self) -> (evs: Vec<Event>)
        requires
            old(self).well_formed(),
        ensures
            final(self).well_formed(),
            evs@ == old(self).event_log(),
            final(self).event_log() == Seq::<Event>::empty(),
            final(self).ledger() == old(self).ledger(),
            final(self).order_book() == old(self).order_book(),
            final(self).now() == old(self).now(),
            keeps_settled_orders(old(self).order_book(), final(self).order_book()),
            old(self).alive_orders_move_with_owner(*final(self)),
            old(self).event_log() == Seq::<Event>::empty() ==> *final(self) == *old(self),
    {
        if self.events.len() == 0 {
            return Vec::new();
        }
        let mut evs: Vec<Event> = Vec::new();
        std::mem::swap(&mut evs, &mut self.events);
        evs
    }

    /// `who` offers `from_bal` of currency `from_cid` for `to_bal` of currency `to_cid`.
    ///
    /// The offered amount is reserved in `who`'s account, and the order is added to the
    /// book as alive, created at the current block, under the next identifier.
    /// Refused, with nothing changed, when the two currencies are the same, when either
    /// amount is zero, or when `who`'s free balance does not cover the offer.
    pub fn submit_order(
        &mut self,
        who: AccountId,
        from_cid: CurrencyId,
        from_bal: Balance,
        to_cid: CurrencyId,
        to_bal: Balance,
    ) -> (r: Result<(), Error>)
        requires
            old(self).well_formed(),
        ensures
            final(self).well_formed(),
            r == submit_outcome(old(self).ledger(), who, from_cid, from_bal, to_cid, to_bal),
            keeps_settled_orders(old(self).order_book(), final(self).order_book()),
            old(self).alive_orders_move_with_owner(*final(self)),
            r is Ok ==> old(self).submitted(*final(self), who, from_cid, from_bal, to_cid, to_bal),
            r is Err ==> *final(self) == *old(self),
    {
        if from_cid == to_cid {
            return Err(Error::SameToFromCurrency);
        }
        if from_bal == 0 || to_bal == 0 {
            return Err(Error::OrderWithZeroBal);
        }
        let ghost pre = *self;
        match self.currency.reserve(from_cid, &who, from_bal) {
            Ok(()) => {},
            Err(()) => {
                return Err(Error::NotEnoughBalance);
            },
        }
        let order = Order {
            owner: who,
            from_cid,
            from_bal,
            to_cid,
            to_bal,
            status: OrderStatus::Alive,
            executed_with: None,
            created_at: self.block_number,
            cancelled_at: None,
            executed_at: None,
        };
        self.orders.push(order);
        let _count = self.orders.len();
        self.events.push(Event::OrderSubmitted(who, from_cid, from_bal, to_cid, to_bal));
        proof {
            assert forall|c: CurrencyId, a: AccountId| #[trigger]
                locked_in(self.orders@, c, a) <= self.currency.reserved_of(c, a) by {
                lemma_locked_push(pre.orders@, order, c, a);
                assert(locked_in(pre.orders@, c, a) <= pre.currency.reserved_of(c, a));
            }
            assert forall|i: int| 0 <= i < self.orders@.len() implies order_valid(
                #[trigger] self.orders@[i],
            ) by {
                if i < pre.orders@.len() {
                    assert(self.orders@[i] == pre.orders@[i]);
                }
            }
        }
        Ok(())
    }

    /// `who` takes order `order_id`: `who` pays the order's asked amount to its owner
    /// and receives the amount the owner had reserved; the order becomes executed, with
    /// `who` and the current block recorded.
    ///
    /// Refused, with nothing changed, when there is no such order, when it is no
    /// longer alive, or when `who`'s free balance does not cover the asked amount.
    pub fn take_order(&mut self, who: AccountId, order_id: OrderId) -> (r: Result<(), Error>)
        requires
            old(self).well_formed(),
        ensures
            final(self).well_formed(),
            r == take_outcome(old(self).ledger(), old(self).order_book(), who, order_id),
            keeps_settled_orders(old(self).order_book(), final(self).order_book()),
            old(self).alive_orders_move_with_owner(*final(self)),
            r is Ok ==> old(self).taken(*final(self), who, order_id),
            r is Err ==> *final(self) == *old(self),
    {
        if order_id >= self.orders.len() as u64 {
            return Err(Error::OrderNotExist);
        }
        let idx = order_id as usize;
        let o = self.orders[idx];
        match o.status {
            OrderStatus::Alive => {},
            _ => {
                return Err(Error::OrderCannotBeTaken);
            },
        }
        let ghost pre = *self;
        match self.currency.transfer(o.to_cid, &who, &o.owner, o.to_bal) {
            Ok(()) => {},
            Err(()) => {
                return Err(Error::NotEnoughBalance);
            },
        }
        let ghost mid = self.currency;
        proof {
            lemma_lock_le(pre.orders@, idx as int, o.from_cid, o.owner);
            assert(locked_in(pre.orders@, o.from_cid, o.owner) <= pre.currency.reserved_of(
                o.from_cid,
                o.owner,
            ));
        }
        let repatriated = self.currency.repatriate_reserved(
            o.from_cid,
            &o.owner,
            &who,
            o.from_bal,
            BalanceStatus::Free,
        );
        proof {
            assert(repatriated is Ok);
        }
        let executed = Order {
            status: OrderStatus::Executed,
            executed_with: Some(who),
            executed_at: Some(self.block_number),
            ..o
        };
        self.orders.set(idx, executed);
        self.events.push(Event::OrderTaken(who, order_id));
        proof {
            assert forall|c: CurrencyId, a: AccountId| #[trigger]
                locked_in(self.orders@, c, a) <= self.currency.reserved_of(c, a) by {
                lemma_locked_update(pre.orders@, idx as int, executed, c, a);
                assert(locked_in(pre.orders@, c, a) <= pre.currency.reserved_of(c, a));
                assert(mid.reserved_of(c, a) == pre.currency.reserved_of(c, a));
            }
            assert forall|i: int| 0 <= i < self.orders@.len() implies order_valid(
                #[trigger] self.orders@[i],
            ) by {
                assert(order_valid(pre.orders@[i]));
            }
            assert forall|c: CurrencyId, a: AccountId| #[trigger]
                self.currency.free_of(c, a) == free_after_repatriate(
                    free_after_transfer(pre.currency.free_of(c, a), c, a, o.to_cid, who, o.owner, o.to_bal as nat),
                    c,
                    a,
                    o.from_cid,
                    who,
                    o.from_bal as nat,
                    BalanceStatus::Free,
                ) by {
                assert(mid.free_of(c, a) == free_after_transfer(
                    pre.currency.free_of(c, a),
                    c,
                    a,
                    o.to_cid,
                    who,
                    o.owner,
                    o.to_bal as nat,
                ));
            }
            assert forall|c: CurrencyId, a: AccountId| #[trigger]
                self.currency.reserved_of(c, a) == debit(
                    pre.currency.reserved_of(c, a),
                    c,
                    a,
                    o.from_cid,
                    o.owner,
                    o.from_bal as nat,
                ) by {
                assert(mid.reserved_of(c, a) == pre.currency.reserved_of(c, a));
            }
            assert forall|c: CurrencyId| #[trigger]
                self.currency.total_issuance_of(c) == pre.currency.total_issuance_of(c) by {
                assert(mid.total_issuance_of(c) == pre.currency.total_issuance_of(c));
            }
        }
        Ok(())
    }

    /// `who` cancels its order `order_id`: the amount the order held in reserve is
    /// free again, and the order becomes cancelled at the current block.
    ///
    /// Refused, with nothing changed, when `who` owns no order with this identifier,
    /// or when the order is no longer alive.
    pub fn cancel_order(&mut self, who: AccountId, order_id: OrderId) -> (r: Result<(), Error>)
        requires
            old(self).well_formed(),
        ensures
            final(self).well_formed(),
            r == cancel_outcome(old(self).order_book(), who, order_id),
            keeps_settled_orders(old(self).order_book(), final(self).order_book()),
            old(self).alive_orders_move_with_owner(*final(self)),
            r is Ok ==> old(self).cancelled(*final(self), who, order_id),
            r is Err ==> *final(self) == *old(self),
    {
        if order_id >= self.orders.len() as u64 {
            return Err(Error::NotOrderOwner);
        }
        let idx = order_id as usize;
        let o = self.orders[idx];
        if o.owner != who {
            return Err(Error::NotOrderOwner);
        }
        match o.status {
            OrderStatus::Alive => {},
            _ => {
                return Err(Error::OrderCannotBeCancelled);
            },
        }
        let ghost pre = *self;
        proof {
            lemma_lock_le(pre.orders@, idx as int, o.from_cid, o.owner);
            assert(locked_in(pre.orders@, o.from_cid, o.owner) <= pre.currency.reserved_of(
                o.from_cid,
                o.owner,
            ));
        }
        self.currency.unreserve(o.from_cid, &o.owner, o.from_bal);
        proof {
            assert(unreserve_amount(pre.currency.reserved_of(o.from_cid, o.owner), o.from_bal)
                == o.from_bal);
        }
        let cancelled = Order { status: OrderStatus::Cancelled, cancelled_at: Some(self.block_number), ..o };
        self.orders.set(idx, cancelled);
        self.events.push(Event::OrderCancelled(who, order_id));
        proof {
            assert forall|c: CurrencyId, a: AccountId| #[trigger]
                locked_in(self.orders@, c, a) <= self.currency.reserved_of(c, a) by {
                lemma_locked_update(pre.orders@, idx as int, cancelled, c, a);
                assert(locked_in(pre.orders@, c, a) <= pre.currency.reserved_of(c, a));
            }
            assert forall|i: int| 0 <= i < self.orders@.len() implies order_valid(
                #[trigger] self.orders@[i],
            ) by {
                assert(order_valid(pre.orders@[i]));
            }
        }
        Ok(())
    }
}

} // verus!
