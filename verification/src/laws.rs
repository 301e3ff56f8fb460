//! Properties of the exchange that span several calls.
use vstd::prelude::*;
use crate::{AccountId, Balance, CurrencyId};
use crate::currency::MultiCurrency;
use crate::exchange::{
    cancel_outcome, order_valid, owned_ids, submit_outcome, Order, take_outcome, keeps_settled_orders, Config, Error, OrderId, OrderStatus, Pallet,
};

verus! {

/// Cancelling an order right after submitting it gives back every balance as it was
/// before the submission.
pub proof fn law_cancel_undoes_submit<T: Config>(
    p0: Pallet<T>,
    p1: Pallet<T>,
    p2: Pallet<T>,
    who: AccountId,
    from_cid: CurrencyId,
    from_bal: Balance,
    to_cid: CurrencyId,
    to_bal: Balance,
    id: OrderId,
)
    requires
        id == p0.order_book().len(),
        submit_outcome(p0.ledger(), who, from_cid, from_bal, to_cid, to_bal) is Ok,
        p0.submitted(p1, who, from_cid, from_bal, to_cid, to_bal),
        p1.cancelled(p2, who, id),
    ensures
        forall|c: CurrencyId, a: AccountId| #[trigger]
            p2.ledger().free_of(c, a) == p0.ledger().free_of(c, a),
        forall|c: CurrencyId, a: AccountId| #[trigger]
            p2.ledger().reserved_of(c, a) == p0.ledger().reserved_of(c, a),
        forall|c: CurrencyId| #[trigger]
            p2.ledger().total_issuance_of(c) == p0.ledger().total_issuance_of(c),
{
    let o = p1.order_book()[id as int];
    assert(o.owner == who && o.from_cid == from_cid && o.from_bal == from_bal);
}

/// Taking an order swaps the two amounts: the taker pays the asked amount to the
/// owner and receives the offered amount, which leaves the owner's reserve.
pub proof fn law_take_swaps<T: Config>(
    p: Pallet<T>,
    q: Pallet<T>,
    who: AccountId,
    id: OrderId,
)
    requires
        p.well_formed(),
        take_outcome(p.ledger(), p.order_book(), who, id) is Ok,
        p.taken(q, who, id),
        who != p.order_book()[id as int].owner,
    ensures
        ({
            let o = p.order_book()[id as int];
            &&& q.ledger().free_of(o.to_cid, who) == p.ledger().free_of(o.to_cid, who) - o.to_bal
            &&& q.ledger().free_of(o.to_cid, o.owner) == p.ledger().free_of(o.to_cid, o.owner)
                + o.to_bal
            &&& q.ledger().free_of(o.from_cid, who) == p.ledger().free_of(o.from_cid, who)
                + o.from_bal
            &&& q.ledger().free_of(o.from_cid, o.owner) == p.ledger().free_of(o.from_cid, o.owner)
            &&& q.ledger().reserved_of(o.from_cid, o.owner) == p.ledger().reserved_of(
                o.from_cid,
                o.owner,
            ) - o.from_bal
        }),
{
    let o = p.order_book()[id as int];
    p.law_alive_orders_backed(o.from_cid, o.owner);
    assert(order_valid(o));
}

/// A settled order (one that is no longer alive) stays as it is through any run of
/// calls that each keep settled orders, which every call of the exchange does: at the
/// end it is the same order, nobody can take it, and its owner cannot cancel it.
pub proof fn law_settled_order_stays_settled<T: Config>(
    states: Seq<Pallet<T>>,
    id: OrderId,
    who: AccountId,
)
    requires
        states.len() > 0,
        id < states[0].order_book().len(),
        states[0].order_book()[id as int].status != OrderStatus::Alive,
        forall|k: int|
            #![trigger states[k]]
            0 <= k < states.len() - 1 ==> keeps_settled_orders(
                states[k].order_book(),
                states[k + 1].order_book(),
            ),
    ensures
        id < states.last().order_book().len(),
        states.last().order_book()[id as int] == states[0].order_book()[id as int],
        take_outcome(states.last().ledger(), states.last().order_book(), who, id) == Err::<(), Error>(
            Error::OrderCannotBeTaken,
        ),
        cancel_outcome(states.last().order_book(), who, id) == Err::<(), Error>(
            if states[0].order_book()[id as int].owner == who {
                Error::OrderCannotBeCancelled
            } else {
                Error::NotOrderOwner
            },
        ),
    decreases states.len(),
{
    if states.len() > 1 {
        let front = states.drop_last();
        assert forall|k: int|
            #![trigger front[k]]
            0 <= k < front.len() - 1 implies keeps_settled_orders(
                front[k].order_book(),
                front[k + 1].order_book(),
            ) by {
            assert(front[k] == states[k] && front[k + 1] == states[k + 1]);
        }
        assert(front[0] == states[0]);
        law_settled_order_stays_settled(front, id, who);
        let k = states.len() - 2;
        assert(front.last() == states[k]);
        assert(keeps_settled_orders(states[k].order_book(), states[k + 1].order_book()));
    }
}

/// An order that was taken is final: after any later run of calls (each keeping
/// settled orders, as every call of the exchange does) it can be neither taken nor
/// cancelled.
pub proof fn law_taken_order_is_final<T: Config>(
    p: Pallet<T>,
    later: Seq<Pallet<T>>,
    who: AccountId,
    id: OrderId,
    other: AccountId,
)
    requires
        take_outcome(p.ledger(), p.order_book(), who, id) is Ok,
        later.len() > 0,
        p.taken(later[0], who, id),
        forall|k: int|
            #![trigger later[k]]
            0 <= k < later.len() - 1 ==> keeps_settled_orders(
                later[k].order_book(),
                later[k + 1].order_book(),
            ),
    ensures
        take_outcome(later.last().ledger(), later.last().order_book(), other, id) == Err::<(), Error>(
            Error::OrderCannotBeTaken,
        ),
        cancel_outcome(later.last().order_book(), p.order_book()[id as int].owner, id) == Err::<
            (),
            Error,
        >(Error::OrderCannotBeCancelled),
{
    assert(later[0].order_book()[id as int].status == OrderStatus::Executed);
    law_settled_order_stays_settled(later, id, other);
    law_settled_order_stays_settled(later, id, p.order_book()[id as int].owner);
}

/// An order that was cancelled is final: after any later run of calls (each keeping
/// settled orders, as every call of the exchange does) it can be neither taken nor
/// cancelled again.
pub proof fn law_cancelled_order_is_final<T: Config>(
    p: Pallet<T>,
    later: Seq<Pallet<T>>,
    who: AccountId,
    id: OrderId,
    other: AccountId,
)
    requires
        cancel_outcome(p.order_book(), who, id) is Ok,
        later.len() > 0,
        p.cancelled(later[0], who, id),
        forall|k: int|
            #![trigger later[k]]
            0 <= k < later.len() - 1 ==> keeps_settled_orders(
                later[k].order_book(),
                later[k + 1].order_book(),
            ),
    ensures
        take_outcome(later.last().ledger(), later.last().order_book(), other, id) == Err::<(), Error>(
            Error::OrderCannotBeTaken,
        ),
        cancel_outcome(later.last().order_book(), who, id) == Err::<(), Error>(
            Error::OrderCannotBeCancelled,
        ),
{
    assert(later[0].order_book()[id as int].status == OrderStatus::Cancelled);
    law_settled_order_stays_settled(later, id, other);
    law_settled_order_stays_settled(later, id, who);
}

/// Cancelling an order gives its owner back every balance it had before submitting
/// it, from any state that holds the order and the owner's balances as the
/// submission made them.
proof fn lemma_cancel_refunds_owner<T: Config>(
    p0: Pallet<T>,
    p1: Pallet<T>,
    pk: Pallet<T>,
    p2: Pallet<T>,
    who: AccountId,
    from_cid: CurrencyId,
    from_bal: Balance,
    to_cid: CurrencyId,
    to_bal: Balance,
    id: OrderId,
)
    requires
        id == p0.order_book().len(),
        submit_outcome(p0.ledger(), who, from_cid, from_bal, to_cid, to_bal) is Ok,
        p0.submitted(p1, who, from_cid, from_bal, to_cid, to_bal),
        id < pk.order_book().len(),
        pk.order_book()[id as int] == p1.order_book()[id as int],
        forall|c: CurrencyId| #[trigger] pk.ledger().free_of(c, who) == p1.ledger().free_of(c, who),
        forall|c: CurrencyId| #[trigger] pk.ledger().reserved_of(c, who) == p1.ledger().reserved_of(c, who),
    ensures
        cancel_outcome(pk.order_book(), who, id) is Ok,
        pk.cancelled(p2, who, id) ==> {
            &&& forall|c: CurrencyId| #[trigger]
                p2.ledger().free_of(c, who) == p0.ledger().free_of(c, who)
            &&& forall|c: CurrencyId| #[trigger]
                p2.ledger().reserved_of(c, who) == p0.ledger().reserved_of(c, who)
        },
{
    let o = p1.order_book()[id as int];
    assert(o.owner == who && o.from_cid == from_cid && o.from_bal == from_bal);
    assert(o.status == OrderStatus::Alive);
    if pk.cancelled(p2, who, id) {
        assert forall|c: CurrencyId| #[trigger]
            p2.ledger().free_of(c, who) == p0.ledger().free_of(c, who) by {
            assert(pk.ledger().free_of(c, who) == p1.ledger().free_of(c, who));
        }
        assert forall|c: CurrencyId| #[trigger]
            p2.ledger().reserved_of(c, who) == p0.ledger().reserved_of(c, who) by {
            assert(pk.ledger().reserved_of(c, who) == p1.ledger().reserved_of(c, who));
        }
    }
}

/// From `pre` to `post`, no balance of `who` changed, in any currency.
pub open spec fn leaves_balances_of<T: Config>(pre: Pallet<T>, post: Pallet<T>, who: AccountId) -> bool {
    &&& forall|c: CurrencyId| #[trigger] post.ledger().free_of(c, who) == pre.ledger().free_of(c, who)
    &&& forall|c: CurrencyId| #[trigger] post.ledger().reserved_of(c, who) == pre.ledger().reserved_of(c, who)
}

/// One step of a run: a call of the exchange (each of which moves an alive order only
/// together with its owner's reserve) that left the balances of `who` alone.
pub open spec fn quiet_step_for<T: Config>(pre: Pallet<T>, post: Pallet<T>, who: AccountId) -> bool {
    &&& pre.alive_orders_move_with_owner(post)
    &&& leaves_balances_of(pre, post, who)
}

/// Through a run of steps that leave the balances of `who` alone, an alive order of
/// `who` stays as it is, and so do the balances of `who`.
proof fn lemma_owner_order_untouched<T: Config>(states: Seq<Pallet<T>>, id: OrderId, who: AccountId)
    requires
        states.len() > 0,
        id < states[0].order_book().len(),
        states[0].order_book()[id as int].status == OrderStatus::Alive,
        states[0].order_book()[id as int].owner == who,
        forall|k: int|
            #![trigger states[k]]
            0 <= k < states.len() - 1 ==> quiet_step_for(states[k], states[k + 1], who),
    ensures
        id < states.last().order_book().len(),
        states.last().order_book()[id as int] == states[0].order_book()[id as int],
        leaves_balances_of(states[0], states.last(), who),
    decreases states.len(),
{
    if states.len() > 1 {
        let front = states.drop_last();
        assert forall|k: int|
            #![trigger front[k]]
            0 <= k < front.len() - 1 implies quiet_step_for(front[k], front[k + 1], who) by {
            assert(front[k] == states[k] && front[k + 1] == states[k + 1]);
        }
        assert(front[0] == states[0]);
        lemma_owner_order_untouched(front, id, who);
        let k = states.len() - 2;
        assert(front.last() == states[k]);
        assert(quiet_step_for(states[k], states[k + 1], who));
        let o = states[0].order_book()[id as int];
        assert(states[k].order_book()[id as int] == o);
        assert(states[k + 1].ledger().reserved_of(o.from_cid, who) == states[k].ledger().reserved_of(
            o.from_cid,
            who,
        ));
        assert(leaves_balances_of(states[0], states.last(), who)) by {
            assert forall|c: CurrencyId| #[trigger]
                states.last().ledger().free_of(c, who) == states[0].ledger().free_of(c, who) by {
                assert(states[k].ledger().free_of(c, who) == states[0].ledger().free_of(c, who));
            }
            assert forall|c: CurrencyId| #[trigger]
                states.last().ledger().reserved_of(c, who) == states[0].ledger().reserved_of(c, who) by {
                assert(states[k].ledger().reserved_of(c, who) == states[0].ledger().reserved_of(c, who));
            }
        }
    }
}

/// Cancelling an order gives its owner back every balance it had before submitting
/// it, whatever calls came in between, as long as none of them touched the owner's
/// balances: the cancellation succeeds, and afterwards every free and reserved balance
/// of the owner is what it was before the submission.
pub proof fn law_cancel_refunds_owner<T: Config>(
    p0: Pallet<T>,
    later: Seq<Pallet<T>>,
    p2: Pallet<T>,
    who: AccountId,
    from_cid: CurrencyId,
    from_bal: Balance,
    to_cid: CurrencyId,
    to_bal: Balance,
    id: OrderId,
)
    requires
        id == p0.order_book().len(),
        submit_outcome(p0.ledger(), who, from_cid, from_bal, to_cid, to_bal) is Ok,
        later.len() > 0,
        p0.submitted(later[0], who, from_cid, from_bal, to_cid, to_bal),
        forall|k: int|
            #![trigger later[k]]
            0 <= k < later.len() - 1 ==> quiet_step_for(later[k], later[k + 1], who),
    ensures
        cancel_outcome(later.last().order_book(), who, id) is Ok,
        later.last().cancelled(p2, who, id) ==> {
            &&& forall|c: CurrencyId| #[trigger]
                p2.ledger().free_of(c, who) == p0.ledger().free_of(c, who)
            &&& forall|c: CurrencyId| #[trigger]
                p2.ledger().reserved_of(c, who) == p0.ledger().reserved_of(c, who)
        },
{
    let p1 = later[0];
    assert(p1.order_book()[id as int].owner == who);
    lemma_owner_order_untouched(later, id, who);
    let pk = later.last();
    assert(forall|c: CurrencyId| #[trigger] pk.ledger().free_of(c, who) == p1.ledger().free_of(c, who));
    assert(forall|c: CurrencyId| #[trigger] pk.ledger().reserved_of(c, who) == p1.ledger().reserved_of(c, who));
    lemma_cancel_refunds_owner(p0, p1, pk, p2, who, from_cid, from_bal, to_cid, to_bal, id);
}

/// A submission is accepted exactly when it trades two different currencies, both
/// amounts are positive, and the submitter's free balance in the offered currency
/// covers the offered amount; it is refused for want of balance exactly when only that
/// last condition fails. The asked amount, and the submitter's balance in the asked
/// currency, play no part beyond being positive.
pub proof fn law_submit_accepts_covered_offers<C: MultiCurrency>(
    ledger: C,
    who: AccountId,
    from_cid: CurrencyId,
    from_bal: Balance,
    to_cid: CurrencyId,
    to_bal: Balance,
)
    ensures
        submit_outcome(ledger, who, from_cid, from_bal, to_cid, to_bal) is Ok <==> {
            &&& from_cid != to_cid
            &&& from_bal > 0
            &&& to_bal > 0
            &&& ledger.free_of(from_cid, who) >= from_bal
        },
        submit_outcome(ledger, who, from_cid, from_bal, to_cid, to_bal) == Err::<(), Error>(
            Error::NotEnoughBalance,
        ) <==> {
            &&& from_cid != to_cid
            &&& from_bal > 0
            &&& to_bal > 0
            &&& ledger.free_of(from_cid, who) < from_bal
        },
{
}

/// The answer to a submission depends on the ledger only through the submitter's free
/// balance in the offered currency, and on the asked amount only through whether it is
/// zero.
pub proof fn law_submit_depends_only_on_offer<C: MultiCurrency>(
    l1: C,
    l2: C,
    who: AccountId,
    from_cid: CurrencyId,
    from_bal: Balance,
    to_cid: CurrencyId,
    to_bal1: Balance,
    to_bal2: Balance,
)
    requires
        l1.free_of(from_cid, who) == l2.free_of(from_cid, who),
        to_bal1 > 0 <==> to_bal2 > 0,
    ensures
        submit_outcome(l1, who, from_cid, from_bal, to_cid, to_bal1) == submit_outcome(
            l2,
            who,
            from_cid,
            from_bal,
            to_cid,
            to_bal2,
        ),
{
}

/// Taking order `id` is accepted exactly when the order exists, is alive, and the
/// taker's free balance in the asked currency covers the asked amount.
pub proof fn law_take_accepts_covered_alive_orders<C: MultiCurrency>(
    ledger: C,
    orders: Seq<Order>,
    who: AccountId,
    id: OrderId,
)
    ensures
        take_outcome(ledger, orders, who, id) is Ok <==> {
            &&& id < orders.len()
            &&& orders[id as int].status == OrderStatus::Alive
            &&& ledger.free_of(orders[id as int].to_cid, who) >= orders[id as int].to_bal
        },
        take_outcome(ledger, orders, who, id) == Err::<(), Error>(Error::OrderNotExist) <==> id
            >= orders.len(),
{
}

/// The answer to taking order `id` depends only on that order and on the taker's free
/// balance in the currency it asks for: the other orders of the book, alive or not,
/// play no part.
pub proof fn law_take_depends_only_on_the_order<C: MultiCurrency>(
    l1: C,
    orders1: Seq<Order>,
    l2: C,
    orders2: Seq<Order>,
    who: AccountId,
    id: OrderId,
)
    requires
        id < orders1.len() <==> id < orders2.len(),
        id < orders1.len() ==> orders1[id as int] == orders2[id as int],
        id < orders1.len() ==> l1.free_of(orders1[id as int].to_cid, who) == l2.free_of(
            orders1[id as int].to_cid,
            who,
        ),
    ensures
        take_outcome(l1, orders1, who, id) == take_outcome(l2, orders2, who, id),
{
}

/// Cancelling order `id` is accepted exactly when the order exists, belongs to the
/// caller and is alive; the answer depends on no other order of the book.
pub proof fn law_cancel_depends_only_on_the_order(
    orders1: Seq<Order>,
    orders2: Seq<Order>,
    who: AccountId,
    id: OrderId,
)
    requires
        id < orders1.len() <==> id < orders2.len(),
        id < orders1.len() ==> orders1[id as int] == orders2[id as int],
    ensures
        cancel_outcome(orders1, who, id) == cancel_outcome(orders2, who, id),
        cancel_outcome(orders1, who, id) is Ok <==> {
            &&& id < orders1.len()
            &&& orders1[id as int].owner == who
            &&& orders1[id as int].status == OrderStatus::Alive
        },
{
}

/// The list of `a`'s orders holds, in increasing order and once each, exactly the
/// identifiers of the orders of the book that `a` submitted, whatever their status.
pub proof fn law_user_orders_are_the_owned_ones(s: Seq<Order>, a: AccountId)
    requires
        s.len() <= u64::MAX,
    ensures
        forall|i: int|
            0 <= i < s.len() ==> (owned_ids(s, a).contains(i as OrderId) <==> #[trigger] s[i].owner
                == a),
        forall|j: int|
            0 <= j < owned_ids(s, a).len() ==> #[trigger] owned_ids(s, a)[j] < s.len() && s[owned_ids(
                s,
                a,
            )[j] as int].owner == a,
        forall|j: int, k: int|
            0 <= j < k < owned_ids(s, a).len() ==> #[trigger] owned_ids(s, a)[j] < #[trigger] owned_ids(
                s,
                a,
            )[k],
    decreases s.len(),
{
    let r = owned_ids(s, a);
    if s.len() > 0 {
        let t = s.drop_last();
        let rt = owned_ids(t, a);
        law_user_orders_are_the_owned_ones(t, a);
        assert forall|i: int| 0 <= i < t.len() implies #[trigger] s[i] == t[i] by {}
        if s.last().owner == a {
            assert(r == rt.push((s.len() - 1) as OrderId));
            assert forall|i: int| 0 <= i < s.len() implies (r.contains(i as OrderId) <==> #[trigger] s[i].owner
                == a) by {
                if i < t.len() {
                    if s[i].owner == a {
                        assert(t[i].owner == a);
                        assert(rt.contains(i as OrderId));
                        let k = choose|k: int| 0 <= k < rt.len() && rt[k] == i as OrderId;
                        assert(r[k] == i as OrderId);
                    }
                    if r.contains(i as OrderId) {
                        let k = choose|k: int| 0 <= k < r.len() && r[k] == i as OrderId;
                        if k < rt.len() {
                            assert(rt[k] == r[k]);
                            assert(t[rt[k] as int].owner == a);
                        }
                    }
                } else {
                    assert(r[r.len() - 1] == i as OrderId);
                }
            }
            assert forall|j: int| 0 <= j < r.len() implies #[trigger] r[j] < s.len() && s[r[j] as int].owner
                == a by {
                if j < rt.len() {
                    assert(r[j] == rt[j]);
                }
            }
            assert forall|j: int, k: int| 0 <= j < k < r.len() implies #[trigger] r[j] < #[trigger] r[k] by {
                if k < rt.len() {
                    assert(r[j] == rt[j] && r[k] == rt[k]);
                } else {
                    assert(r[j] == rt[j]);
                }
            }
        } else {
            assert(r == rt);
            assert forall|i: int| 0 <= i < s.len() implies (r.contains(i as OrderId) <==> #[trigger] s[i].owner
                == a) by {
                if i < t.len() {
                    assert(t[i].owner == s[i].owner);
                } else if r.contains(i as OrderId) {
                    let k = choose|k: int| 0 <= k < r.len() && r[k] == i as OrderId;
                    assert(rt[k] < t.len());
                }
            }
        }
    }
}

/// Two books whose orders have the same owners, position by position, give every
/// account the same list of orders: the status of an order plays no part.
pub proof fn law_user_orders_ignore_status(s: Seq<Order>, t: Seq<Order>, a: AccountId)
    requires
        s.len() == t.len(),
        forall|i: int| 0 <= i < s.len() ==> #[trigger] s[i].owner == t[i].owner,
    ensures
        owned_ids(s, a) == owned_ids(t, a),
    decreases s.len(),
{
    if s.len() > 0 {
        let s1 = s.drop_last();
        let t1 = t.drop_last();
        assert forall|i: int| 0 <= i < s1.len() implies #[trigger] s1[i].owner == t1[i].owner by {
            assert(s1[i] == s[i] && t1[i] == t[i]);
        }
        law_user_orders_ignore_status(s1, t1, a);
        assert(s.last().owner == t.last().owner);
    }
}

/// Submitting appends the new order's identifier to the submitter's list and leaves
/// every other account's list as it was.
pub proof fn law_submit_extends_user_orders<T: Config>(
    p: Pallet<T>,
    q: Pallet<T>,
    who: AccountId,
    from_cid: CurrencyId,
    from_bal: Balance,
    to_cid: CurrencyId,
    to_bal: Balance,
    a: AccountId,
)
    requires
        p.submitted(q, who, from_cid, from_bal, to_cid, to_bal),
    ensures
        owned_ids(q.order_book(), a) == if a == who {
            owned_ids(p.order_book(), a).push(p.order_book().len() as OrderId)
        } else {
            owned_ids(p.order_book(), a)
        },
{
    assert(q.order_book().drop_last() =~= p.order_book());
}

/// Taking an order leaves every account's list of orders as it was: the taken order
/// stays in its owner's list.
pub proof fn law_take_keeps_user_orders<T: Config>(
    p: Pallet<T>,
    q: Pallet<T>,
    who: AccountId,
    id: OrderId,
    a: AccountId,
)
    requires
        id < p.order_book().len(),
        p.taken(q, who, id),
    ensures
        owned_ids(q.order_book(), a) == owned_ids(p.order_book(), a),
{
    law_user_orders_ignore_status(q.order_book(), p.order_book(), a);
}

/// Cancelling an order leaves every account's list of orders as it was: the cancelled
/// order stays in its owner's list.
pub proof fn law_cancel_keeps_user_orders<T: Config>(
    p: Pallet<T>,
    q: Pallet<T>,
    who: AccountId,
    id: OrderId,
    a: AccountId,
)
    requires
        id < p.order_book().len(),
        p.cancelled(q, who, id),
    ensures
        owned_ids(q.order_book(), a) == owned_ids(p.order_book(), a),
{
    law_user_orders_ignore_status(q.order_book(), p.order_book(), a);
}

/// In a well-formed exchange, `a`'s list holds exactly the identifiers of the orders
/// `a` submitted, whatever their status, in increasing order.
pub proof fn law_exchange_user_orders<T: Config>(p: Pallet<T>, a: AccountId)
    requires
        p.well_formed(),
    ensures
        forall|i: int|
            0 <= i < p.order_book().len() ==> (owned_ids(p.order_book(), a).contains(i as OrderId)
                <==> #[trigger] p.order_book()[i].owner == a),
{
    p.law_order_ids_fit();
    law_user_orders_are_the_owned_ones(p.order_book(), a);
}

} // verus!
