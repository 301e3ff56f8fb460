//! An in-memory multi-currency ledger with free and reserved balances.
use vstd::prelude::*;
use crate::{AccountId, Balance, CurrencyId};
use crate::currency::{
    credit, debit, free_after_repatriate, free_after_transfer, reserved_after_repatriate,
    unreserve_amount, BalanceStatus, MultiCurrency, MultiReservableCurrency,
};

verus! {

/// The balances of one account in one currency.
#[derive(PartialEq, Eq, Structural, Clone, Copy, Debug)]
pub struct LedgerEntry {
    pub who: AccountId,
    pub currency: CurrencyId,
    pub free: Balance,
    pub reserved: Balance,
}

/// `e` holds the balances of account `a` in currency `c`.
pub open spec fn entry_matches(e: LedgerEntry, c: CurrencyId, a: AccountId) -> bool {
    e.currency == c && e.who == a
}

/// Free balance of `a` in `c` recorded in `s` (zero where `s` has no entry for it).
pub open spec fn free_in(s: Seq<LedgerEntry>, c: CurrencyId, a: AccountId) -> nat
    decreases s.len(),
{
    if s.len() == 0 {
        0
    } else if entry_matches(s.last(), c, a) {
        s.last().free as nat
    } else {
        free_in(s.drop_last(), c, a)
    }
}

/// Reserved balance of `a` in `c` recorded in `s` (zero where `s` has no entry for it).
pub open spec fn reserved_in(s: Seq<LedgerEntry>, c: CurrencyId, a: AccountId) -> nat
    decreases s.len(),
{
    if s.len() == 0 {
        0
    } else if entry_matches(s.last(), c, a) {
        s.last().reserved as nat
    } else {
        reserved_in(s.drop_last(), c, a)
    }
}

/// What entry `e` contributes to the issuance of currency `c`.
pub open spec fn entry_weight(e: LedgerEntry, c: CurrencyId) -> nat {
    if e.currency == c {
        (e.free + e.reserved) as nat
    } else {
        0
    }
}

/// Sum of the free and reserved balances in currency `c` over all entries of `s`.
pub open spec fn total_in(s: Seq<LedgerEntry>, c: CurrencyId) -> nat
    decreases s.len(),
{
    if s.len() == 0 {
        0
    } else {
        total_in(s.drop_last(), c) + entry_weight(s.last(), c)
    }
}

/// No two entries of `s` are for the same account and currency.
pub open spec fn unique_keys(s: Seq<LedgerEntry>) -> bool {
    forall|i: int, j: int|
        0 <= i < s.len() && 0 <= j < s.len() && i != j ==> !entry_matches(
            #[trigger] s[j],
            #[trigger] s[i].currency,
            s[i].who,
        )
}

proof fn lemma_unique_drop_last(s: Seq<LedgerEntry>)
    requires
        unique_keys(s),
        s.len() > 0,
    ensures
        unique_keys(s.drop_last()),
{
    let t = s.drop_last();
    assert forall|i: int, j: int|
        0 <= i < t.len() && 0 <= j < t.len() && i != j implies !entry_matches(
            #[trigger] t[j],
            #[trigger] t[i].currency,
            t[i].who,
        ) by {
        assert(t[i] == s[i] && t[j] == s[j]);
    }
}

/// The balances that `s` records for the key of its `i`-th entry are those of that entry.
proof fn lemma_cell_at(s: Seq<LedgerEntry>, i: int)
    requires
        unique_keys(s),
        0 <= i < s.len(),
    ensures
        free_in(s, s[i].currency, s[i].who) == s[i].free,
        reserved_in(s, s[i].currency, s[i].who) == s[i].reserved,
    decreases s.len(),
{
    if i != s.len() - 1 {
        let last = s.len() - 1;
        assert(!entry_matches(s[last], s[i].currency, s[i].who));
        lemma_unique_drop_last(s);
        assert(s.drop_last()[i] == s[i]);
        lemma_cell_at(s.drop_last(), i);
    }
}

/// A key that no entry of `s` holds has no balance.
proof fn lemma_cell_absent(s: Seq<LedgerEntry>, c: CurrencyId, a: AccountId)
    requires
        forall|i: int| 0 <= i < s.len() ==> !entry_matches(#[trigger] s[i], c, a),
    ensures
        free_in(s, c, a) == 0,
        reserved_in(s, c, a) == 0,
    decreases s.len(),
{
    if s.len() > 0 {
        let t = s.drop_last();
        assert(!entry_matches(s[s.len() - 1], c, a));
        assert forall|i: int| 0 <= i < t.len() implies !entry_matches(#[trigger] t[i], c, a) by {
            assert(t[i] == s[i]);
        }
        lemma_cell_absent(t, c, a);
    }
}

/// Replacing entry `i` leaves the balances of every other key unchanged.
proof fn lemma_update_cell(s: Seq<LedgerEntry>, i: int, e: LedgerEntry, c: CurrencyId, a: AccountId)
    requires
        0 <= i < s.len(),
        !entry_matches(s[i], c, a),
        !entry_matches(e, c, a),
    ensures
        free_in(s.update(i, e), c, a) == free_in(s, c, a),
        reserved_in(s.update(i, e), c, a) == reserved_in(s, c, a),
    decreases s.len(),
{
    let t = s.update(i, e);
    if i == s.len() - 1 {
        assert(t.drop_last() =~= s.drop_last());
    } else {
        assert(t.last() == s.last());
        assert(t.drop_last() =~= s.drop_last().update(i, e));
        lemma_update_cell(s.drop_last(), i, e, c, a);
    }
}

/// Replacing entry `i` changes the issuance of `c` by the difference of the two weights.
proof fn lemma_update_total(s: Seq<LedgerEntry>, i: int, e: LedgerEntry, c: CurrencyId)
    requires
        0 <= i < s.len(),
    ensures
        total_in(s.update(i, e), c) + entry_weight(s[i], c) == total_in(s, c) + entry_weight(e, c),
    decreases s.len(),
{
    let t = s.update(i, e);
    if i == s.len() - 1 {
        assert(t.drop_last() =~= s.drop_last());
    } else {
        assert(t.last() == s.last());
        assert(t.drop_last() =~= s.drop_last().update(i, e));
        lemma_update_total(s.drop_last(), i, e, c);
    }
}

/// Appending `e` adds its weight to the issuance, and sets the balances of its key only.
proof fn lemma_push(s: Seq<LedgerEntry>, e: LedgerEntry)
    ensures
        forall|c: CurrencyId| #[trigger]
            total_in(s.push(e), c) == total_in(s, c) + entry_weight(e, c),
        forall|c: CurrencyId, a: AccountId| #[trigger]
            free_in(s.push(e), c, a) == if entry_matches(e, c, a) {
                e.free as nat
            } else {
                free_in(s, c, a)
            },
        forall|c: CurrencyId, a: AccountId| #[trigger]
            reserved_in(s.push(e), c, a) == if entry_matches(e, c, a) {
                e.reserved as nat
            } else {
                reserved_in(s, c, a)
            },
{
    assert(s.push(e).drop_last() =~= s);
    assert(s.push(e).last() == e);
}

/// One entry weighs no more than the whole issuance.
proof fn lemma_weight_le(s: Seq<LedgerEntry>, i: int, c: CurrencyId)
    requires
        0 <= i < s.len(),
    ensures
        entry_weight(s[i], c) <= total_in(s, c),
    decreases s.len(),
{
    if i != s.len() - 1 {
        assert(s.drop_last()[i] == s[i]);
        lemma_weight_le(s.drop_last(), i, c);
    }
}

/// Two distinct entries together weigh no more than the whole issuance.
proof fn lemma_two_weights(s: Seq<LedgerEntry>, i: int, j: int, c: CurrencyId)
    requires
        0 <= i < s.len(),
        0 <= j < s.len(),
        i != j,
    ensures
        entry_weight(s[i], c) + entry_weight(s[j], c) <= total_in(s, c),
    decreases s.len(),
{
    let last = s.len() - 1;
    if i == last {
        assert(s.drop_last()[j] == s[j]);
        lemma_weight_le(s.drop_last(), j, c);
    } else if j == last {
        assert(s.drop_last()[i] == s[i]);
        lemma_weight_le(s.drop_last(), i, c);
    } else {
        assert(s.drop_last()[i] == s[i]);
        assert(s.drop_last()[j] == s[j]);
        lemma_two_weights(s.drop_last(), i, j, c);
    }
}

/// The balances of one account in `c` are bounded by the issuance of `c`.
proof fn lemma_cell_le_total(s: Seq<LedgerEntry>, c: CurrencyId, a: AccountId)
    requires
        unique_keys(s),
    ensures
        free_in(s, c, a) + reserved_in(s, c, a) <= total_in(s, c),
{
    if exists|i: int| 0 <= i < s.len() && entry_matches(s[i], c, a) {
        let i = choose|i: int| 0 <= i < s.len() && entry_matches(s[i], c, a);
        lemma_cell_at(s, i);
        lemma_weight_le(s, i, c);
    } else {
        lemma_cell_absent(s, c, a);
    }
}

/// The balances of two accounts in `c` together are bounded by the issuance of `c`.
proof fn lemma_two_cells_le_total(s: Seq<LedgerEntry>, c: CurrencyId, a1: AccountId, a2: AccountId)
    requires
        unique_keys(s),
        a1 != a2,
    ensures
        free_in(s, c, a1) + reserved_in(s, c, a1) + free_in(s, c, a2) + reserved_in(s, c, a2)
            <= total_in(s, c),
{
    if exists|i: int| 0 <= i < s.len() && entry_matches(s[i], c, a1) {
        let i = choose|i: int| 0 <= i < s.len() && entry_matches(s[i], c, a1);
        lemma_cell_at(s, i);
        if exists|j: int| 0 <= j < s.len() && entry_matches(s[j], c, a2) {
            let j = choose|j: int| 0 <= j < s.len() && entry_matches(s[j], c, a2);
            lemma_cell_at(s, j);
            lemma_two_weights(s, i, j, c);
        } else {
            lemma_cell_absent(s, c, a2);
            lemma_weight_le(s, i, c);
        }
    } else {
        lemma_cell_absent(s, c, a1);
        lemma_cell_le_total(s, c, a2);
    }
}

/// A multi-currency ledger held in memory: one entry per account and currency,
/// with the issuance of every currency kept within the range of `Balance`.
#[derive(Clone, PartialEq, Eq, Debug)]
pub struct BalanceLedger {
    entries: Vec<LedgerEntry>,
}

impl BalanceLedger {
    /// The ledger's invariant.
    pub closed spec fn inv(&self) -> bool {
        &&& unique_keys(self.entries@)
        &&& forall|c: CurrencyId| #[trigger] total_in(self.entries@, c) <= u128::MAX
    }

    /// An empty ledger: every balance and every issuance is zero.
    pub fn new() -> (l: Self)
        ensures
            l.well_formed(),
            forall|c: CurrencyId, a: AccountId| #[trigger] l.free_of(c, a) == 0,
            forall|c: CurrencyId, a: AccountId| #[trigger] l.reserved_of(c, a) == 0,
            forall|c: CurrencyId| #[trigger] l.total_issuance_of(c) == 0,
    {
        BalanceLedger { entries: Vec::new() }
    }

    /// Index of the entry for `who` in `cid`, if there is one.
    fn find(&self, cid: CurrencyId, who: AccountId) -> (r: Option<usize>)
        ensures
            match r {
                Some(i) => i < self.entries@.len() && entry_matches(self.entries@[i as int], cid, who),
                None => forall|i: int|
                    0 <= i < self.entries@.len() ==> !entry_matches(
                        #[trigger] self.entries@[i],
                        cid,
                        who,
                    ),
            },
    {
        let n = self.entries.len();
        let mut k: usize = 0;
        while k < n
            invariant
                n == self.entries@.len(),
                k <= n,
                forall|i: int| 0 <= i < k ==> !entry_matches(#[trigger] self.entries@[i], cid, who),
            decreases n - k,
        {
            let e = &self.entries[k];
            if e.currency == cid && e.who == who {
                return Some(k);
            }
            k = k + 1;
        }
        None
    }

    /// Sets the balances of `who` in `cid`, leaving every other balance as it was.
    fn set_cell(&mut self, cid: CurrencyId, who: AccountId, free: Balance, reserved: Balance)
        requires
            unique_keys(old(self).entries@),
        ensures
            unique_keys(final(self).entries@),
            forall|c: CurrencyId, a: AccountId| #[trigger]
                free_in(final(self).entries@, c, a) == if c == cid && a == who {
                    free as nat
                } else {
                    free_in(old(self).entries@, c, a)
                },
            forall|c: CurrencyId, a: AccountId| #[trigger]
                reserved_in(final(self).entries@, c, a) == if c == cid && a == who {
                    reserved as nat
                } else {
                    reserved_in(old(self).entries@, c, a)
                },
            forall|c: CurrencyId|
                c != cid ==> #[trigger] total_in(final(self).entries@, c) == total_in(
                    old(self).entries@,
                    c,
                ),
            total_in(final(self).entries@, cid) + free_in(old(self).entries@, cid, who)
                + reserved_in(old(self).entries@, cid, who) == total_in(old(self).entries@, cid)
                + free + reserved,
    {
        let ghost s = self.entries@;
        let e = LedgerEntry { who, currency: cid, free, reserved };
        match self.find(cid, who) {
            Some(i) => {
                self.entries.set(i, e);
                proof {
                    let t = s.update(i as int, e);
                    assert(t == self.entries@);
                    lemma_cell_at(s, i as int);
                    assert(unique_keys(t)) by {
                        assert forall|x: int, y: int|
                            0 <= x < t.len() && 0 <= y < t.len() && x != y implies !entry_matches(
                                #[trigger] t[y],
                                #[trigger] t[x].currency,
                                t[x].who,
                            ) by {
                            assert(entry_matches(s[x], t[x].currency, t[x].who));
                            assert(s[y].currency == t[y].currency && s[y].who == t[y].who);
                        }
                    }
                    lemma_cell_at(t, i as int);
                    assert forall|c: CurrencyId, a: AccountId|
                        !(c == cid && a == who) implies #[trigger] free_in(t, c, a) == free_in(s, c, a)
                        && reserved_in(t, c, a) == reserved_in(s, c, a) by {
                        lemma_update_cell(s, i as int, e, c, a);
                    }
                    assert forall|c: CurrencyId| #[trigger]
                        total_in(t, c) + entry_weight(s[i as int], c) == total_in(s, c)
                            + entry_weight(e, c) by {
                        lemma_update_total(s, i as int, e, c);
                    }
                    assert forall|c: CurrencyId, a: AccountId| #[trigger]
                        reserved_in(t, c, a) == if c == cid && a == who {
                            reserved as nat
                        } else {
                            reserved_in(s, c, a)
                        } by {
                        if !(c == cid && a == who) {
                            lemma_update_cell(s, i as int, e, c, a);
                        }
                    }
                }
            },
            None => {
                self.entries.push(e);
                proof {
                    let t = s.push(e);
                    assert(t == self.entries@);
                    lemma_cell_absent(s, cid, who);
                    lemma_push(s, e);
                    assert(unique_keys(t)) by {
                        assert forall|x: int, y: int|
                            0 <= x < t.len() && 0 <= y < t.len() && x != y implies !entry_matches(
                                #[trigger] t[y],
                                #[trigger] t[x].currency,
                                t[x].who,
                            ) by {
                            if x < s.len() && y < s.len() {
                                assert(t[x] == s[x] && t[y] == s[y]);
                            } else if x < s.len() {
                                assert(t[x] == s[x]);
                            } else {
                                assert(t[y] == s[y]);
                            }
                        }
                    }
                }
            },
        }
    }

    /// The reserved balance of `who` in currency `cid`.
    pub fn reserved_balance(&self, cid: CurrencyId, who: &AccountId) -> (bal: Balance)
        requires
            self.well_formed(),
        ensures
            bal == self.reserved_of(cid, *who),
    {
        match self.find(cid, *who) {
            Some(i) => {
                proof {
                    lemma_cell_at(self.entries@, i as int);
                }
                self.entries[i].reserved
            },
            None => {
                proof {
                    lemma_cell_absent(self.entries@, cid, *who);
                }
                0
            },
        }
    }

    /// The sum of all free and reserved balances in currency `cid`.
    pub fn total_issuance(&self, cid: CurrencyId) -> (total: Balance)
        requires
            self.well_formed(),
        ensures
            total == self.total_issuance_of(cid),
    {
        let n = self.entries.len();
        let mut k: usize = 0;
        let mut sum: Balance = 0;
        proof {
            assert(self.entries@.take(0) =~= Seq::<LedgerEntry>::empty());
        }
        while k < n
            invariant
                n == self.entries@.len(),
                k <= n,
                sum == total_in(self.entries@.take(k as int), cid),
                total_in(self.entries@, cid) <= u128::MAX,
            decreases n - k,
        {
            let ghost s = self.entries@;
            proof {
                assert(s.take(k + 1).drop_last() =~= s.take(k as int));
                assert(s.take(k + 1).last() == s[k as int]);
                assert(s.take(k + 1) =~= s.take(k as int).push(s[k as int]));
                lemma_weight_le(s.take(k + 1), k as int, cid);
                lemma_prefix_total_le(s, k + 1, cid);
            }
            let e = &self.entries[k];
            if e.currency == cid {
                sum = sum + e.free + e.reserved;
            }
            k = k + 1;
        }
        proof {
            assert(self.entries@.take(n as int) =~= self.entries@);
        }
        sum
    }

    /// Adds `amount` of currency `cid` to the free balance of `who`, raising the
    /// issuance of `cid`. Refused when the issuance would leave the range of `Balance`;
    /// then nothing changes.
    pub fn deposit(&mut self, cid: CurrencyId, who: &AccountId, amount: Balance) -> (r: Result<(), ()>)
        requires
            old(self).well_formed(),
        ensures
            final(self).well_formed(),
            r is Ok <==> old(self).total_issuance_of(cid) + amount <= u128::MAX,
            r is Ok ==> forall|c: CurrencyId, a: AccountId| #[trigger]
                final(self).free_of(c, a) == credit(old(self).free_of(c, a), c, a, cid, *who, amount as nat),
            forall|c: CurrencyId, a: AccountId| #[trigger]
                final(self).reserved_of(c, a) == old(self).reserved_of(c, a),
            r is Ok ==> forall|c: CurrencyId| #[trigger]
                final(self).total_issuance_of(c) == if c == cid {
                    old(self).total_issuance_of(c) + amount
                } else {
                    old(self).total_issuance_of(c) as int
                },
            r is Err ==> *final(self) == *old(self),
    {
        let total = self.total_issuance(cid);
        if amount > u128::MAX - total {
            return Err(());
        }
        let ghost s = self.entries@;
        proof {
            lemma_cell_le_total(s, cid, *who);
        }
        let free = self.free_balance(cid, who);
        let reserved = self.reserved_balance(cid, who);
        self.set_cell(cid, *who, free + amount, reserved);
        Ok(())
    }
}

/// Issuance of `c` over the first `k` entries is bounded by that over all of them.
proof fn lemma_prefix_total_le(s: Seq<LedgerEntry>, k: int, c: CurrencyId)
    requires
        0 <= k <= s.len(),
    ensures
        total_in(s.take(k), c) <= total_in(s, c),
    decreases s.len() - k,
{
    if k < s.len() {
        assert(s.take(k + 1).drop_last() =~= s.take(k));
        lemma_prefix_total_le(s, k + 1, c);
    } else {
        assert(s.take(k) =~= s);
    }
}

impl MultiCurrency for BalanceLedger {
    closed spec fn well_formed(&self) -> bool {
        self.inv()
    }

    closed spec fn free_of(&self, cid: CurrencyId, who: AccountId) -> nat {
        free_in(self.entries@, cid, who)
    }

    closed spec fn reserved_of(&self, cid: CurrencyId, who: AccountId) -> nat {
        reserved_in(self.entries@, cid, who)
    }

    closed spec fn total_issuance_of(&self, cid: CurrencyId) -> nat {
        total_in(self.entries@, cid)
    }

    fn free_balance(&self, cid: CurrencyId, user: &AccountId) -> (bal: Balance) {
        match self.find(cid, *user) {
            Some(i) => {
                proof {
                    lemma_cell_at(self.entries@, i as int);
                }
                self.entries[i].free
            },
            None => {
                proof {
                    lemma_cell_absent(self.entries@, cid, *user);
                }
                0
            },
        }
    }

    fn transfer(&mut self, cid: CurrencyId, from: &AccountId, to: &AccountId, bal: Balance) -> (r:
        Result<(), ()>) {
        let from_free = self.free_balance(cid, from);
        if from_free < bal {
            return Err(());
        }
        if bal == 0 || *from == *to {
            return Ok(());
        }
        let ghost s = self.entries@;
        proof {
            lemma_two_cells_le_total(s, cid, *from, *to);
        }
        let from_reserved = self.reserved_balance(cid, from);
        let to_free = self.free_balance(cid, to);
        let to_reserved = self.reserved_balance(cid, to);
        self.set_cell(cid, *from, from_free - bal, from_reserved);
        self.set_cell(cid, *to, to_free + bal, to_reserved);
        Ok(())
    }
}

impl MultiReservableCurrency for BalanceLedger {
    fn reserve(&mut self, cid: CurrencyId, user: &AccountId, bal: Balance) -> (r: Result<(), ()>) {
        let free = self.free_balance(cid, user);
        if free < bal {
            return Err(());
        }
        proof {
            lemma_cell_le_total(self.entries@, cid, *user);
        }
        let reserved = self.reserved_balance(cid, user);
        self.set_cell(cid, *user, free - bal, reserved + bal);
        Ok(())
    }

    fn repatriate_reserved(
        &mut self,
        cid: CurrencyId,
        from: &AccountId,
        to: &AccountId,
        bal: Balance,
        status: BalanceStatus,
    ) -> (r: Result<(), ()>) {
        let from_reserved = self.reserved_balance(cid, from);
        if from_reserved < bal {
            return Err(());
        }
        let from_free = self.free_balance(cid, from);
        if *from == *to {
            match status {
                BalanceStatus::Free => {
                    proof {
                        lemma_cell_le_total(self.entries@, cid, *from);
                    }
                    self.set_cell(cid, *from, from_free + bal, from_reserved - bal);
                },
                BalanceStatus::Reserved => {},
            }
            return Ok(());
        }
        proof {
            lemma_two_cells_le_total(self.entries@, cid, *from, *to);
        }
        let to_free = self.free_balance(cid, to);
        let to_reserved = self.reserved_balance(cid, to);
        self.set_cell(cid, *from, from_free, from_reserved - bal);
        match status {
            BalanceStatus::Free => {
                self.set_cell(cid, *to, to_free + bal, to_reserved);
            },
            BalanceStatus::Reserved => {
                self.set_cell(cid, *to, to_free, to_reserved + bal);
            },
        }
        Ok(())
    }

    fn unreserve(&mut self, cid: CurrencyId, user: &AccountId, bal: Balance) {
        let free = self.free_balance(cid, user);
        let reserved = self.reserved_balance(cid, user);
        let actual = if bal <= reserved {
            bal
        } else {
            reserved
        };
        proof {
            lemma_cell_le_total(self.entries@, cid, *user);
        }
        self.set_cell(cid, *user, free + actual, reserved - actual);
    }
}

} // verus!
