# pallet_exchange

An order-book exchange between currencies, verified with Verus.

A user submits an order offering an amount of one currency for an amount of
another; the offered amount is reserved in the user's account. Another user
takes the order (the two amounts change hands) or the owner cancels it (the
reserve is released). Refused calls change nothing.

- `src/currency.rs` — the `MultiCurrency` / `MultiReservableCurrency` interface
  that the exchange trades through, with its effects stated over free balances,
  reserved balances and total issuance.
- `src/ledger.rs` — `BalanceLedger`, an in-memory implementation of that
  interface whose issuance per currency stays within `u128`.
- `src/exchange.rs` — the exchange (`Pallet`), its orders, events and errors,
  and the invariant that every alive order is backed by its owner's reserve.
- `src/dispatch.rs` — calls from an origin: only a signed account may call.
- `src/laws.rs` — properties that span several calls.
- `src/arithmetic.rs` — the `SimpleArithmetic` bound bundle.
- `app/lib.rs` — SCALE encodings of orders, statuses, events and errors.
