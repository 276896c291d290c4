# rentars

Verified logic of a rental marketplace on Stellar/Soroban.

- `src/rental.rs` — property listings, bookings and the booking state
  machine (Pending → Confirmed → Completed, with cancellation from Pending
  or Confirmed). The state is modelled as the sequence of properties and
  bookings in id order; its well-formedness (no property held by two live
  bookings, availability matches the bookings) is kept by every operation.
- `src/review.rs` — reviews tied to bookings, one per author and booking,
  and the reputation score (floor of the average rating).
- `src/bytes.rs` — byte-string equality.
- `app/` — the Soroban contracts: ledger storage, `require_auth`, the
  ledger clock and the on-chain types; they call the library for every
  decision.
