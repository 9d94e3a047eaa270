# pallets

Verified state machines of three cooperating chain pallets, written in Verus:

- `account`: registration of accounts with a role (system manager, voter,
  user), a status, a voter-request flag, metadata and a score; genesis
  creates the system managers.
- `fund_raising`: funds created by registered accounts, voted for by
  accounts with enough score during a voting period, open for contributions
  once they have enough votes and up to their goal, then dispensed to the
  beneficiary and the voters, withdrawn from, or, after a retirement period,
  dissolved. Each fund keeps a child trie with one record per account,
  its vote mark or its contribution; all money sits in the pallet's pot account, and the laws at
  the end of the module show that the pot keeps covering the live funds.
- `rating`: after a fund has ended, its creator and a contributor rate each
  other, moving the rated account's score.
- `currency`: the balances the pallets move (withdraw, resolve, transfer).
- `dispatch`: the error every call returns.

Each call takes the signed caller and the current block as plain values and
returns its event or its error. Contracts state, for every call, the error
it returns on each input and the exact storage and balances after it; a call
that fails changes nothing.

`app/` holds the SCALE-codec, type-info and serde forms of the stored types,
with conversions to and from the library's types.
