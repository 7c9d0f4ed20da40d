# coop_finance

The rules of a savings cooperative's five Soroban contracts, verified with Verus.

- `src/` is the verified library. Each contract (`treasury`, `voting`, `loan`,
  `dividend`, `governance`) is a struct holding what the contract keeps in
  storage, as plain values (addresses as strkey text). Every operation is a
  method whose contract equates the new state and the result with a spec
  function over the state's model, and the laws of each contract (well-formed
  states are kept, ids are consecutive, a member votes once, a loan is paid
  out once, a distribution pays out at most the profit, the member count
  is the number of distinct members added, ...) are proof functions beside
  it. Operations that move tokens return the transfers to carry out.
  Loan requests, proposals and votes are for members only: they take the
  treasury's member list and refuse anyone not on it.
- `app/` holds the Soroban contracts themselves: each entry point checks
  authorization, reads storage into the library's state (and, for the
  member-only operations, the member list from the treasury contract),
  calls the library,
  writes back, performs the token transfers, publishes events and extends
  storage lifetimes.
- `tests/` runs the library on concrete scenarios.
