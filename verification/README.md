# identity

The logic of the Superciety identity smart contract, written in Verus: trust
scores earned by burning tokens or granted by managers, avatars bought with the
core token, and an earn module whose two staking pools share out paid-in rewards
in proportion to each account's stake.

## Layout

- `src/` — the verified library. Every endpoint is a method that takes the
  contract state and what the chain says of the call (caller, owner, payment,
  block time, balances) and either refuses the call with a `ContractError`,
  leaving the state unchanged, or returns the new state together with the list
  of effects (burns, transfers, calls of the stake contract) to carry out.
  - `amount.rs` — arbitrary-size amounts, computed by the MultiversX
    framework's `BigUint`/`BigInt`.
  - `types.rs` — addresses, token identifiers, payments, errors and effects.
  - `address_map.rs` — a map keyed by address, in insertion order.
  - `config.rs`, `trust.rs`, `identity.rs`, `earn.rs`, `stake.rs` — the
    contract's modules, with their laws as public proof functions.
- `tests/` — tests of the library on concrete values.
- `app/` — the contract on the MultiversX framework: storage, call values and
  the effects, around the library.
