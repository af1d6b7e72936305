# price_oracle

A price oracle, verified with Verus. Registered sources submit prices for
registered assets; once enough sources have a price for an asset, the
oracle's aggregate for it is the median of their prices, and every change of
the aggregate's price or timestamp is recorded in a per-ledger history. The oracle can also
compare its price of an asset with the prices of reference oracles.

- `src/` is the verified library:
  - `oracle.rs`: the oracle's state (`PriceOracleContract`), its abstract
    model (`OracleModel`), and every operation, each specified as a
    transition of the model;
  - `median.rs`: sorting and the median;
  - `cross_reference.rs`: reference oracles, the deviation in basis points,
    and the comparison, as steps that ask for one reference price at a time;
  - `keyed_map.rs`, `address.rs`: the map and the address the state is made
    of;
  - `mock.rs`: a reference oracle that answers set prices;
  - `laws.rs`: what holds across operations, proved over the model.
- `app/` is the Soroban contract around the library: storage, authorization,
  ledger information, cross-contract calls and events.
- `tests/` runs the library on concrete values.

Notes on the design:

- Names and the description are kept as bytes, as the ledger's strings are.
- The library holds its own collections (`Vec`, `KeyedMap`) and addresses
  as strkey text. Soroban's `Vec`, `Map` and `Address` are handles into the
  contract's host environment and need an `Env`, which the library does not
  hold; `app/` converts between the two at the edge.
- `app/` keeps the whole oracle, its price history included, in one
  persistent entry whose life is extended on every save. The history is
  never pruned, so the entry grows with every change of an aggregate.
- Soroban limits contract function names to 32 characters, so the contract
  exposes the two threshold functions as `set_cross_ref_threshold` and
  `get_cross_ref_threshold`; the library keeps the longer names.
