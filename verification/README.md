# tinywasm-component-abi

A verified, bounded table of host resources for WIT-shaped imports of core
WebAssembly modules. The host inserts values and hands the guest `i32` words;
the table validates every word that comes back.

- `src/resources/model.rs` is the mathematical model of a table: its slots, the
  slots to reuse, and the map from live handle words to resources.
- `src/resources/table.rs` is the table. Every operation says what it returns
  and how the model changes.
- `src/resources/laws.rs` proves what users rely on across operations: a value
  is read back until an operation on its handle succeeds, no handle is issued
  twice, a stale handle never names a resource again, a vacated slot waits until
  it is reused, an exhausted slot is retired, the length counts insertions less
  removals.
- `src/resources/layout.rs` is the arithmetic of the packed handle word.
- `src/resources/storage.rs` holds vectors that grow only into storage reserved
  beforehand, so that removal never allocates.
- `src/resources/error.rs` holds the failures and their conversion to
  `tinywasm::Error`.
- `app/` adds a `Display` form of the failures.
