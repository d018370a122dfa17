# near-store

A column store for a blockchain node, verified with Verus.

A `Store` reads the columns of a database. A `StoreUpdate` collects changes and
commits all of them or none. Some columns keep a reference count with each
value: changes of the count add up, and a value is there as long as its count is
positive. On top of the store lie the records of the state: accounts, access
keys, contract code and data, receipts.

- `src/` is the library. Each function says in its contract what it returns or
  changes; `src/laws.rs` and `src/state_laws.rs` say what holds of several
  functions together.
- `tests/` runs the library on concrete values.
- `app/` is ordinary Rust around it: files, temporary stores, and the actor that
  records network messages.

What is believed without proof stands in the functions marked `external_body`:
the calls into `borsh`, `byteorder`, `bs58` and `sha2`.
