# zcash_transact

Paying an address out of a shielded wallet: choosing the notes that fund a payment,
assembling the transaction, and locking the notes it spends.

A payment runs through a fixed series of states (`src/transact.rs`). Each state says what
has to be looked up or carried out, and takes the answer to the next state:

1. `create_to_address` starts a payment; the wallet says whether it holds the account with
   the viewing key of the spending key.
2. `account_found` and `blocks_scanned` take the answers; the target and anchor heights
   follow from the scanned blocks.
3. `notes_found` chooses the oldest spendable notes that cover the value and the fee, pairs
   them with their witnesses at the anchor, and recovers them from their rows.
4. `add_spends`, `add_output` and `build` assemble the transaction.
5. `opening` and `closing` list the changes to the wallet's database.

Until the last step nothing is written.

## Layout

- `src/` is the library, verified with Verus. The calls into `zcash_primitives`,
  `sapling-crypto`, `incrementalmerkletree`, `jubjub` and `zcash_client_backend` stand behind
  wrappers in `amount.rs`, `keys.rs`, `witness.rs` and `builder.rs`, whose contracts are
  taken on trust.
- `src/laws.rs` states what holds of payments as a whole: the oldest notes go first, the
  transaction pays the recipient and returns the rest to the account, no note is spent twice,
  a transaction is stored atomically.
- `tests/` runs the library against SQLite and the real outside crates.
- `app/` keeps the wallet's data in an SQLite database: it reads the rows, asks the clock
  and executes the statements.
