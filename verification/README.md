# rollup_core

The verified core of an SVM rollup: it nets the transfers of many
transactions into one transfer per pair of accounts, derives and builds the
instructions of the delegation program, decides when the sequencer locks
accounts, stores a validated transaction and settles a batch, and keeps the
rollup's store of accounts and processed transactions.

- `src/` is the library, checked by Verus. `bundler`, `delegation`,
  `delegation_service`, `sequencer`, `rollupdb`, `loader`, `frontend` and
  `client` hold the rollup's logic; `types`, `bytes`, `codec` and `keymap`
  its data; `sdk` holds the few trusted calls into the Solana SDK, bincode,
  borsh and sha2, each with the contract its source supports.
- `tests/` runs the library against the real Solana SDK.
- `app/` is the node around it: the HTTP server, the channels and loops of
  the sequencer and the store, RPC access and the Solana runtime.

## Maps

The store, the loader and the delegation service keep their accounts,
transactions and signers in `keymap::KeyMap`, a list of entries with no key
twice, and the bundler keeps its net balances in a list of ordered pairs.
vstd's specification of `std::collections::HashMap` does not carry over to
32-byte array keys: with `HashMap<[u8; 32], u64>`, Verus cannot prove that a
key just inserted maps to its value, nor that the map then holds one entry.
The bundler's list also fixes the order of the settlement transfers, which
a hash map would leave to its hasher.

Processed transactions are stored under the Solana hash of their message.
