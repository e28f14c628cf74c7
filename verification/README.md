# blockchain

A small Bitcoin-style blockchain written in Verus: blocks sealed by proof of
work, Merkle roots over transactions, UTXO bookkeeping, secp256k1 signatures,
and wallets with Base58Check addresses.

- `src/` is the verified library. `crypto.rs` holds every call into an
  outside crate (hashing, Base58, hex, big integers, ECDSA, the clock), each
  behind a small trusted function whose contract says what the crate
  computes. `domain/` holds the chain's own rules, proved against those
  contracts: proof of work, the Merkle tree, block rewards, transactions and
  their signatures, the unspent-output index, the chain cursor, wallets and
  the mining node's decisions. `domain/blockchain/rescan.rs` proves that
  bringing the index of unspent outputs up to date with a new block agrees
  with scanning the longer chain again, for a block that is not the first of
  its chain, whose transactions have distinct ids new to the chain, each have
  outputs, and spend nothing made in the same block.
- `app/` is the program around it: the jammdb store, the wallet file, the
  interactive command loop and the node's network loop.
- `tests/` runs the library on concrete values.
