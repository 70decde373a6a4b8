//! A minimal proof-of-work cryptocurrency: UTXO-based transactions with a
//! stack-based P2PKH script validator, Merkle-committed blocks, a
//! longest-valid-chain consensus rule, and deterministic coin selection.

pub mod block;
pub mod blockchain;
pub mod encoding;
pub mod errors;
pub mod hash;
pub mod merkle;
pub mod opcodes;
pub mod pending_pool;
pub mod script;
pub mod serializer;
pub mod transaction;
pub mod utxo_set;
pub mod wallet;
pub mod wallet_cli;
