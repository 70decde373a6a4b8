//! The closed set of error kinds that fallible operations of this crate
//! return. Every variant carries an owned human-readable detail; no variant
//! borrows from caller data.

use vstd::prelude::*;

verus! {

/// One error kind per failure class: I/O, encoding (base58 / hex / binary
/// serialization), cryptography (signing / verification), script execution
/// (stack underflow, hash mismatch, bad signature), transaction inputs not
/// covering outputs, a reference to an unknown UTXO, a broken block link,
/// too few UTXOs for coin selection, malformed textual input, and shared
/// state access.
#[derive(Debug)]
pub enum RitCoinErrror {
    IoError(String),
    EncodingError(String),
    CryptoError(String),
    ScriptError(String),
    InsufficientInputFunds(String),
    UnknownUtxo(String),
    ChainLinkMismatch(String),
    InsufficientFunds(String),
    InvalidInput(String),
    StateError(String),
}

impl RitCoinErrror {
    /// The detail text carried by the error.
    pub fn detail(&self) -> (r: &String)
    {
        match self {
            RitCoinErrror::IoError(s) => s,
            RitCoinErrror::EncodingError(s) => s,
            RitCoinErrror::CryptoError(s) => s,
            RitCoinErrror::ScriptError(s) => s,
            RitCoinErrror::InsufficientInputFunds(s) => s,
            RitCoinErrror::UnknownUtxo(s) => s,
            RitCoinErrror::ChainLinkMismatch(s) => s,
            RitCoinErrror::InsufficientFunds(s) => s,
            RitCoinErrror::InvalidInput(s) => s,
            RitCoinErrror::StateError(s) => s,
        }
    }
}

} // verus!
