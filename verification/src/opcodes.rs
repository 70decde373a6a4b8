//! The script opcodes understood by the stack machine. Any other byte in a
//! locking script is embedded data (the pubkey-hash operand of the P2PKH
//! template).

use vstd::prelude::*;

verus! {

pub const OP_DUP: u8 = 0x76;

pub const OP_HASH160: u8 = 0xa9;

pub const OP_EQUALVERIFY: u8 = 0x88;

pub const OP_CHECKSIG: u8 = 0xac;

/// Whether `b` is one of the recognized opcodes; every other byte is
/// accumulated as embedded data.
pub open spec fn is_opcode(b: u8) -> bool {
    b == OP_DUP || b == OP_HASH160 || b == OP_EQUALVERIFY || b == OP_CHECKSIG
}

} // verus!
