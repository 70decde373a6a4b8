//! Acceptance of submitted transactions into the pending pool, and parsing
//! of the pool's on-disk textual form (newline-delimited debug-formatted
//! byte sequences). The file itself is the caller's concern; this module
//! holds the validation and parsing logic.

use vstd::prelude::*;
use vstd::string::StringSliceAdditionalSpecFns;
use crate::block::utxos_for_pubkeys;
use crate::errors::RitCoinErrror;
use crate::serializer::{dec_tx, deserialize};
use crate::transaction::{check_tx, fold_input_pubkeys, TxCheck};
use crate::utxo_set::{Utxo, UtxoSet};
use crate::wallet::pk_hash_from_public_key;

verus! {

/// Validates a submitted serialized transaction against the current UTXO
/// set: it must decode, and `Transaction::validate` must pass against the
/// UTXOs reachable from its input public keys. Succeeds exactly then; the
/// caller appends the accepted bytes to the pool.
pub fn accept_serialized_transaction(serialized_transaction: &[u8], utxo_set: &UtxoSet) -> (r:
    Result<(), RitCoinErrror>)
    ensures
        r is Ok <==> (dec_tx(serialized_transaction@) matches Some(t) && check_tx(
            t,
            utxos_for_pubkeys(utxo_set@, fold_input_pubkeys(Seq::empty(), t.tx_in)),
        ) == TxCheck::Valid),
        r matches Err(e) ==> (e is EncodingError || e is UnknownUtxo || e is ScriptError
            || e is CryptoError || e is InsufficientInputFunds),
{
    let transaction = match deserialize(serialized_transaction) {
        Ok(t) => t,
        Err(e) => {
            return Err(e);
        },
    };
    let ghost tv = transaction@;
    let pub_keys = transaction.get_pub_keys_from_inputs();
    let ghost pks = fold_input_pubkeys(Seq::empty(), tv.tx_in);
    assert(pub_keys@.map_values(|x: Vec<u8>| x@) == pks);
    let mut utxos: Vec<Utxo> = Vec::new();
    let np = pub_keys.len();
    assert(pks.take(0) =~= Seq::<Seq<u8>>::empty());
    assert(utxos@.map_values(|u: Utxo| u@) =~= utxos_for_pubkeys(utxo_set@, pks.take(0)));
    for k in 0..np
        invariant
            np == pub_keys@.len(),
            pks == pub_keys@.map_values(|x: Vec<u8>| x@),
            pks.len() == np,
            utxos@.map_values(|u: Utxo| u@) == utxos_for_pubkeys(utxo_set@, pks.take(k as int)),
    {
        assert(pub_keys@[k as int]@ == pks[k as int]);
        let pk_hash = pk_hash_from_public_key(pub_keys[k].as_slice());
        let ghost pre = utxos@.map_values(|u: Utxo| u@);
        let mut found = utxo_set.by_pkhash(pk_hash.as_slice());
        let ghost fv = found@.map_values(|u: Utxo| u@);
        utxos.append(&mut found);
        proof {
            assert(utxos@.map_values(|u: Utxo| u@) =~= pre + fv);
            assert(pks.take(k + 1).drop_last() =~= pks.take(k as int));
            assert(pks.take(k + 1).last() == pks[k as int]);
        }
    }
    assert(pks.take(np as int) =~= pks);
    transaction.validate(&utxos)
}

/// Whether a UTF-8 byte is an ASCII decimal digit.
pub open spec fn is_ascii_digit(b: u8) -> bool {
    48 <= b <= 57
}

/// Ends a digit run: its value joins the output when it fits in a byte, and
/// is discarded otherwise.
pub open spec fn flush_run(acc: Seq<u8>, cur: Option<nat>) -> Seq<u8> {
    match cur {
        Option::None => acc,
        Option::Some(v) => if v <= 255 {
            acc.push(v as u8)
        } else {
            acc
        },
    }
}

/// Scans the textual form from position `i`: maximal decimal digit runs
/// become bytes, every other character separates runs.
pub open spec fn parse_byte_runs(s: Seq<u8>, i: int, cur: Option<nat>, acc: Seq<u8>) -> Seq<u8>
    decreases s.len() - i,
{
    if i < 0 || i >= s.len() {
        flush_run(acc, cur)
    } else if is_ascii_digit(s[i]) {
        let d = (s[i] - 48) as nat;
        let v = match cur {
            Option::None => d,
            Option::Some(v0) => v0 * 10 + d,
        };
        parse_byte_runs(s, i + 1, Some(v), acc)
    } else {
        parse_byte_runs(s, i + 1, Option::None, flush_run(acc, cur))
    }
}

/// The byte values named by a debug-formatted byte sequence such as the
/// pending pool's lines: each decimal run that fits in a byte, in order.
pub open spec fn debug_bytes_of(s: Seq<u8>) -> Seq<u8> {
    parse_byte_runs(s, 0, Option::None, Seq::empty())
}

/// Parses a pool line back into bytes: decimal runs separated by any other
/// characters, runs above 255 discarded.
pub fn tx_str_to_vec(tx: &str) -> (r: Vec<u8>)
    ensures
        r@ == debug_bytes_of(tx.spec_bytes()),
{
    let bytes = tx.as_bytes();
    let ghost sb = tx.spec_bytes();
    let n = bytes.len();
    let mut acc: Vec<u8> = Vec::new();
    let mut cur: Option<u32> = Option::None;
    let ghost mut gcur: Option<nat> = Option::None;
    for i in 0..n
        invariant
            n == sb.len(),
            bytes@ == sb,
            match gcur {
                Option::None => cur is None,
                Option::Some(gv) => {
                    &&& cur matches Some(cv)
                    &&& (gv <= 255 ==> cv == gv)
                    &&& (gv > 255 <==> cv > 255)
                },
            },
            debug_bytes_of(sb) == parse_byte_runs(sb, i as int, gcur, acc@),
    {
        let b = bytes[i];
        if 48 <= b && b <= 57 {
            let d = (b - 48) as u32;
            let ghost gd = (sb[i as int] - 48) as nat;
            match cur {
                Option::None => {
                    cur = Option::Some(d);
                    proof {
                        gcur = Option::Some(gd);
                    }
                },
                Option::Some(cv) => {
                    let ghost gv = gcur->Some_0;
                    if cv <= 255 {
                        cur = Option::Some(cv * 10 + d);
                    }
                    proof {
                        gcur = Option::Some(gv * 10 + gd);
                        if gv > 255 {
                            assert(gv * 10 + gd > 255);
                        }
                    }
                },
            }
        } else {
            let ghost pre_acc = acc@;
            match cur {
                Option::None => {},
                Option::Some(cv) => {
                    if cv <= 255 {
                        acc.push(cv as u8);
                    }
                },
            }
            cur = Option::None;
            proof {
                assert(acc@ =~= flush_run(pre_acc, gcur));
                gcur = Option::None;
            }
        }
    }
    assert(debug_bytes_of(sb) == parse_byte_runs(sb, n as int, gcur, acc@));
    match cur {
        Option::None => {},
        Option::Some(cv) => {
            if cv <= 255 {
                acc.push(cv as u8);
            }
        },
    }
    acc
}

} // verus!
