//! The wallet's spend path and its per-session reservation list: building,
//! signing, and validating a spend from the sender's spendable UTXOs, and
//! releasing reserved (prepared, not yet broadcast) transactions.

use vstd::prelude::*;
use vstd::string::StringSliceAdditionalSpecFns;
use crate::errors::RitCoinErrror;
use crate::pending_pool::{debug_bytes_of, tx_str_to_vec};
use crate::serializer::{enc_tx, serialize};
use crate::transaction::{
    check_tx, lemma_inputs_all_valid, lemma_inputs_amount_matches, lemma_p2pkh_unlocks,
    outputs_amount_sum, sig_script_bytes, substituted_tx, tx_sighash_of, Input, InputV, OutPointV,
    Output, OutputV, Transaction, TransactionV, TxCheck,
};
use crate::utxo_set::{
    find_utxo, lemma_find_utxo_distinct, lemma_selection_covers, lemma_selection_sum_le,
    select_utxos, spendable_utxos, sum_amounts, UtxoSet, UtxoV,
};
use crate::wallet::{pk_hash_of, pubkey_uncompressed_of, seckey_wf, sig_der_of};

verus! {

/// The outputs of a spend: the payment to the receiver and, when the spent
/// total leaves change, its return to the sender.
pub open spec fn spend_outputs(amount: u64, utxo_total: u64, sender: Seq<u8>, receiver: Seq<u8>)
    -> Seq<OutputV> {
    let pay = OutputV {
        amount,
        script_length: (receiver.len() + 4) as u16,
        script_pubkey: crate::script::p2pkh_lock_script(receiver),
    };
    if utxo_total == amount {
        seq![pay]
    } else {
        seq![
            pay,
            OutputV {
                amount: (utxo_total - amount) as u64,
                script_length: (sender.len() + 4) as u16,
                script_pubkey: crate::script::p2pkh_lock_script(sender),
            },
        ]
    }
}

/// The unsigned spend over a selection: each input carries a copy of the
/// spent UTXO's locking script, as at signing time.
pub open spec fn unsigned_spend_tx(sel: Seq<UtxoV>, outs: Seq<OutputV>) -> TransactionV {
    TransactionV {
        version: crate::transaction::VERSION,
        tx_in_count: sel.len() as u16,
        tx_in: Seq::new(
            sel.len(),
            |j: int|
                InputV {
                    previous_output: OutPointV { tx_id: sel[j].tx_id, index: sel[j].index },
                    script_bytes: sel[j].output.script_pubkey.len() as u16,
                    sig_script: sel[j].output.script_pubkey,
                    sequence: u32::MAX,
                },
        ),
        tx_out_count: outs.len() as u16,
        tx_out: outs,
        lock_time: 0,
    }
}

/// The signed spend: each input's unlocking script replaced by the
/// signature-and-pubkey encoding over that input's sighash of the unsigned
/// spend.
pub open spec fn signed_spend_tx(sel: Seq<UtxoV>, outs: Seq<OutputV>, key: Seq<u8>)
    -> TransactionV {
    let base = unsigned_spend_tx(sel, outs);
    TransactionV {
        tx_in: Seq::new(
            sel.len(),
            |j: int|
                {
                    let script = sig_script_bytes(
                        sig_der_of(tx_sighash_of(base, j), key),
                        pubkey_uncompressed_of(key),
                    );
                    InputV {
                        previous_output: OutPointV { tx_id: sel[j].tx_id, index: sel[j].index },
                        script_bytes: script.len() as u16,
                        sig_script: script,
                        sequence: u32::MAX,
                    }
                },
        ),
        ..base
    }
}

/// The conditions under which a spend is owed to succeed: a well-formed
/// secret key whose pubkey-hash is the sender's, every selected UTXO locked
/// by the standard opcode-free template for that hash, and no two selected
/// UTXOs sharing an outpoint.
pub open spec fn spend_well_formed(sel: Seq<UtxoV>, sender: Seq<u8>, key: Seq<u8>) -> bool {
    &&& seckey_wf(key)
    &&& sender == pk_hash_of(pubkey_uncompressed_of(key))
    &&& crate::script::data_only(sender)
    &&& forall|j: int|
        0 <= j < sel.len() ==> (#[trigger] sel[j]).output.script_pubkey
            == crate::script::p2pkh_lock_script(sender)
    &&& forall|a: int, b: int|
        0 <= a < b < sel.len() ==> !((#[trigger] sel[a]).tx_id == (#[trigger] sel[b]).tx_id
            && sel[a].index == sel[b].index)
}

/// Builds, signs, and validates a spend of `amount` from the sender to the
/// receiver: selects covering UTXOs among the sender's spendable ones
/// (those not reserved by `prepared_transactions`), pays the receiver, and
/// returns any change to the sender. Yields the signed transaction's wire
/// encoding. Fails with an insufficient-funds error exactly when no
/// covering set exists, and is owed success — the encoding of the signed
/// spend — whenever the selection is well formed for the key.
#[verifier::rlimit(100)]
pub fn send(
    utxo: &UtxoSet,
    sender_pkhash: &[u8],
    receiver_pkhash: &[u8],
    amount: u64,
    private_key: &[u8],
    prepared_transactions: &Vec<Transaction>,
) -> (r: Result<Vec<u8>, RitCoinErrror>)
    requires
        sender_pkhash@.len() >= 1,
        sum_amounts(
            spendable_utxos(
                utxo@,
                sender_pkhash@,
                prepared_transactions@.map_values(|t: Transaction| t@),
            ),
        ) <= u64::MAX,
    ensures
        ({
            let cands = spendable_utxos(
                utxo@,
                sender_pkhash@,
                prepared_transactions@.map_values(|t: Transaction| t@),
            );
            &&& (select_utxos(cands, amount) is None <==> (r matches Err(e)
                && e is InsufficientFunds))
            &&& (r matches Ok(bytes) ==> (select_utxos(cands, amount) matches Some(sel)
                && bytes@ == enc_tx(
                signed_spend_tx(
                    sel,
                    spend_outputs(
                        amount,
                        sum_amounts(sel) as u64,
                        sender_pkhash@,
                        receiver_pkhash@,
                    ),
                    private_key@,
                ),
            ) && check_tx(
                signed_spend_tx(
                    sel,
                    spend_outputs(
                        amount,
                        sum_amounts(sel) as u64,
                        sender_pkhash@,
                        receiver_pkhash@,
                    ),
                    private_key@,
                ),
                sel,
            ) == TxCheck::Valid))
            &&& ((select_utxos(cands, amount) matches Some(sel) && spend_well_formed(
                sel,
                sender_pkhash@,
                private_key@,
            )) ==> r is Ok)
            &&& ((select_utxos(cands, amount) matches Some(sel) && sel.len() > 0 && !seckey_wf(
                private_key@,
            )) ==> (r matches Err(e) && e is CryptoError))
        }),
{
    let ghost cands = spendable_utxos(
        utxo@,
        sender_pkhash@,
        prepared_transactions@.map_values(|t: Transaction| t@),
    );
    let used_utxos = match utxo.get_used_utxos(sender_pkhash, amount, prepared_transactions) {
        Some(v) => v,
        None => {
            return Err(
                RitCoinErrror::InsufficientFunds(
                    "not enough utxos to create transaction".to_string(),
                ),
            );
        },
    };
    let ghost sel = used_utxos@.map_values(|u: crate::utxo_set::Utxo| u@);
    let ghost key = private_key@;
    proof {
        lemma_selection_covers(cands, amount);
        lemma_selection_sum_le(cands, amount);
    }
    let inputs = Input::create_inputs(&used_utxos);
    let ghost inputs_v = inputs@.map_values(|i: Input| i@);
    let utxo_total = UtxoSet::get_total_amount(&used_utxos);
    assert(utxo_total == sum_amounts(sel));
    let ghost outs = spend_outputs(amount, utxo_total, sender_pkhash@, receiver_pkhash@);
    let outputs = Output::create_single(amount, utxo_total, sender_pkhash, receiver_pkhash);
    assert(outputs@.map_values(|o: Output| o@) =~= outs);
    let mut transaction = Transaction::new(inputs, outputs);
    let ghost base = transaction@;
    proof {
        assert(base.tx_in =~= unsigned_spend_tx(sel, outs).tx_in) by {
            assert forall|j: int| 0 <= j < sel.len() implies base.tx_in[j] == unsigned_spend_tx(
                sel,
                outs,
            ).tx_in[j] by {
                assert(base.tx_in[j] == inputs_v[j]);
            }
        }
        assert(base == unsigned_spend_tx(sel, outs));
    }
    match transaction.sign(private_key) {
        Ok(()) => {},
        Err(e) => {
            assert(!seckey_wf(key));
            return Err(e);
        },
    }
    let ghost signed = transaction@;
    proof {
        assert(signed.tx_in =~= signed_spend_tx(sel, outs, key).tx_in) by {
            assert forall|j: int| 0 <= j < sel.len() implies signed.tx_in[j] == signed_spend_tx(
                sel,
                outs,
                key,
            ).tx_in[j] by {
                let script = sig_script_bytes(
                    sig_der_of(tx_sighash_of(base, j), key),
                    pubkey_uncompressed_of(key),
                );
                assert(sig_der_of(tx_sighash_of(base, j), key).len() <= 72);
                assert(script.len() <= 150);
                assert(signed.tx_in[j].previous_output == base.tx_in[j].previous_output);
            }
        }
        assert(signed == signed_spend_tx(sel, outs, key));
        if spend_well_formed(sel, sender_pkhash@, key) {
            assert(substituted_tx(signed, sel) == base) by {
                assert forall|j: int| 0 <= j < sel.len() implies substituted_tx(
                    signed,
                    sel,
                ).tx_in[j] == base.tx_in[j] by {
                    lemma_find_utxo_distinct(sel, j);
                }
                assert(substituted_tx(signed, sel).tx_in =~= base.tx_in);
            }
            assert forall|j: int| 0 <= j < signed.tx_in.len() implies (match find_utxo(
                sel,
                (#[trigger] signed.tx_in[j]).previous_output.tx_id,
                signed.tx_in[j].previous_output.index,
            ) {
                Some(u) => crate::script::script_succeeds(
                    signed.tx_in[j].sig_script,
                    u.output.script_pubkey,
                    tx_sighash_of(substituted_tx(signed, sel), j),
                ),
                None => false,
            }) by {
                lemma_find_utxo_distinct(sel, j);
                let h = tx_sighash_of(base, j);
                assert(tx_sighash_of(substituted_tx(signed, sel), j) == h);
                lemma_p2pkh_unlocks(
                    sig_der_of(h, key),
                    pubkey_uncompressed_of(key),
                    sender_pkhash@,
                    h,
                );
            }
            lemma_inputs_all_valid(signed, sel, 0);
            assert forall|j: int| 0 <= j < signed.tx_in.len() implies find_utxo(
                sel,
                (#[trigger] signed.tx_in[j]).previous_output.tx_id,
                signed.tx_in[j].previous_output.index,
            ) == Some(sel[j]) by {
                lemma_find_utxo_distinct(sel, j);
            }
            lemma_inputs_amount_matches(signed.tx_in, sel, sel);
            assert(outputs_amount_sum(outs) == sum_amounts(sel)) by {
                if utxo_total == amount {
                    assert(outs.drop_last() =~= Seq::<OutputV>::empty());
                    assert(outputs_amount_sum(outs.drop_last()) == 0);
                    assert(outs.last() == outs[0]);
                    assert(outputs_amount_sum(outs) == outs[0].amount);
                } else {
                    assert(outs.drop_last() =~= seq![outs[0]]);
                    assert(outs.drop_last().drop_last() =~= Seq::<OutputV>::empty());
                    assert(outputs_amount_sum(outs.drop_last().drop_last()) == 0);
                    assert(outs.drop_last().last() == outs[0]);
                    assert(outputs_amount_sum(outs.drop_last()) == outs[0].amount);
                    assert(outs.last() == outs[1]);
                    assert(outputs_amount_sum(outs) == outs[0].amount + outs[1].amount);
                }
            }
            assert(check_tx(signed, sel) == TxCheck::Valid);
        }
    }
    match transaction.validate(&used_utxos) {
        Ok(()) => {},
        Err(e) => {
            assert(!spend_well_formed(sel, sender_pkhash@, key));
            return Err(e);
        },
    }
    let serialized = serialize(&transaction);
    Ok(serialized)
}

/// The reservation list without the first entry equal to `x`, unchanged
/// when none is.
pub open spec fn remove_first_bytes(s: Seq<Seq<u8>>, x: Seq<u8>) -> Seq<Seq<u8>>
    decreases s.len(),
{
    if s.len() == 0 {
        s
    } else if s[0] == x {
        s.drop_first()
    } else {
        seq![s[0]] + remove_first_bytes(s.drop_first(), x)
    }
}

proof fn lemma_remove_first_bytes_at(s: Seq<Seq<u8>>, x: Seq<u8>, i: int)
    requires
        0 <= i < s.len(),
        s[i] == x,
        forall|j: int| 0 <= j < i ==> s[j] != x,
    ensures
        remove_first_bytes(s, x) == s.remove(i),
    decreases i,
{
    if i == 0 {
        assert(s.drop_first() =~= s.remove(0));
    } else {
        assert(s.drop_first()[i - 1] == s[i]);
        lemma_remove_first_bytes_at(s.drop_first(), x, i - 1);
        assert(seq![s[0]] + s.drop_first().remove(i - 1) =~= s.remove(i));
    }
}

proof fn lemma_remove_first_bytes_none(s: Seq<Seq<u8>>, x: Seq<u8>)
    requires
        forall|j: int| 0 <= j < s.len() ==> s[j] != x,
    ensures
        remove_first_bytes(s, x) == s,
    decreases s.len(),
{
    if s.len() > 0 {
        lemma_remove_first_bytes_none(s.drop_first(), x);
        assert(seq![s[0]] + s.drop_first() =~= s);
    }
}

/// Releases one reserved transaction: the first prepared entry matching the
/// textual form is removed; nothing changes when none matches.
pub fn unlock(serialized_tx: &str, prepared_transactions: &mut Vec<Vec<u8>>)
    ensures
        final(prepared_transactions)@.map_values(|v: Vec<u8>| v@) == remove_first_bytes(
            old(prepared_transactions)@.map_values(|v: Vec<u8>| v@),
            debug_bytes_of(serialized_tx.spec_bytes()),
        ),
{
    let target = tx_str_to_vec(serialized_tx);
    let ghost x = debug_bytes_of(serialized_tx.spec_bytes());
    let ghost s = prepared_transactions@.map_values(|v: Vec<u8>| v@);
    let n = prepared_transactions.len();
    for i in 0..n
        invariant
            n == prepared_transactions@.len(),
            prepared_transactions@ == old(prepared_transactions)@,
            s == prepared_transactions@.map_values(|v: Vec<u8>| v@),
            s.len() == n,
            x == debug_bytes_of(serialized_tx.spec_bytes()),
            target@ == x,
            forall|j: int| 0 <= j < i ==> s[j] != x,
    {
        assert(prepared_transactions@[i as int]@ == s[i as int]);
        if crate::utxo_set::slices_equal(prepared_transactions[i].as_slice(), target.as_slice()) {
            let ghost pre = prepared_transactions@.map_values(|v: Vec<u8>| v@);
            prepared_transactions.remove(i);
            proof {
                assert(prepared_transactions@.map_values(|v: Vec<u8>| v@) =~= pre.remove(i as int));
                lemma_remove_first_bytes_at(s, x, i as int);
            }
            return ;
        }
    }
    proof {
        lemma_remove_first_bytes_none(s, x);
    }
}

/// Releases every reserved transaction.
pub fn unlock_all(prepared_transactions: &mut Vec<Vec<u8>>)
    ensures
        final(prepared_transactions)@.len() == 0,
{
    prepared_transactions.clear();
}

} // verus!
