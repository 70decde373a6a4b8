//! The transaction data model: outpoints, inputs, outputs, transactions,
//! their canonical hash preimages, identity hashes, per-input signature
//! hashes, and signing.

use vstd::prelude::*;
use crate::encoding::{dec_digits, u64_to_dec};
use crate::errors::RitCoinErrror;
use crate::hash::{sha256, sha256_of};
use crate::opcodes::{OP_CHECKSIG, OP_DUP, OP_EQUALVERIFY, OP_HASH160};
use crate::script::{execute, p2pkh_lock_script, script_succeeds, unlock_pubkey, unlock_sig, unlock_wf};
use crate::utxo_set::{find_utxo, lemma_find_utxo_is_element, Utxo, UtxoSet, UtxoV};
use crate::wallet::{pubkey_uncompressed_of, seckey_wf, sig_der_of, sig_valid, sign as wallet_sign};

verus! {

/// The transaction format version.
pub const VERSION: u32 = 1;

/// The sighash type covered by every signature: all inputs and outputs.
pub const SIGHASH_ALL: u8 = 1;

/// Identifies a previous transaction output. Immutable once created.
pub struct OutPoint {
    tx_id: Vec<u8>,
    index: u32,
}

/// The mathematical value of an `OutPoint`.
pub struct OutPointV {
    pub tx_id: Seq<u8>,
    pub index: u32,
}

impl View for OutPoint {
    type V = OutPointV;

    closed spec fn view(&self) -> OutPointV {
        OutPointV { tx_id: self.tx_id@, index: self.index }
    }
}

impl Clone for OutPoint {
    fn clone(&self) -> (r: Self)
        ensures
            r@ == self@,
    {
        let tx_id = self.tx_id.clone();
        assert(tx_id@ =~= self.tx_id@);
        OutPoint { tx_id, index: self.index }
    }
}

impl OutPoint {
    pub fn new(tx_id: Vec<u8>, index: u32) -> (r: Self)
        ensures
            r@.tx_id == tx_id@,
            r@.index == index,
    {
        Self { tx_id, index }
    }

    pub fn get_tx_id(&self) -> (r: &[u8])
        ensures
            r@ == self@.tx_id,
    {
        self.tx_id.as_slice()
    }

    pub fn get(&self) -> (r: (&[u8], u32))
        ensures
            r.0@ == self@.tx_id,
            r.1 == self@.index,
    {
        (self.tx_id.as_slice(), self.index)
    }
}

/// One transaction input: the outpoint it spends, and its unlocking script
/// (a copy of the spent output's locking script until signed, the
/// signature-and-pubkey encoding afterwards).
pub struct Input {
    previous_output: OutPoint,
    script_bytes: u16,
    sig_script: Vec<u8>,
    sequence: u32,
}

/// The mathematical value of an `Input`.
pub struct InputV {
    pub previous_output: OutPointV,
    pub script_bytes: u16,
    pub sig_script: Seq<u8>,
    pub sequence: u32,
}

impl View for Input {
    type V = InputV;

    closed spec fn view(&self) -> InputV {
        InputV {
            previous_output: self.previous_output@,
            script_bytes: self.script_bytes,
            sig_script: self.sig_script@,
            sequence: self.sequence,
        }
    }
}

/// One transaction output: an amount locked by a P2PKH locking script.
pub struct Output {
    amount: u64,
    script_length: u16,
    script_pubkey: Vec<u8>,
}

/// The mathematical value of an `Output`.
pub struct OutputV {
    pub amount: u64,
    pub script_length: u16,
    pub script_pubkey: Seq<u8>,
}

impl View for Output {
    type V = OutputV;

    closed spec fn view(&self) -> OutputV {
        OutputV {
            amount: self.amount,
            script_length: self.script_length,
            script_pubkey: self.script_pubkey@,
        }
    }
}

/// A transaction: a list of inputs spending previous outputs, and a list of
/// newly created outputs.
pub struct Transaction {
    version: u32,
    tx_in_count: u16,
    tx_in: Vec<Input>,
    tx_out_count: u16,
    tx_out: Vec<Output>,
    lock_time: u32,
}

/// The mathematical value of a `Transaction`.
pub struct TransactionV {
    pub version: u32,
    pub tx_in_count: u16,
    pub tx_in: Seq<InputV>,
    pub tx_out_count: u16,
    pub tx_out: Seq<OutputV>,
    pub lock_time: u32,
}

impl View for Transaction {
    type V = TransactionV;

    closed spec fn view(&self) -> TransactionV {
        TransactionV {
            version: self.version,
            tx_in_count: self.tx_in_count,
            tx_in: self.tx_in@.map_values(|i: Input| i@),
            tx_out_count: self.tx_out_count,
            tx_out: self.tx_out@.map_values(|o: Output| o@),
            lock_time: self.lock_time,
        }
    }
}

// ---------------------------------------------------------------------------
// Canonical hash preimages
// ---------------------------------------------------------------------------

/// The bytes an input contributes to a transaction hash preimage: the spent
/// outpoint, the script length, the unlocking script (or the single digit
/// zero when the input is blanked), and the sequence number, numbers
/// rendered in decimal ASCII.
pub open spec fn input_preimage(i: InputV, with_sig: bool) -> Seq<u8> {
    i.previous_output.tx_id + dec_digits(i.previous_output.index as nat) + dec_digits(
        i.script_bytes as nat,
    ) + (if with_sig {
        i.sig_script
    } else {
        dec_digits(0)
    }) + dec_digits(i.sequence as nat)
}

/// The bytes an output contributes to a transaction hash preimage.
pub open spec fn output_preimage(o: OutputV) -> Seq<u8> {
    dec_digits(o.amount as nat) + dec_digits(o.script_length as nat) + o.script_pubkey
}

/// All inputs' preimage bytes in order, every unlocking script included.
pub open spec fn inputs_preimage_all(ins: Seq<InputV>) -> Seq<u8>
    decreases ins.len(),
{
    if ins.len() == 0 {
        Seq::empty()
    } else {
        inputs_preimage_all(ins.drop_last()) + input_preimage(ins.last(), true)
    }
}

/// All inputs' preimage bytes in order, with every unlocking script blanked
/// except the one at index `signed`.
pub open spec fn inputs_preimage_signed(ins: Seq<InputV>, signed: int) -> Seq<u8>
    decreases ins.len(),
{
    if ins.len() == 0 {
        Seq::empty()
    } else {
        inputs_preimage_signed(ins.drop_last(), signed) + input_preimage(
            ins.last(),
            signed == ins.len() - 1,
        )
    }
}

/// All outputs' preimage bytes in order.
pub open spec fn outputs_preimage(outs: Seq<OutputV>) -> Seq<u8>
    decreases outs.len(),
{
    if outs.len() == 0 {
        Seq::empty()
    } else {
        outputs_preimage(outs.drop_last()) + output_preimage(outs.last())
    }
}

/// The canonical serialization that a transaction's identity hash covers:
/// version, input count, all inputs with their unlocking scripts, and all
/// outputs.
pub open spec fn tx_preimage(t: TransactionV) -> Seq<u8> {
    dec_digits(t.version as nat) + dec_digits(t.tx_in_count as nat) + inputs_preimage_all(t.tx_in)
        + outputs_preimage(t.tx_out)
}

/// A transaction's identity: double SHA-256 of its canonical serialization.
pub open spec fn tx_hash_of(t: TransactionV) -> Seq<u8> {
    sha256_of(sha256_of(tx_preimage(t)))
}

/// The serialization that the signature for input `signed` covers: as the
/// identity preimage, but with every other input's unlocking script blanked,
/// and a trailing sighash-type digit.
pub open spec fn tx_sighash_preimage(t: TransactionV, signed: int) -> Seq<u8> {
    dec_digits(t.version as nat) + dec_digits(t.tx_in_count as nat) + inputs_preimage_signed(
        t.tx_in,
        signed,
    ) + outputs_preimage(t.tx_out) + dec_digits(SIGHASH_ALL as nat)
}

/// The signature hash of input `signed`: double SHA-256 of its view of the
/// transaction.
pub open spec fn tx_sighash_of(t: TransactionV, signed: int) -> Seq<u8> {
    sha256_of(sha256_of(tx_sighash_preimage(t, signed)))
}

/// The fixed binary layout of a signed unlocking script: one length byte
/// (signature length plus one), the signature, the sighash-type byte, one
/// length byte, the public key.
pub open spec fn sig_script_bytes(sig: Seq<u8>, pk: Seq<u8>) -> Seq<u8> {
    (((seq![(sig.len() + 1) as u8] + sig) + seq![SIGHASH_ALL]) + seq![pk.len() as u8]) + pk
}

/// A signed unlocking script parses back into its signature and public key.
pub proof fn lemma_sig_script_parses(sig: Seq<u8>, pk: Seq<u8>)
    requires
        sig.len() + 1 <= 255,
        pk.len() == 65,
    ensures
        unlock_wf(sig_script_bytes(sig, pk)),
        unlock_sig(sig_script_bytes(sig, pk)) == sig,
        unlock_pubkey(sig_script_bytes(sig, pk)) == pk,
{
    let s = sig_script_bytes(sig, pk);
    assert(s.len() == sig.len() + 68);
    assert(s[0] == (sig.len() + 1) as u8);
    assert(s[s[0] as int + 1] == 65);
    assert(unlock_sig(s) =~= sig);
    assert(unlock_pubkey(s) =~= pk);
}

/// The law of a correctly constructed P2PKH exchange: the unlocking script
/// built by `calculate_sig_script` from a signature and a 65-byte public key
/// validates against the P2PKH locking script for an embedded pubkey-hash
/// (data-only bytes) and a signature hash exactly when the embedded hash is
/// the public key's pubkey-hash and the signature verifies over that hash.
/// In particular a flipped byte in the embedded pubkey-hash, or a signature
/// that does not verify, fails the script.
pub proof fn lemma_p2pkh_unlocks(sig: Seq<u8>, pk: Seq<u8>, pkhash: Seq<u8>, hash: Seq<u8>)
    requires
        sig.len() + 1 <= 255,
        pk.len() == 65,
        crate::script::data_only(pkhash),
    ensures
        script_succeeds(sig_script_bytes(sig, pk), p2pkh_lock_script(pkhash), hash) <==> (pkhash
            == crate::wallet::pk_hash_of(pk) && crate::wallet::sig_valid(hash, sig, pk)),
{
    lemma_sig_script_parses(sig, pk);
    crate::script::lemma_p2pkh_script_succeeds(sig_script_bytes(sig, pk), pkhash, hash);
}

// ---------------------------------------------------------------------------
// Step lemmas for building preimages incrementally
// ---------------------------------------------------------------------------

proof fn lemma_inputs_preimage_all_step(ins: Seq<InputV>, i: int)
    requires
        0 <= i < ins.len(),
    ensures
        inputs_preimage_all(ins.take(i + 1)) == inputs_preimage_all(ins.take(i)) + input_preimage(
            ins[i],
            true,
        ),
{
    assert(ins.take(i + 1).drop_last() =~= ins.take(i));
    assert(ins.take(i + 1).last() == ins[i]);
}

proof fn lemma_inputs_preimage_signed_step(ins: Seq<InputV>, signed: int, i: int)
    requires
        0 <= i < ins.len(),
    ensures
        inputs_preimage_signed(ins.take(i + 1), signed) == inputs_preimage_signed(
            ins.take(i),
            signed,
        ) + input_preimage(ins[i], signed == i),
{
    assert(ins.take(i + 1).drop_last() =~= ins.take(i));
    assert(ins.take(i + 1).last() == ins[i]);
    assert(ins.take(i + 1).len() - 1 == i);
}

proof fn lemma_outputs_preimage_step(outs: Seq<OutputV>, i: int)
    requires
        0 <= i < outs.len(),
    ensures
        outputs_preimage(outs.take(i + 1)) == outputs_preimage(outs.take(i)) + output_preimage(
            outs[i],
        ),
{
    assert(outs.take(i + 1).drop_last() =~= outs.take(i));
    assert(outs.take(i + 1).last() == outs[i]);
}

impl Clone for Input {
    fn clone(&self) -> (r: Self)
        ensures
            r@ == self@,
    {
        let sig_script = self.sig_script.clone();
        assert(sig_script@ =~= self.sig_script@);
        Input {
            previous_output: self.previous_output.clone(),
            script_bytes: self.script_bytes,
            sig_script,
            sequence: self.sequence,
        }
    }
}

impl Clone for Output {
    fn clone(&self) -> (r: Self)
        ensures
            r@ == self@,
    {
        let script_pubkey = self.script_pubkey.clone();
        assert(script_pubkey@ =~= self.script_pubkey@);
        Output { amount: self.amount, script_length: self.script_length, script_pubkey }
    }
}

impl Clone for Transaction {
    fn clone(&self) -> (r: Self)
        ensures
            r@ == self@,
    {
        let mut tx_in: Vec<Input> = Vec::new();
        let n_in = self.tx_in.len();
        for i in 0..n_in
            invariant
                n_in == self.tx_in@.len(),
                tx_in@.len() == i,
                forall|j: int| 0 <= j < i ==> (#[trigger] tx_in@[j])@ == self.tx_in@[j]@,
        {
            tx_in.push(self.tx_in[i].clone());
        }
        let mut tx_out: Vec<Output> = Vec::new();
        let n_out = self.tx_out.len();
        for i in 0..n_out
            invariant
                n_out == self.tx_out@.len(),
                tx_out@.len() == i,
                forall|j: int| 0 <= j < i ==> (#[trigger] tx_out@[j])@ == self.tx_out@[j]@,
        {
            tx_out.push(self.tx_out[i].clone());
        }
        let r = Transaction {
            version: self.version,
            tx_in_count: self.tx_in_count,
            tx_in,
            tx_out_count: self.tx_out_count,
            tx_out,
            lock_time: self.lock_time,
        };
        assert(r@.tx_in =~= self@.tx_in);
        assert(r@.tx_out =~= self@.tx_out);
        r
    }
}

// ---------------------------------------------------------------------------
// Validation model
// ---------------------------------------------------------------------------

/// An input with its unlocking script replaced by the locking script of the
/// UTXO it spends, as at signing time; unchanged when no UTXO matches.
pub open spec fn substitute_input(i: InputV, utxos: Seq<UtxoV>) -> InputV {
    match find_utxo(utxos, i.previous_output.tx_id, i.previous_output.index) {
        Some(u) => InputV {
            previous_output: i.previous_output,
            script_bytes: u.output.script_pubkey.len() as u16,
            sig_script: u.output.script_pubkey,
            sequence: i.sequence,
        },
        None => i,
    }
}

/// The transaction view that signatures cover: every input substituted.
pub open spec fn substituted_tx(t: TransactionV, utxos: Seq<UtxoV>) -> TransactionV {
    TransactionV {
        version: t.version,
        tx_in_count: t.tx_in_count,
        tx_in: Seq::new(t.tx_in.len(), |j: int| substitute_input(t.tx_in[j], utxos)),
        tx_out_count: t.tx_out_count,
        tx_out: t.tx_out,
        lock_time: t.lock_time,
    }
}

/// The outcome of checking a transaction against a UTXO set.
pub enum TxCheck {
    /// Every input references a known UTXO, every script validates, and the
    /// inputs cover the outputs.
    Valid,
    /// Some input references no known UTXO; checking stops there.
    UnknownUtxo,
    /// Some input's unlocking script fails against its UTXO's locking
    /// script; checking stops there.
    ScriptFail,
    /// The scripts pass but the spent inputs do not cover the outputs.
    Insufficient,
}

/// The first problem among the inputs from index `i` on: an unknown UTXO or
/// a failing script, in input order; `Valid` when the rest pass.
pub open spec fn first_input_problem(t: TransactionV, utxos: Seq<UtxoV>, i: int) -> TxCheck
    decreases t.tx_in.len() - i,
{
    if i < 0 || i >= t.tx_in.len() {
        TxCheck::Valid
    } else {
        match find_utxo(utxos, t.tx_in[i].previous_output.tx_id, t.tx_in[i].previous_output.index) {
            None => TxCheck::UnknownUtxo,
            Some(u) => if !script_succeeds(
                t.tx_in[i].sig_script,
                u.output.script_pubkey,
                tx_sighash_of(substituted_tx(t, utxos), i),
            ) {
                TxCheck::ScriptFail
            } else {
                first_input_problem(t, utxos, i + 1)
            },
        }
    }
}

/// Whether every input that resolves in `utxos` carries a script that
/// validates over the recomputed signing-time sighash; inputs that resolve
/// to no UTXO are skipped. The relaxation `verify` applies, where `validate`
/// instead demands that every input resolve.
pub open spec fn resolved_scripts_ok(t: TransactionV, utxos: Seq<UtxoV>, i: int) -> bool
    decreases t.tx_in.len() - i,
{
    if i < 0 || i >= t.tx_in.len() {
        true
    } else {
        match find_utxo(utxos, t.tx_in[i].previous_output.tx_id, t.tx_in[i].previous_output.index) {
            None => resolved_scripts_ok(t, utxos, i + 1),
            Some(u) => script_succeeds(
                t.tx_in[i].sig_script,
                u.output.script_pubkey,
                tx_sighash_of(substituted_tx(t, utxos), i),
            ) && resolved_scripts_ok(t, utxos, i + 1),
        }
    }
}

/// The amount an input contributes: its matching UTXO's amount, or nothing
/// when none matches.
pub open spec fn input_amount(i: InputV, utxos: Seq<UtxoV>) -> int {
    match find_utxo(utxos, i.previous_output.tx_id, i.previous_output.index) {
        Some(u) => u.output.amount as int,
        None => 0,
    }
}

/// The total amount the inputs spend.
pub open spec fn inputs_amount_sum(ins: Seq<InputV>, utxos: Seq<UtxoV>) -> int
    decreases ins.len(),
{
    if ins.len() == 0 {
        0
    } else {
        inputs_amount_sum(ins.drop_last(), utxos) + input_amount(ins.last(), utxos)
    }
}

/// The total amount the outputs create.
pub open spec fn outputs_amount_sum(outs: Seq<OutputV>) -> int
    decreases outs.len(),
{
    if outs.len() == 0 {
        0
    } else {
        outputs_amount_sum(outs.drop_last()) + outs.last().amount
    }
}

/// What validating `t` against `utxos` yields: the first input problem, or
/// an insufficiency when the inputs do not cover the outputs.
pub open spec fn check_tx(t: TransactionV, utxos: Seq<UtxoV>) -> TxCheck {
    let p = first_input_problem(t, utxos, 0);
    if p != TxCheck::Valid {
        p
    } else if inputs_amount_sum(t.tx_in, utxos) >= outputs_amount_sum(t.tx_out) {
        TxCheck::Valid
    } else {
        TxCheck::Insufficient
    }
}

/// The public key of a signed input: the last 65 bytes of its unlocking
/// script.
pub open spec fn input_pubkey(i: InputV) -> Seq<u8> {
    i.sig_script.skip(i.sig_script.len() - 65)
}

/// `x` appended unless already present: the collection step for the
/// deduplicated public key list.
pub open spec fn dedup_push(acc: Seq<Seq<u8>>, x: Seq<u8>) -> Seq<Seq<u8>> {
    if acc.contains(x) {
        acc
    } else {
        acc.push(x)
    }
}

/// The public keys of the signed inputs folded onto `acc` in input order,
/// deduplicated.
pub open spec fn fold_input_pubkeys(acc: Seq<Seq<u8>>, ins: Seq<InputV>) -> Seq<Seq<u8>>
    decreases ins.len(),
{
    if ins.len() == 0 {
        acc
    } else {
        let pre = fold_input_pubkeys(acc, ins.drop_last());
        if ins.last().sig_script.len() >= 65 {
            dedup_push(pre, input_pubkey(ins.last()))
        } else {
            pre
        }
    }
}

/// The set of public keys referenced by a transaction's signed inputs.
pub open spec fn tx_pubkeys(t: TransactionV) -> Set<Seq<u8>> {
    Set::new(
        |x: Seq<u8>|
            exists|j: int|
                0 <= j < t.tx_in.len() && (#[trigger] t.tx_in[j]).sig_script.len() >= 65 && x
                    == input_pubkey(t.tx_in[j]),
    )
}

proof fn lemma_inputs_amount_sum_step(ins: Seq<InputV>, utxos: Seq<UtxoV>, i: int)
    requires
        0 <= i < ins.len(),
    ensures
        inputs_amount_sum(ins.take(i + 1), utxos) == inputs_amount_sum(ins.take(i), utxos)
            + input_amount(ins[i], utxos),
        input_amount(ins[i], utxos) <= u64::MAX,
        0 <= input_amount(ins[i], utxos),
{
    assert(ins.take(i + 1).drop_last() =~= ins.take(i));
    assert(ins.take(i + 1).last() == ins[i]);
}

proof fn lemma_outputs_amount_sum_step(outs: Seq<OutputV>, i: int)
    requires
        0 <= i < outs.len(),
    ensures
        outputs_amount_sum(outs.take(i + 1)) == outputs_amount_sum(outs.take(i)) + outs[i].amount,
{
    assert(outs.take(i + 1).drop_last() =~= outs.take(i));
    assert(outs.take(i + 1).last() == outs[i]);
}

/// A transaction whose every input resolves to a UTXO with a passing
/// script has no input problem.
pub proof fn lemma_inputs_all_valid(t: TransactionV, utxos: Seq<UtxoV>, i: int)
    requires
        0 <= i <= t.tx_in.len(),
        forall|j: int|
            i <= j < t.tx_in.len() ==> match find_utxo(
                utxos,
                (#[trigger] t.tx_in[j]).previous_output.tx_id,
                t.tx_in[j].previous_output.index,
            ) {
                Some(u) => script_succeeds(
                    t.tx_in[j].sig_script,
                    u.output.script_pubkey,
                    tx_sighash_of(substituted_tx(t, utxos), j),
                ),
                None => false,
            },
    ensures
        first_input_problem(t, utxos, i) == TxCheck::Valid,
    decreases t.tx_in.len() - i,
{
    if i < t.tx_in.len() {
        lemma_inputs_all_valid(t, utxos, i + 1);
    }
}

/// When every input resolves to the selection entry at its own position,
/// the inputs spend exactly the selection's total.
pub proof fn lemma_inputs_amount_matches(
    ins: Seq<InputV>,
    utxos: Seq<UtxoV>,
    sel: Seq<crate::utxo_set::UtxoV>,
)
    requires
        ins.len() == sel.len(),
        forall|j: int|
            0 <= j < ins.len() ==> find_utxo(
                utxos,
                (#[trigger] ins[j]).previous_output.tx_id,
                ins[j].previous_output.index,
            ) == Some(sel[j]),
    ensures
        inputs_amount_sum(ins, utxos) == crate::utxo_set::sum_amounts(sel),
    decreases ins.len(),
{
    if ins.len() > 0 {
        assert(forall|j: int|
            0 <= j < ins.drop_last().len() ==> #[trigger] ins.drop_last()[j] == ins[j]);
        assert(forall|j: int|
            0 <= j < sel.drop_last().len() ==> #[trigger] sel.drop_last()[j] == sel[j]);
        lemma_inputs_amount_matches(ins.drop_last(), utxos, sel.drop_last());
        assert(input_amount(ins.last(), utxos) == sel.last().output.amount);
    }
}

/// Whether `x` already occurs among the collected byte strings.
pub(crate) fn contains_bytes(v: &Vec<Vec<u8>>, x: &[u8]) -> (r: bool)
    ensures
        r == exists|j: int| 0 <= j < v@.len() && (#[trigger] v@[j])@ == x@,
{
    let n = v.len();
    for j in 0..n
        invariant
            n == v@.len(),
            forall|k: int| 0 <= k < j ==> (#[trigger] v@[k])@ != x@,
    {
        if crate::utxo_set::slices_equal(v[j].as_slice(), x) {
            return true;
        }
    }
    false
}

impl Input {
    /// An input spending `utxo`, its unlocking script holding a copy of the
    /// spent output's locking script until signed.
    pub fn create(utxo: &crate::utxo_set::Utxo) -> (r: Self)
        ensures
            r@.previous_output.tx_id == utxo@.tx_id,
            r@.previous_output.index == utxo@.index,
            r@.script_bytes == utxo@.output.script_pubkey.len() as u16,
            r@.sig_script == utxo@.output.script_pubkey,
            r@.sequence == u32::MAX,
    {
        let previous_output = OutPoint::new(utxo.get_tx_id_vec(), utxo.get_index());
        let script_pubkey = utxo.get_output().get_script_pubkey_vec();
        let script_bytes = script_pubkey.len() as u16;
        Self { previous_output, script_bytes, sig_script: script_pubkey, sequence: u32::MAX }
    }

    /// Inputs spending each of `used_utxos` in order.
    pub fn create_inputs(used_utxos: &Vec<crate::utxo_set::Utxo>) -> (r: Vec<Self>)
        ensures
            r@.len() == used_utxos@.len(),
            forall|j: int|
                0 <= j < r@.len() ==> {
                    let iv = (#[trigger] r@[j])@;
                    let uv = used_utxos@[j]@;
                    &&& iv.previous_output.tx_id == uv.tx_id
                    &&& iv.previous_output.index == uv.index
                    &&& iv.script_bytes == uv.output.script_pubkey.len() as u16
                    &&& iv.sig_script == uv.output.script_pubkey
                    &&& iv.sequence == u32::MAX
                },
    {
        let mut inputs: Vec<Self> = Vec::new();
        let n = used_utxos.len();
        for i in 0..n
            invariant
                n == used_utxos@.len(),
                inputs@.len() == i,
                forall|j: int|
                    0 <= j < i ==> {
                        let iv = (#[trigger] inputs@[j])@;
                        let uv = used_utxos@[j]@;
                        &&& iv.previous_output.tx_id == uv.tx_id
                        &&& iv.previous_output.index == uv.index
                        &&& iv.script_bytes == uv.output.script_pubkey.len() as u16
                        &&& iv.sig_script == uv.output.script_pubkey
                        &&& iv.sequence == u32::MAX
                    },
        {
            inputs.push(Self::create(&used_utxos[i]));
        }
        inputs
    }

    pub fn get_sig_script(&self) -> (r: &[u8])
        ensures
            r@ == self@.sig_script,
    {
        self.sig_script.as_slice()
    }

    /// The public key of a signed input: the last 65 bytes of its unlocking
    /// script.
    pub fn get_public_key(&self) -> (r: &[u8])
        requires
            self@.sig_script.len() >= 65,
        ensures
            r@ == self@.sig_script.skip(self@.sig_script.len() - 65),
    {
        let n = self.sig_script.len();
        let r = &self.sig_script.as_slice()[n - 65..n];
        assert(r@ =~= self@.sig_script.skip(self@.sig_script.len() - 65));
        r
    }

    pub fn get_previous_output(&self) -> (r: &OutPoint)
        ensures
            r@ == self@.previous_output,
    {
        &self.previous_output
    }

    pub fn get_script_bytes(&self) -> (r: u16)
        ensures
            r == self@.script_bytes,
    {
        self.script_bytes
    }

    pub fn get_sequence(&self) -> (r: u32)
        ensures
            r == self@.sequence,
    {
        self.sequence
    }

    /// An input assembled from its decoded parts.
    pub fn from_parts(
        previous_output: OutPoint,
        script_bytes: u16,
        sig_script: Vec<u8>,
        sequence: u32,
    ) -> (r: Self)
        ensures
            r@ == (InputV {
                previous_output: previous_output@,
                script_bytes,
                sig_script: sig_script@,
                sequence,
            }),
    {
        Self { previous_output, script_bytes, sig_script, sequence }
    }

    /// Appends this input's contribution to a hash preimage, the unlocking
    /// script included or blanked.
    fn append_preimage(&self, buf: &mut Vec<u8>, with_sig: bool)
        ensures
            final(buf)@ == old(buf)@ + input_preimage(self@, with_sig),
    {
        buf.extend_from_slice(self.previous_output.tx_id.as_slice());
        let mut index_dec = u64_to_dec(self.previous_output.index as u64);
        buf.append(&mut index_dec);
        let mut script_bytes_dec = u64_to_dec(self.script_bytes as u64);
        buf.append(&mut script_bytes_dec);
        if with_sig {
            buf.extend_from_slice(self.sig_script.as_slice());
        } else {
            let mut zero_dec = u64_to_dec(0);
            buf.append(&mut zero_dec);
        }
        let mut sequence_dec = u64_to_dec(self.sequence as u64);
        buf.append(&mut sequence_dec);
        assert(buf@ =~= old(buf)@ + input_preimage(self@, with_sig));
    }
}

impl Output {
    /// An output paying `amount` to `receiver_pkhash` under the fixed P2PKH
    /// locking-script template.
    pub fn create(amount: u64, receiver_pkhash: &[u8]) -> (r: Self)
        ensures
            r@.amount == amount,
            r@.script_length == (receiver_pkhash@.len() + 4) as u16,
            r@.script_pubkey == p2pkh_lock_script(receiver_pkhash@),
    {
        let mut script_pubkey: Vec<u8> = Vec::new();
        script_pubkey.push(OP_DUP);
        script_pubkey.push(OP_HASH160);
        script_pubkey.extend_from_slice(receiver_pkhash);
        script_pubkey.push(OP_EQUALVERIFY);
        script_pubkey.push(OP_CHECKSIG);
        assert(script_pubkey@ =~= p2pkh_lock_script(receiver_pkhash@));
        let script_length = script_pubkey.len() as u16;
        Self { amount, script_length, script_pubkey }
    }

    /// The outputs of a spend: one paying `amount` to the receiver and, when
    /// the spent total leaves change, one returning the remainder to the
    /// sender.
    pub fn create_single(
        amount: u64,
        utxo_total: u64,
        sender_pk_hash: &[u8],
        receiver_pkhash: &[u8],
    ) -> (r: Vec<Self>)
        requires
            amount <= utxo_total,
        ensures
            r@.len() == if utxo_total == amount {
                1int
            } else {
                2int
            },
            r@[0]@.amount == amount,
            r@[0]@.script_length == (receiver_pkhash@.len() + 4) as u16,
            r@[0]@.script_pubkey == p2pkh_lock_script(receiver_pkhash@),
            utxo_total != amount ==> {
                &&& r@[1]@.amount == utxo_total - amount
                &&& r@[1]@.script_length == (sender_pk_hash@.len() + 4) as u16
                &&& r@[1]@.script_pubkey == p2pkh_lock_script(sender_pk_hash@)
            },
    {
        let mut outputs: Vec<Self> = Vec::new();
        let output = Self::create(amount, receiver_pkhash);
        outputs.push(output);
        if utxo_total - amount != 0 {
            let remainder = Self::create(utxo_total - amount, sender_pk_hash);
            outputs.push(remainder);
        }
        outputs
    }

    pub fn get_script_pubkey(&self) -> (r: &[u8])
        ensures
            r@ == self@.script_pubkey,
    {
        self.script_pubkey.as_slice()
    }

    /// An owned copy of the locking script.
    pub fn get_script_pubkey_vec(&self) -> (r: Vec<u8>)
        ensures
            r@ == self@.script_pubkey,
    {
        let r = self.script_pubkey.clone();
        assert(r@ =~= self@.script_pubkey);
        r
    }

    pub fn get_amount(&self) -> (r: u64)
        ensures
            r == self@.amount,
    {
        self.amount
    }

    pub fn get_script_length(&self) -> (r: u16)
        ensures
            r == self@.script_length,
    {
        self.script_length
    }

    /// An output assembled from its decoded parts.
    pub fn from_parts(amount: u64, script_length: u16, script_pubkey: Vec<u8>) -> (r: Self)
        ensures
            r@ == (OutputV { amount, script_length, script_pubkey: script_pubkey@ }),
    {
        Self { amount, script_length, script_pubkey }
    }

    /// Appends this output's contribution to a hash preimage.
    fn append_preimage(&self, buf: &mut Vec<u8>)
        ensures
            final(buf)@ == old(buf)@ + output_preimage(self@),
    {
        let mut amount_dec = u64_to_dec(self.amount);
        buf.append(&mut amount_dec);
        let mut script_length_dec = u64_to_dec(self.script_length as u64);
        buf.append(&mut script_length_dec);
        buf.extend_from_slice(self.script_pubkey.as_slice());
        assert(buf@ =~= old(buf)@ + output_preimage(self@));
    }
}

/// The little-endian bytes of a block height with trailing zero bytes
/// stripped: the unlocking-script payload that keeps coinbase transactions
/// distinct across heights.
pub open spec fn coinbase_height_bytes(height: u32) -> Seq<u8> {
    strip_trailing_zeros(u32_le_bytes(height))
}

/// The four little-endian bytes of a `u32`.
pub open spec fn u32_le_bytes(n: u32) -> Seq<u8> {
    seq![
        (n % 256) as u8,
        ((n / 256) % 256) as u8,
        ((n / 65536) % 256) as u8,
        ((n / 16777216) % 256) as u8,
    ]
}

/// `s` with every trailing zero byte removed.
pub open spec fn strip_trailing_zeros(s: Seq<u8>) -> Seq<u8>
    decreases s.len(),
{
    if s.len() > 0 && s.last() == 0 {
        strip_trailing_zeros(s.drop_last())
    } else {
        s
    }
}

/// The mathematical value of the coinbase transaction for a height, reward,
/// and receiver.
#[verifier::opaque]
pub open spec fn coinbase_tx(receiver_pkhash: Seq<u8>, block_height: u32, amount: u64)
    -> TransactionV {
    TransactionV {
        version: VERSION,
        tx_in_count: 1,
        tx_in: seq![
            InputV {
                previous_output: OutPointV { tx_id: Seq::new(64, |i: int| 0u8), index: u32::MAX },
                script_bytes: coinbase_height_bytes(block_height).len() as u16,
                sig_script: coinbase_height_bytes(block_height),
                sequence: u32::MAX,
            },
        ],
        tx_out_count: 1,
        tx_out: seq![
            OutputV {
                amount,
                script_length: (receiver_pkhash.len() + 4) as u16,
                script_pubkey: p2pkh_lock_script(receiver_pkhash),
            },
        ],
        lock_time: 0,
    }
}

/// The reward-granting transaction that stands first in every block.
pub trait CoinBaseTransaction: Sized + View<V = TransactionV> {
    /// A coinbase transaction: a single input spending the sentinel outpoint
    /// (all-zero transaction id, maximal index) whose unlocking script
    /// encodes the block height, and a single output paying the reward.
    fn new(receiver_pkhash: &[u8], block_height: u32, coinbase_amount: u64) -> (r: Self)
        ensures
            r@ == coinbase_tx(receiver_pkhash@, block_height, coinbase_amount),
    ;
}

impl CoinBaseTransaction for Transaction {
    fn new(receiver_pkhash: &[u8], block_height: u32, coinbase_amount: u64) -> (r: Self) {
        proof {
            reveal(coinbase_tx);
        }
        let tx_id: Vec<u8> = vec![0u8; 64];
        assert(tx_id@ =~= Seq::new(64, |i: int| 0u8));
        let previous_output = OutPoint::new(tx_id, u32::MAX);
        let mut sig_script: Vec<u8> = Vec::new();
        sig_script.push((block_height % 256) as u8);
        sig_script.push(((block_height / 256) % 256) as u8);
        sig_script.push(((block_height / 65536) % 256) as u8);
        sig_script.push(((block_height / 16777216) % 256) as u8);
        assert(sig_script@ =~= u32_le_bytes(block_height));
        while sig_script.len() > 0 && sig_script[sig_script.len() - 1] == 0
            invariant
                sig_script@.len() <= 4,
                strip_trailing_zeros(sig_script@) == coinbase_height_bytes(block_height),
            decreases sig_script@.len(),
        {
            sig_script.pop();
        }
        assert(sig_script@.len() <= 4);
        assert(sig_script@ == coinbase_height_bytes(block_height));
        let script_bytes = sig_script.len() as u16;
        let input = Input { previous_output, script_bytes, sig_script, sequence: u32::MAX };
        let mut tx_in: Vec<Input> = Vec::new();
        tx_in.push(input);
        let mut tx_out: Vec<Output> = Vec::new();
        tx_out.push(Output::create(coinbase_amount, receiver_pkhash));
        let r = Self { version: VERSION, tx_in_count: 1, tx_in, tx_out_count: 1, tx_out, lock_time: 0 };
        assert(r@.tx_in =~= coinbase_tx(receiver_pkhash@, block_height, coinbase_amount).tx_in);
        assert(r@.tx_out =~= coinbase_tx(receiver_pkhash@, block_height, coinbase_amount).tx_out);
        r
    }
}

impl Transaction {
    /// A regular transaction over the given inputs and outputs, version
    /// fixed and lock time zero.
    pub fn new(tx_in: Vec<Input>, tx_out: Vec<Output>) -> (r: Self)
        ensures
            r@.version == VERSION,
            r@.tx_in_count == tx_in@.len() as u16,
            r@.tx_in == tx_in@.map_values(|i: Input| i@),
            r@.tx_out_count == tx_out@.len() as u16,
            r@.tx_out == tx_out@.map_values(|o: Output| o@),
            r@.lock_time == 0,
    {
        let tx_in_count = tx_in.len() as u16;
        let tx_out_count = tx_out.len() as u16;
        Self { version: VERSION, tx_in_count, tx_in, tx_out_count, tx_out, lock_time: 0 }
    }

    /// The identity hash: double SHA-256 of the canonical serialization of
    /// version, input count, all inputs, and all outputs.
    pub fn hash(&self) -> (r: Vec<u8>)
        ensures
            r@ == tx_hash_of(self@),
            r@.len() == 32,
    {
        let mut buf: Vec<u8> = Vec::new();
        let mut version_dec = u64_to_dec(self.version as u64);
        buf.append(&mut version_dec);
        let mut count_dec = u64_to_dec(self.tx_in_count as u64);
        buf.append(&mut count_dec);
        let ghost head = dec_digits(self@.version as nat) + dec_digits(self@.tx_in_count as nat);
        assert(buf@ =~= head);
        let n_in = self.tx_in.len();
        assert(self@.tx_in.take(0) =~= Seq::<InputV>::empty());
        for i in 0..n_in
            invariant
                n_in == self.tx_in@.len(),
                self@.tx_in.len() == n_in,
                buf@ == head + inputs_preimage_all(self@.tx_in.take(i as int)),
        {
            assert(self@.tx_in[i as int] == self.tx_in@[i as int]@);
            self.tx_in[i].append_preimage(&mut buf, true);
            proof {
                lemma_inputs_preimage_all_step(self@.tx_in, i as int);
                assert(buf@ =~= head + inputs_preimage_all(self@.tx_in.take(i + 1)));
            }
        }
        assert(self@.tx_in.take(n_in as int) =~= self@.tx_in);
        let ghost mid = head + inputs_preimage_all(self@.tx_in);
        let n_out = self.tx_out.len();
        assert(self@.tx_out.take(0) =~= Seq::<OutputV>::empty());
        assert(buf@ =~= mid + outputs_preimage(self@.tx_out.take(0)));
        for i in 0..n_out
            invariant
                n_out == self.tx_out@.len(),
                self@.tx_out.len() == n_out,
                buf@ == mid + outputs_preimage(self@.tx_out.take(i as int)),
        {
            assert(self@.tx_out[i as int] == self.tx_out@[i as int]@);
            self.tx_out[i].append_preimage(&mut buf);
            proof {
                lemma_outputs_preimage_step(self@.tx_out, i as int);
                assert(buf@ =~= mid + outputs_preimage(self@.tx_out.take(i + 1)));
            }
        }
        assert(self@.tx_out.take(n_out as int) =~= self@.tx_out);
        assert(buf@ =~= tx_preimage(self@));
        let first = sha256(buf.as_slice());
        sha256(first.as_slice())
    }

    /// The signature hash for the input at `index`: as the identity hash,
    /// but with every other input's unlocking script blanked and the
    /// sighash-type digit appended.
    pub fn hash_one(&self, index: usize) -> (r: Vec<u8>)
        requires
            index < self@.tx_in.len(),
        ensures
            r@ == tx_sighash_of(self@, index as int),
            r@.len() == 32,
    {
        let mut buf: Vec<u8> = Vec::new();
        let mut version_dec = u64_to_dec(self.version as u64);
        buf.append(&mut version_dec);
        let mut count_dec = u64_to_dec(self.tx_in_count as u64);
        buf.append(&mut count_dec);
        let ghost head = dec_digits(self@.version as nat) + dec_digits(self@.tx_in_count as nat);
        assert(buf@ =~= head);
        let n_in = self.tx_in.len();
        assert(self@.tx_in.take(0) =~= Seq::<InputV>::empty());
        for i in 0..n_in
            invariant
                n_in == self.tx_in@.len(),
                self@.tx_in.len() == n_in,
                buf@ == head + inputs_preimage_signed(self@.tx_in.take(i as int), index as int),
        {
            assert(self@.tx_in[i as int] == self.tx_in@[i as int]@);
            self.tx_in[i].append_preimage(&mut buf, i == index);
            proof {
                lemma_inputs_preimage_signed_step(self@.tx_in, index as int, i as int);
                assert(buf@ =~= head + inputs_preimage_signed(
                    self@.tx_in.take(i + 1),
                    index as int,
                ));
            }
        }
        assert(self@.tx_in.take(n_in as int) =~= self@.tx_in);
        let ghost mid = head + inputs_preimage_signed(self@.tx_in, index as int);
        let n_out = self.tx_out.len();
        assert(self@.tx_out.take(0) =~= Seq::<OutputV>::empty());
        assert(buf@ =~= mid + outputs_preimage(self@.tx_out.take(0)));
        for i in 0..n_out
            invariant
                n_out == self.tx_out@.len(),
                self@.tx_out.len() == n_out,
                buf@ == mid + outputs_preimage(self@.tx_out.take(i as int)),
        {
            assert(self@.tx_out[i as int] == self.tx_out@[i as int]@);
            self.tx_out[i].append_preimage(&mut buf);
            proof {
                lemma_outputs_preimage_step(self@.tx_out, i as int);
                assert(buf@ =~= mid + outputs_preimage(self@.tx_out.take(i + 1)));
            }
        }
        assert(self@.tx_out.take(n_out as int) =~= self@.tx_out);
        let mut sighash_dec = u64_to_dec(SIGHASH_ALL as u64);
        buf.append(&mut sighash_dec);
        assert(buf@ =~= tx_sighash_preimage(self@, index as int));
        let first = sha256(buf.as_slice());
        sha256(first.as_slice())
    }

    /// The signature hash of every input, in input order.
    pub fn hash_all(&self) -> (r: Vec<Vec<u8>>)
        ensures
            r@.len() == self@.tx_in.len(),
            forall|j: int| 0 <= j < r@.len() ==> (#[trigger] r@[j])@ == tx_sighash_of(self@, j),
            forall|j: int| 0 <= j < r@.len() ==> (#[trigger] r@[j])@.len() == 32,
    {
        let mut hashes: Vec<Vec<u8>> = Vec::new();
        let n = self.tx_in.len();
        for i in 0..n
            invariant
                n == self.tx_in@.len(),
                self@.tx_in.len() == n,
                hashes@.len() == i,
                forall|j: int|
                    0 <= j < i ==> (#[trigger] hashes@[j])@ == tx_sighash_of(self@, j),
                forall|j: int| 0 <= j < i ==> (#[trigger] hashes@[j])@.len() == 32,
        {
            hashes.push(self.hash_one(i));
        }
        hashes
    }

    /// The signed unlocking script for a signature and public key, in the
    /// fixed binary layout.
    pub fn calculate_sig_script(signature: &[u8], pub_key: &[u8]) -> (r: Vec<u8>)
        requires
            signature@.len() + 1 <= 255,
            pub_key@.len() <= 255,
        ensures
            r@ == sig_script_bytes(signature@, pub_key@),
    {
        let mut sig_script: Vec<u8> = Vec::new();
        sig_script.push((signature.len() + 1) as u8);
        sig_script.extend_from_slice(signature);
        sig_script.push(SIGHASH_ALL);
        sig_script.push(pub_key.len() as u8);
        sig_script.extend_from_slice(pub_key);
        assert(sig_script@ =~= sig_script_bytes(signature@, pub_key@));
        sig_script
    }

    /// Signs every input: computes each input's signature hash, signs it
    /// with the external signer, and writes the signature-and-pubkey
    /// encoding into that input's unlocking script. On success every input
    /// holds the deterministic signature over its original sighash; on a
    /// signing failure earlier inputs may already be signed.
    pub fn sign(&mut self, private_key: &[u8]) -> (r: Result<(), RitCoinErrror>)
        ensures
            final(self)@.version == old(self)@.version,
            final(self)@.tx_in_count == old(self)@.tx_in_count,
            final(self)@.tx_out_count == old(self)@.tx_out_count,
            final(self)@.tx_out == old(self)@.tx_out,
            final(self)@.lock_time == old(self)@.lock_time,
            final(self)@.tx_in.len() == old(self)@.tx_in.len(),
            forall|j: int|
                0 <= j < old(self)@.tx_in.len() ==> {
                    let iv = #[trigger] final(self)@.tx_in[j];
                    let ov = old(self)@.tx_in[j];
                    &&& iv.previous_output == ov.previous_output
                    &&& iv.sequence == ov.sequence
                },
            r is Ok <==> (old(self)@.tx_in.len() == 0 || seckey_wf(private_key@)),
            r is Ok ==> forall|j: int|
                0 <= j < old(self)@.tx_in.len() ==> {
                    let iv = #[trigger] final(self)@.tx_in[j];
                    let sig = sig_der_of(tx_sighash_of(old(self)@, j), private_key@);
                    let script = sig_script_bytes(sig, pubkey_uncompressed_of(private_key@));
                    &&& iv.sig_script == script
                    &&& iv.script_bytes == script.len()
                },
            r is Ok ==> forall|j: int|
                0 <= j < old(self)@.tx_in.len() ==> {
                    let h = #[trigger] tx_sighash_of(old(self)@, j);
                    let sig = sig_der_of(h, private_key@);
                    &&& sig.len() <= 72
                    &&& sig_valid(h, sig, pubkey_uncompressed_of(private_key@))
                },
            r is Ok && old(self)@.tx_in.len() > 0 ==> pubkey_uncompressed_of(
                private_key@,
            ).len() == 65,
            r matches Err(e) ==> e is CryptoError,
    {
        let hashes = self.hash_all();
        let n = self.tx_in.len();
        let ghost orig = self@;
        for i in 0..n
            invariant
                orig == old(self)@,
                n == self.tx_in@.len(),
                hashes@.len() == n,
                orig.tx_in.len() == n,
                forall|j: int| 0 <= j < n ==> (#[trigger] hashes@[j])@ == tx_sighash_of(orig, j),
                forall|j: int| 0 <= j < n ==> (#[trigger] hashes@[j])@.len() == 32,
                self@.version == orig.version,
                self@.tx_in_count == orig.tx_in_count,
                self@.tx_out_count == orig.tx_out_count,
                self@.tx_out == orig.tx_out,
                self@.lock_time == orig.lock_time,
                self@.tx_in.len() == n,
                forall|j: int|
                    0 <= j < n ==> {
                        let iv = #[trigger] self@.tx_in[j];
                        let ov = orig.tx_in[j];
                        &&& iv.previous_output == ov.previous_output
                        &&& iv.sequence == ov.sequence
                    },
                forall|j: int|
                    0 <= j < i ==> {
                        let iv = #[trigger] self@.tx_in[j];
                        let sig = sig_der_of(tx_sighash_of(orig, j), private_key@);
                        let script = sig_script_bytes(sig, pubkey_uncompressed_of(private_key@));
                        &&& iv.sig_script == script
                        &&& iv.script_bytes == script.len()
                    },
                forall|j: int|
                    0 <= j < i ==> {
                        let h = #[trigger] tx_sighash_of(orig, j);
                        let sig = sig_der_of(h, private_key@);
                        &&& sig.len() <= 72
                        &&& sig_valid(h, sig, pubkey_uncompressed_of(private_key@))
                    },
                i > 0 ==> seckey_wf(private_key@) && pubkey_uncompressed_of(private_key@).len()
                    == 65,
        {
            assert(hashes@[i as int]@.len() == 32);
            let (signature, pub_key) = match wallet_sign(hashes[i].as_slice(), private_key) {
                Ok(p) => p,
                Err(e) => {
                    assert(!seckey_wf(private_key@));
                    return Err(e);
                },
            };
            let sig_script = Self::calculate_sig_script(
                signature.as_slice(),
                pub_key.as_slice(),
            );
            let script_bytes = sig_script.len() as u16;
            let old_input = &self.tx_in[i];
            let new_input = Input {
                previous_output: OutPoint {
                    tx_id: old_input.previous_output.tx_id.clone(),
                    index: old_input.previous_output.index,
                },
                script_bytes,
                sig_script,
                sequence: old_input.sequence,
            };
            assert(new_input@.previous_output.tx_id =~= self@.tx_in[i as int].previous_output.tx_id);
            let ghost nv = new_input@;
            let ghost pre_tx_in = self@.tx_in;
            self.tx_in.set(i, new_input);
            assert(self@.tx_in =~= pre_tx_in.update(i as int, nv));
        }
        Ok(())
    }

    /// The signature hashes that were covered at signing time: every input's
    /// unlocking script replaced by the locking script of the UTXO it
    /// spends (recovered from `utxos`), then hashed per input.
    pub fn get_original_hashes(&self, utxos: &Vec<Utxo>) -> (r: Vec<Vec<u8>>)
        ensures
            r@.len() == self@.tx_in.len(),
            forall|j: int|
                0 <= j < r@.len() ==> (#[trigger] r@[j])@ == tx_sighash_of(
                    substituted_tx(self@, utxos@.map_values(|u: Utxo| u@)),
                    j,
                ),
    {
        let ghost uv = utxos@.map_values(|u: Utxo| u@);
        let mut transaction = self.clone();
        let n = transaction.tx_in.len();
        assert(transaction@.tx_in =~= self@.tx_in);
        for i in 0..n
            invariant
                uv == utxos@.map_values(|u: Utxo| u@),
                n == transaction.tx_in@.len(),
                transaction@.tx_in.len() == n,
                self@.tx_in.len() == n,
                transaction@.version == self@.version,
                transaction@.tx_in_count == self@.tx_in_count,
                transaction@.tx_out_count == self@.tx_out_count,
                transaction@.tx_out == self@.tx_out,
                transaction@.lock_time == self@.lock_time,
                forall|j: int|
                    0 <= j < i ==> #[trigger] transaction@.tx_in[j] == substitute_input(
                        self@.tx_in[j],
                        uv,
                    ),
                forall|j: int|
                    i <= j < n ==> #[trigger] transaction@.tx_in[j] == self@.tx_in[j],
        {
            let data = UtxoSet::get_validation_data(
                utxos,
                transaction.tx_in[i].get_previous_output().get_tx_id(),
                transaction.tx_in[i].get_previous_output().get().1,
            );
            let ghost cur = self@.tx_in[i as int];
            proof {
                assert(transaction.tx_in@[i as int]@ == transaction@.tx_in[i as int]);
                assert(transaction@.tx_in[i as int] == cur);
                lemma_find_utxo_is_element(uv, cur.previous_output.tx_id, cur.previous_output.index);
            }
            if let Some((script_pubkey, _amount)) = data {
                let script_bytes = script_pubkey.len() as u16;
                let old_in = &transaction.tx_in[i];
                assert(old_in@ == cur);
                let new_in = Input {
                    previous_output: old_in.previous_output.clone(),
                    script_bytes,
                    sig_script: script_pubkey,
                    sequence: old_in.sequence,
                };
                assert(new_in@ == substitute_input(cur, uv));
                let ghost pre = transaction@.tx_in;
                transaction.tx_in.set(i, new_in);
                assert(transaction@.tx_in =~= pre.update(i as int, new_in@));
            } else {
                assert(transaction@.tx_in[i as int] == substitute_input(cur, uv));
            }
        }
        assert(transaction@ == substituted_tx(self@, uv)) by {
            assert(transaction@.tx_in =~= substituted_tx(self@, uv).tx_in);
        }
        transaction.hash_all()
    }

    /// Validates the transaction against the supplied UTXOs: every input
    /// must reference a known UTXO and carry an unlocking script that
    /// satisfies that UTXO's locking script over the recomputed signing-time
    /// sighash, and the spent inputs must cover the outputs. Fails with an
    /// unknown-UTXO error, the script's own error, or an
    /// insufficient-input-funds error, at the first violation in input
    /// order.
    pub fn validate(&self, utxos: &Vec<Utxo>) -> (r: Result<(), RitCoinErrror>)
        ensures
            r is Ok <==> check_tx(self@, utxos@.map_values(|u: Utxo| u@)) == TxCheck::Valid,
            r matches Err(e) ==> {
                let c = check_tx(self@, utxos@.map_values(|u: Utxo| u@));
                &&& c != TxCheck::Valid
                &&& c == TxCheck::UnknownUtxo ==> e is UnknownUtxo
                &&& c == TxCheck::ScriptFail ==> (e is ScriptError || e is CryptoError)
                &&& c == TxCheck::Insufficient ==> e is InsufficientInputFunds
            },
    {
        let ghost uv = utxos@.map_values(|u: Utxo| u@);
        let mut inputs_sum: u128 = 0;
        let hashes = self.get_original_hashes(utxos);
        let n = self.tx_in.len();
        assert(self@.tx_in.take(0) =~= Seq::<InputV>::empty());
        for i in 0..n
            invariant
                uv == utxos@.map_values(|u: Utxo| u@),
                n == self.tx_in@.len(),
                self@.tx_in.len() == n,
                hashes@.len() == n,
                forall|j: int|
                    0 <= j < n ==> (#[trigger] hashes@[j])@ == tx_sighash_of(
                        substituted_tx(self@, uv),
                        j,
                    ),
                first_input_problem(self@, uv, 0) == first_input_problem(self@, uv, i as int),
                inputs_sum == inputs_amount_sum(self@.tx_in.take(i as int), uv),
                inputs_sum <= i as int * 0xffff_ffff_ffff_ffffu64 as int,
        {
            let ghost cur = self@.tx_in[i as int];
            let data = UtxoSet::get_validation_data(
                utxos,
                self.tx_in[i].get_previous_output().get_tx_id(),
                self.tx_in[i].get_previous_output().get().1,
            );
            match data {
                None => {
                    assert(first_input_problem(self@, uv, i as int) == TxCheck::UnknownUtxo);
                    return Err(
                        RitCoinErrror::UnknownUtxo(
                            "input references no known unspent output".to_string(),
                        ),
                    );
                },
                Some((script_pubkey, amount)) => {
                    proof {
                        lemma_inputs_amount_sum_step(self@.tx_in, uv, i as int);
                        assert((i as int + 1) * 0xffff_ffff_ffff_ffffu64 as int == i as int
                            * 0xffff_ffff_ffff_ffffu64 as int + 0xffff_ffff_ffff_ffffu64 as int)
                            by (nonlinear_arith);
                        assert(i as int * 0xffff_ffff_ffff_ffffu64 as int <= (
                        0xffff_ffff_ffff_ffffu64 as int) * (0xffff_ffff_ffff_ffffu64 as int))
                            by (nonlinear_arith)
                            requires 0 <= i as int <= 0xffff_ffff_ffff_ffffu64 as int,
                        ;
                    }
                    inputs_sum = inputs_sum + amount as u128;
                    match execute(
                        self.tx_in[i].get_sig_script(),
                        script_pubkey.as_slice(),
                        hashes[i].as_slice(),
                    ) {
                        Ok(()) => {
                            assert(first_input_problem(self@, uv, i as int)
                                == first_input_problem(self@, uv, i as int + 1));
                        },
                        Err(e) => {
                            assert(first_input_problem(self@, uv, i as int) == TxCheck::ScriptFail);
                            return Err(e);
                        },
                    }
                },
            }
        }
        assert(self@.tx_in.take(n as int) =~= self@.tx_in);
        assert(first_input_problem(self@, uv, n as int) == TxCheck::Valid);
        let mut outputs_sum: u128 = 0;
        let m = self.tx_out.len();
        assert(self@.tx_out.take(0) =~= Seq::<OutputV>::empty());
        for i in 0..m
            invariant
                m == self.tx_out@.len(),
                self@.tx_out.len() == m,
                outputs_sum == outputs_amount_sum(self@.tx_out.take(i as int)),
                outputs_sum <= i as int * 0xffff_ffff_ffff_ffffu64 as int,
        {
            proof {
                lemma_outputs_amount_sum_step(self@.tx_out, i as int);
                assert((i as int + 1) * 0xffff_ffff_ffff_ffffu64 as int == i as int
                    * 0xffff_ffff_ffff_ffffu64 as int + 0xffff_ffff_ffff_ffffu64 as int)
                    by (nonlinear_arith);
                assert(i as int * 0xffff_ffff_ffff_ffffu64 as int <= (0xffff_ffff_ffff_ffffu64
                    as int) * (0xffff_ffff_ffff_ffffu64 as int)) by (nonlinear_arith)
                    requires 0 <= i as int <= 0xffff_ffff_ffff_ffffu64 as int,
                ;
            }
            outputs_sum = outputs_sum + self.tx_out[i].get_amount() as u128;
        }
        assert(self@.tx_out.take(m as int) =~= self@.tx_out);
        if inputs_sum >= outputs_sum {
            Ok(())
        } else {
            Err(
                RitCoinErrror::InsufficientInputFunds(
                    "sum of all inputs is less than sum of outputs".to_string(),
                ),
            )
        }
    }

    /// Checks the scripts of the inputs that resolve in `utxos`, skipping
    /// the rest: a looser check than `validate`, with neither the
    /// every-input-must-resolve demand nor the funds comparison.
    pub fn verify(&self, utxos: &Vec<Utxo>) -> (r: Result<(), RitCoinErrror>)
        ensures
            r is Ok <==> resolved_scripts_ok(self@, utxos@.map_values(|u: Utxo| u@), 0),
            r matches Err(e) ==> (e is ScriptError || e is CryptoError),
    {
        let ghost uv = utxos@.map_values(|u: Utxo| u@);
        let hashes = self.get_original_hashes(utxos);
        let n = self.tx_in.len();
        for i in 0..n
            invariant
                uv == utxos@.map_values(|u: Utxo| u@),
                n == self.tx_in@.len(),
                self@.tx_in.len() == n,
                hashes@.len() == n,
                forall|j: int|
                    0 <= j < n ==> (#[trigger] hashes@[j])@ == tx_sighash_of(
                        substituted_tx(self@, uv),
                        j,
                    ),
                resolved_scripts_ok(self@, uv, 0) == resolved_scripts_ok(self@, uv, i as int),
        {
            let data = UtxoSet::get_validation_data(
                utxos,
                self.tx_in[i].get_previous_output().get_tx_id(),
                self.tx_in[i].get_previous_output().get().1,
            );
            match data {
                None => {
                    assert(resolved_scripts_ok(self@, uv, i as int) == resolved_scripts_ok(
                        self@,
                        uv,
                        i as int + 1,
                    ));
                },
                Some((script_pubkey, _amount)) => {
                    match execute(
                        self.tx_in[i].get_sig_script(),
                        script_pubkey.as_slice(),
                        hashes[i].as_slice(),
                    ) {
                        Ok(()) => {
                            assert(resolved_scripts_ok(self@, uv, i as int)
                                == resolved_scripts_ok(self@, uv, i as int + 1));
                        },
                        Err(e) => {
                            assert(!resolved_scripts_ok(self@, uv, i as int));
                            return Err(e);
                        },
                    }
                },
            }
        }
        Ok(())
    }

    /// The distinct public keys of this transaction's signed inputs (those
    /// whose unlocking script holds at least the 65 public key bytes), in
    /// first-occurrence order.
    pub fn get_pub_keys_from_inputs(&self) -> (r: Vec<Vec<u8>>)
        ensures
            r@.map_values(|x: Vec<u8>| x@) == fold_input_pubkeys(Seq::empty(), self@.tx_in),
            forall|a: int, b: int| 0 <= a < b < r@.len() ==> (#[trigger] r@[a])@ != (
            #[trigger] r@[b])@,
            forall|a: int| 0 <= a < r@.len() ==> tx_pubkeys(self@).contains((#[trigger] r@[a])@),
            forall|x: Seq<u8>|
                tx_pubkeys(self@).contains(x) ==> exists|a: int|
                    0 <= a < r@.len() && (#[trigger] r@[a])@ == x,
    {
        let mut pub_keys: Vec<Vec<u8>> = Vec::new();
        let n = self.tx_in.len();
        assert(self@.tx_in.take(0) =~= Seq::<InputV>::empty());
        assert(pub_keys@.map_values(|x: Vec<u8>| x@) =~= fold_input_pubkeys(
            Seq::empty(),
            self@.tx_in.take(0),
        ));
        for i in 0..n
            invariant
                n == self.tx_in@.len(),
                self@.tx_in.len() == n,
                pub_keys@.map_values(|x: Vec<u8>| x@) == fold_input_pubkeys(
                    Seq::empty(),
                    self@.tx_in.take(i as int),
                ),
                forall|a: int, b: int|
                    0 <= a < b < pub_keys@.len() ==> (#[trigger] pub_keys@[a])@ != (
                    #[trigger] pub_keys@[b])@,
                forall|a: int|
                    0 <= a < pub_keys@.len() ==> tx_pubkeys(self@).contains((
                    #[trigger] pub_keys@[a])@),
                forall|j: int|
                    0 <= j < i && (#[trigger] self@.tx_in[j]).sig_script.len() >= 65
                        ==> exists|a: int|
                        0 <= a < pub_keys@.len() && (#[trigger] pub_keys@[a])@ == input_pubkey(
                            self@.tx_in[j],
                        ),
        {
            let ghost pre_map = pub_keys@.map_values(|x: Vec<u8>| x@);
            let ghost pre_vec = pub_keys@;
            if self.tx_in[i].get_sig_script().len() >= 65 {
                let pk = self.tx_in[i].get_public_key();
                assert(pk@ == input_pubkey(self@.tx_in[i as int]));
                assert(tx_pubkeys(self@).contains(pk@));
                if !contains_bytes(&pub_keys, pk) {
                    let mut owned: Vec<u8> = Vec::new();
                    owned.extend_from_slice(pk);
                    assert(owned@ =~= pk@);
                    let ghost pre_keys = pub_keys@;
                    pub_keys.push(owned);
                    assert(pub_keys@.map_values(|x: Vec<u8>| x@) =~= pre_map.push(pk@));
                    proof {
                        assert((pub_keys@[pub_keys@.len() - 1])@ == input_pubkey(
                            self@.tx_in[i as int],
                        ));
                        assert forall|j2: int|
                            0 <= j2 < i + 1 && (#[trigger] self@.tx_in[j2]).sig_script.len()
                                >= 65 implies exists|a: int|
                            0 <= a < pub_keys@.len() && (#[trigger] pub_keys@[a])@ == input_pubkey(
                                self@.tx_in[j2],
                            ) by {
                            if j2 == i {
                                assert(pub_keys@[pub_keys@.len() - 1]@ == input_pubkey(
                                    self@.tx_in[j2],
                                ));
                            } else {
                                let a = choose|a: int|
                                    0 <= a < pre_keys.len() && (#[trigger] pre_keys[a])@
                                        == input_pubkey(self@.tx_in[j2]);
                                assert(pub_keys@[a]@ == input_pubkey(self@.tx_in[j2]));
                            }
                        }
                    }
                }
            }
            proof {
                assert(self@.tx_in.take(i + 1).drop_last() =~= self@.tx_in.take(i as int));
                assert(self@.tx_in.take(i + 1).last() == self@.tx_in[i as int]);
                if self@.tx_in[i as int].sig_script.len() >= 65 {
                    if pre_map.contains(input_pubkey(self@.tx_in[i as int])) {
                        assert(pub_keys@.map_values(|x: Vec<u8>| x@) =~= dedup_push(
                            pre_map,
                            input_pubkey(self@.tx_in[i as int]),
                        )) by {
                            let k = choose|k: int|
                                0 <= k < pre_map.len() && pre_map[k] == input_pubkey(
                                    self@.tx_in[i as int],
                                );
                            assert(pub_keys@[k]@ == input_pubkey(self@.tx_in[i as int]));
                        }
                    } else {
                        let ip = input_pubkey(self@.tx_in[i as int]);
                        assert(forall|k: int|
                            0 <= k < pre_vec.len() ==> (#[trigger] pre_vec[k])@ != ip) by {
                            assert(forall|k: int|
                                0 <= k < pre_vec.len() ==> (#[trigger] pre_vec[k])@ == pre_map[k]);
                        }
                        assert(pub_keys@.map_values(|x: Vec<u8>| x@) =~= pre_map.push(ip));
                        assert(pub_keys@.map_values(|x: Vec<u8>| x@) =~= dedup_push(pre_map, ip));
                    }
                }
                assert(pub_keys@.map_values(|x: Vec<u8>| x@) =~= fold_input_pubkeys(
                    Seq::empty(),
                    self@.tx_in.take(i + 1),
                ));
            }
        }
        assert(self@.tx_in.take(n as int) =~= self@.tx_in);
        proof {
            assert forall|x: Seq<u8>| tx_pubkeys(self@).contains(x) implies exists|a: int|
                0 <= a < pub_keys@.len() && (#[trigger] pub_keys@[a])@ == x by {
                let j = choose|j: int|
                    0 <= j < self@.tx_in.len() && (#[trigger] self@.tx_in[j]).sig_script.len()
                        >= 65 && x == input_pubkey(self@.tx_in[j]);
            }
        }
        pub_keys
    }

    pub fn get_version(&self) -> (r: u32)
        ensures
            r == self@.version,
    {
        self.version
    }

    pub fn get_tx_in_count(&self) -> (r: u16)
        ensures
            r == self@.tx_in_count,
    {
        self.tx_in_count
    }

    pub fn get_tx_out_count(&self) -> (r: u16)
        ensures
            r == self@.tx_out_count,
    {
        self.tx_out_count
    }

    pub fn get_lock_time(&self) -> (r: u32)
        ensures
            r == self@.lock_time,
    {
        self.lock_time
    }

    /// A transaction assembled from its decoded parts.
    pub fn from_parts(
        version: u32,
        tx_in_count: u16,
        tx_in: Vec<Input>,
        tx_out_count: u16,
        tx_out: Vec<Output>,
        lock_time: u32,
    ) -> (r: Self)
        ensures
            r@ == (TransactionV {
                version,
                tx_in_count,
                tx_in: tx_in@.map_values(|i: Input| i@),
                tx_out_count,
                tx_out: tx_out@.map_values(|o: Output| o@),
                lock_time,
            }),
    {
        Self { version, tx_in_count, tx_in, tx_out_count, tx_out, lock_time }
    }

    /// Any transaction held in memory fits the wire format's length
    /// prefixes: every byte field and list is at most `usize` long.
    pub proof fn lemma_fits(&self)
        ensures
            crate::serializer::tx_fits(self@),
    {
        assert(self.tx_in.len() == self@.tx_in.len());
        assert(self.tx_out.len() == self@.tx_out.len());
        assert forall|j: int| 0 <= j < self@.tx_in.len() implies crate::serializer::input_fits(
            #[trigger] self@.tx_in[j],
        ) by {
            let inp = self.tx_in@[j];
            assert(self@.tx_in[j] == inp@);
            assert(inp.previous_output.tx_id.len() == inp@.previous_output.tx_id.len());
            assert(inp.sig_script.len() == inp@.sig_script.len());
        }
        assert forall|j: int| 0 <= j < self@.tx_out.len() implies crate::serializer::output_fits(
            #[trigger] self@.tx_out[j],
        ) by {
            let outp = self.tx_out@[j];
            assert(self@.tx_out[j] == outp@);
            assert(outp.script_pubkey.len() == outp@.script_pubkey.len());
        }
    }

    pub fn get_tx_in(&self) -> (r: &Vec<Input>)
        ensures
            r@.map_values(|i: Input| i@) == self@.tx_in,
    {
        &self.tx_in
    }

    pub fn get_tx_out(&self) -> (r: &Vec<Output>)
        ensures
            r@.map_values(|o: Output| o@) == self@.tx_out,
    {
        &self.tx_out
    }
}

} // verus!
