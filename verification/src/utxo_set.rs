//! The UTXO set: the authoritative index of spendable outputs. Applying a
//! transaction removes the outputs its inputs consume and inserts one UTXO
//! per output it creates; coin selection picks a covering subset for a
//! spend.

use vstd::prelude::*;
use crate::errors::RitCoinErrror;
use crate::transaction::{
    tx_hash_of, Input, InputV, OutPointV, Output, OutputV, Transaction, TransactionV,
};

verus! {

/// A materialized unspent output: the creating transaction, the output's
/// position in it, and the output itself.
pub struct Utxo {
    tx_id: Vec<u8>,
    index: u32,
    output: Output,
}

/// The mathematical value of a `Utxo`.
pub struct UtxoV {
    pub tx_id: Seq<u8>,
    pub index: u32,
    pub output: OutputV,
}

impl View for Utxo {
    type V = UtxoV;

    closed spec fn view(&self) -> UtxoV {
        UtxoV { tx_id: self.tx_id@, index: self.index, output: self.output@ }
    }
}

impl Clone for Utxo {
    fn clone(&self) -> (r: Self)
        ensures
            r@ == self@,
    {
        let tx_id = self.tx_id.clone();
        assert(tx_id@ =~= self.tx_id@);
        Utxo { tx_id, index: self.index, output: self.output.clone() }
    }
}

/// Whether a transaction list references `u`'s outpoint from any input,
/// reserving it against a same-session double spend.
pub open spec fn utxo_locked(u: UtxoV, txs: Seq<TransactionV>) -> bool {
    exists|i: int, j: int|
        0 <= i < txs.len() && 0 <= j < txs[i].tx_in.len() && (#[trigger] txs[i].tx_in[j]).previous_output.tx_id
            == u.tx_id && txs[i].tx_in[j].previous_output.index == u.index
}

impl Utxo {
    pub fn new(tx_id: Vec<u8>, index: u32, output: Output) -> (r: Self)
        ensures
            r@.tx_id == tx_id@,
            r@.index == index,
            r@.output == output@,
    {
        Self { tx_id, index, output }
    }

    pub fn get_output(&self) -> (r: &Output)
        ensures
            r@ == self@.output,
    {
        &self.output
    }

    pub fn get_tx_id(&self) -> (r: &[u8])
        ensures
            r@ == self@.tx_id,
    {
        self.tx_id.as_slice()
    }

    /// An owned copy of the creating transaction's id.
    pub fn get_tx_id_vec(&self) -> (r: Vec<u8>)
        ensures
            r@ == self@.tx_id,
    {
        let r = self.tx_id.clone();
        assert(r@ =~= self@.tx_id);
        r
    }

    pub fn get_index(&self) -> (r: u32)
        ensures
            r == self@.index,
    {
        self.index
    }

    /// Whether any prepared (in-flight) transaction already references this
    /// UTXO's outpoint.
    pub fn is_locked(&self, prepared_transactions: &Vec<Transaction>) -> (r: bool)
        ensures
            r == utxo_locked(self@, prepared_transactions@.map_values(|t: Transaction| t@)),
    {
        let ghost txs = prepared_transactions@.map_values(|t: Transaction| t@);
        let n = prepared_transactions.len();
        for i in 0..n
            invariant
                n == prepared_transactions@.len(),
                txs == prepared_transactions@.map_values(|t: Transaction| t@),
                txs.len() == n,
                forall|a: int, b: int|
                    0 <= a < i && 0 <= b < txs[a].tx_in.len() ==> !((
                    #[trigger] txs[a].tx_in[b]).previous_output.tx_id == self@.tx_id
                        && txs[a].tx_in[b].previous_output.index == self@.index),
        {
            let tx_in = prepared_transactions[i].get_tx_in();
            let m = tx_in.len();
            assert(tx_in@.map_values(|x: Input| x@) == txs[i as int].tx_in);
            for j in 0..m
                invariant
                    m == tx_in@.len(),
                    0 <= i < txs.len(),
                    txs == prepared_transactions@.map_values(|t: Transaction| t@),
                    txs[i as int].tx_in == tx_in@.map_values(|x: Input| x@),
                    txs[i as int].tx_in.len() == m,
                    forall|b: int|
                        0 <= b < j ==> !((#[trigger] txs[i as int].tx_in[b]).previous_output.tx_id
                            == self@.tx_id && txs[i as int].tx_in[b].previous_output.index
                            == self@.index),
            {
                assert(tx_in@[j as int]@ == txs[i as int].tx_in[j as int]);
                let prev = tx_in[j].get_previous_output();
                if prev.get().1 == self.index && slices_equal(prev.get_tx_id(), self.tx_id.as_slice()) {
                    assert(utxo_locked(self@, txs));
                    return true;
                }
            }
        }
        assert(!utxo_locked(self@, txs));
        false
    }
}

/// Whether `pkhash` occurs in `script` as a contiguous byte run.
pub open spec fn script_contains(script: Seq<u8>, pkhash: Seq<u8>) -> bool {
    exists|k: int|
        0 <= k && k + pkhash.len() <= script.len() && #[trigger] script.subrange(
            k,
            k + pkhash.len(),
        ) == pkhash
}

/// Whether `u` is addressed to `pkhash`: its locking script contains the
/// hash as a contiguous byte run.
pub open spec fn utxo_has_pkhash(u: UtxoV, pkhash: Seq<u8>) -> bool {
    script_contains(u.output.script_pubkey, pkhash)
}

/// Whether `u` spends the outpoint `o`.
pub open spec fn utxo_matches(u: UtxoV, o: OutPointV) -> bool {
    u.tx_id == o.tx_id && u.index == o.index
}

/// The set without the first UTXO matching outpoint `o`, unchanged when none
/// matches.
pub open spec fn remove_first_match(s: Seq<UtxoV>, o: OutPointV) -> Seq<UtxoV>
    decreases s.len(),
{
    if s.len() == 0 {
        s
    } else if utxo_matches(s[0], o) {
        s.drop_first()
    } else {
        seq![s[0]] + remove_first_match(s.drop_first(), o)
    }
}

/// The set after removing, in input order, the first match of every input's
/// outpoint.
pub open spec fn remove_all_inputs(s: Seq<UtxoV>, ins: Seq<InputV>) -> Seq<UtxoV>
    decreases ins.len(),
{
    if ins.len() == 0 {
        s
    } else {
        remove_first_match(remove_all_inputs(s, ins.drop_last()), ins.last().previous_output)
    }
}

/// The UTXOs that the outputs of transaction `tx_id` create, in output
/// order.
pub open spec fn added_utxos(tx_id: Seq<u8>, outs: Seq<OutputV>) -> Seq<UtxoV> {
    Seq::new(outs.len(), |i: int| UtxoV { tx_id: tx_id, index: i as u32, output: outs[i] })
}

/// One transaction applied to the set: its consumed UTXOs removed, its
/// outputs inserted under the transaction's hash.
pub open spec fn apply_tx(s: Seq<UtxoV>, t: TransactionV) -> Seq<UtxoV> {
    remove_all_inputs(s, t.tx_in) + added_utxos(tx_hash_of(t), t.tx_out)
}

/// A transaction list applied in order.
pub open spec fn apply_txs(s: Seq<UtxoV>, ts: Seq<TransactionV>) -> Seq<UtxoV>
    decreases ts.len(),
{
    if ts.len() == 0 {
        s
    } else {
        apply_tx(apply_txs(s, ts.drop_last()), ts.last())
    }
}

/// The first UTXO in `s` matching `(tx_id, index)`.
pub open spec fn find_utxo(s: Seq<UtxoV>, tx_id: Seq<u8>, index: u32) -> Option<UtxoV>
    decreases s.len(),
{
    if s.len() == 0 {
        None
    } else if s[0].tx_id == tx_id && s[0].index == index {
        Some(s[0])
    } else {
        find_utxo(s.drop_first(), tx_id, index)
    }
}

/// What `find_utxo` returns is an element of the set matching the key.
pub proof fn lemma_find_utxo_is_element(s: Seq<UtxoV>, tx_id: Seq<u8>, index: u32)
    ensures
        find_utxo(s, tx_id, index) matches Some(u) ==> s.contains(u) && u.tx_id == tx_id
            && u.index == index,
    decreases s.len(),
{
    if s.len() > 0 {
        if !(s[0].tx_id == tx_id && s[0].index == index) {
            lemma_find_utxo_is_element(s.drop_first(), tx_id, index);
            match find_utxo(s.drop_first(), tx_id, index) {
                Some(u) => {
                    let i = choose|i: int|
                        0 <= i < s.drop_first().len() && s.drop_first()[i] == u;
                    assert(s[i + 1] == u);
                },
                None => {},
            }
        }
    }
}

/// In a set whose outpoints are pairwise distinct, looking an element's
/// outpoint up finds that element.
pub proof fn lemma_find_utxo_distinct(s: Seq<UtxoV>, j: int)
    requires
        0 <= j < s.len(),
        forall|a: int, b: int|
            0 <= a < b < s.len() ==> !((#[trigger] s[a]).tx_id == (#[trigger] s[b]).tx_id
                && s[a].index == s[b].index),
    ensures
        find_utxo(s, s[j].tx_id, s[j].index) == Some(s[j]),
    decreases j,
{
    if j == 0 {
    } else {
        assert(!(s[0].tx_id == s[j].tx_id && s[0].index == s[j].index));
        let d = s.drop_first();
        assert(forall|a: int, b: int|
            0 <= a < b < d.len() ==> !((#[trigger] d[a]).tx_id == (#[trigger] d[b]).tx_id
                && d[a].index == d[b].index)) by {
            assert(forall|a: int| 0 <= a < d.len() ==> #[trigger] d[a] == s[a + 1]);
        }
        assert(d[j - 1] == s[j]);
        lemma_find_utxo_distinct(d, j - 1);
    }
}

/// The sum of the UTXOs' amounts, as an unbounded integer.
pub open spec fn sum_amounts(s: Seq<UtxoV>) -> int
    decreases s.len(),
{
    if s.len() == 0 {
        0
    } else {
        sum_amounts(s.drop_last()) + s.last().output.amount
    }
}

/// A prefix sums to no more than the whole: every amount is nonnegative.
pub proof fn lemma_sum_amounts_take_le(s: Seq<UtxoV>, i: int)
    requires
        0 <= i <= s.len(),
    ensures
        sum_amounts(s.take(i)) <= sum_amounts(s),
    decreases s.len() - i,
{
    if i == s.len() {
        assert(s.take(i) =~= s);
    } else {
        lemma_sum_amounts_take_le(s, i + 1);
        assert(s.take(i + 1).drop_last() =~= s.take(i));
        assert(s.take(i + 1).last() == s[i]);
    }
}

/// The step a loop takes when accumulating `sum_amounts` front to back.
pub proof fn lemma_sum_amounts_take_step(s: Seq<UtxoV>, i: int)
    requires
        0 <= i < s.len(),
    ensures
        sum_amounts(s.take(i + 1)) == sum_amounts(s.take(i)) + s[i].output.amount,
{
    assert(s.take(i + 1).drop_last() =~= s.take(i));
    assert(s.take(i + 1).last() == s[i]);
}

// ---------------------------------------------------------------------------
// Coin selection model
// ---------------------------------------------------------------------------

/// The UTXOs a spend may draw on: addressed to `pkhash` and not reserved by
/// a prepared transaction.
pub open spec fn spendable_utxos(s: Seq<UtxoV>, pkhash: Seq<u8>, prepared: Seq<TransactionV>)
    -> Seq<UtxoV> {
    s.filter(|u: UtxoV| utxo_has_pkhash(u, pkhash)).filter(|u: UtxoV| !utxo_locked(u, prepared))
}

/// The first UTXO whose amount equals the target exactly.
pub open spec fn first_exact(s: Seq<UtxoV>, amount: u64) -> Option<UtxoV>
    decreases s.len(),
{
    if s.len() == 0 {
        None
    } else if s[0].output.amount == amount {
        Some(s[0])
    } else {
        first_exact(s.drop_first(), amount)
    }
}

/// The UTXOs individually smaller than the target.
pub open spec fn below_amount(s: Seq<UtxoV>, amount: u64) -> Seq<UtxoV> {
    s.filter(|u: UtxoV| u.output.amount < amount)
}

/// Stable insertion by amount: `u` goes before the first strictly larger
/// element.
pub open spec fn insert_by_amount(u: UtxoV, s: Seq<UtxoV>) -> Seq<UtxoV>
    decreases s.len(),
{
    if s.len() == 0 {
        seq![u]
    } else if u.output.amount < s[0].output.amount {
        seq![u] + s
    } else {
        seq![s[0]] + insert_by_amount(u, s.drop_first())
    }
}

/// The stable ascending-by-amount ordering of `s`.
pub open spec fn sort_by_amount(s: Seq<UtxoV>) -> Seq<UtxoV>
    decreases s.len(),
{
    if s.len() == 0 {
        s
    } else {
        insert_by_amount(s.last(), sort_by_amount(s.drop_last()))
    }
}

/// The first UTXO whose amount exceeds the target; on a sorted sequence,
/// the smallest such.
pub open spec fn first_above(s: Seq<UtxoV>, amount: u64) -> Option<UtxoV>
    decreases s.len(),
{
    if s.len() == 0 {
        None
    } else if s[0].output.amount > amount {
        Some(s[0])
    } else {
        first_above(s.drop_first(), amount)
    }
}

/// The length of the shortest prefix of `s`, no shorter than `k`, whose sum
/// exceeds the target, given no prefix shorter than `k` does.
pub open spec fn first_cover_len(s: Seq<UtxoV>, amount: int, k: int) -> Option<int>
    decreases s.len() - k,
{
    if k < 0 || k > s.len() {
        None
    } else if sum_amounts(s.take(k)) > amount {
        Some(k)
    } else if k == s.len() {
        None
    } else {
        first_cover_len(s, amount, k + 1)
    }
}

/// The deterministic coin-selection rules, tried in order on the spendable
/// candidates: a single exact match; the set of individually smaller UTXOs
/// when it sums exactly to the target; the smallest UTXO exceeding the
/// target; the shortest ascending-by-amount prefix whose sum exceeds the
/// target; otherwise no covering set exists.
pub open spec fn select_utxos(cands: Seq<UtxoV>, amount: u64) -> Option<Seq<UtxoV>> {
    match first_exact(cands, amount) {
        Some(u) => Some(seq![u]),
        None => {
            let below = below_amount(cands, amount);
            if sum_amounts(below) == amount {
                Some(below)
            } else {
                let sorted = sort_by_amount(cands);
                match first_above(sorted, amount) {
                    Some(u) => Some(seq![u]),
                    None => match first_cover_len(sorted, amount as int, 0) {
                        Some(k) => Some(sorted.take(k)),
                        None => None,
                    },
                }
            }
        },
    }
}

/// An ordered collection of UTXOs: exactly one per produced and not yet
/// consumed `(tx_id, index)` when mutated only through `recalculate_utxos`.
pub struct UtxoSet {
    utxos: Vec<Utxo>,
}

impl View for UtxoSet {
    type V = Seq<UtxoV>;

    closed spec fn view(&self) -> Seq<UtxoV> {
        self.utxos@.map_values(|u: Utxo| u@)
    }
}

impl Clone for UtxoSet {
    fn clone(&self) -> (r: Self)
        ensures
            r@ == self@,
    {
        let mut utxos: Vec<Utxo> = Vec::new();
        let n = self.utxos.len();
        for i in 0..n
            invariant
                n == self.utxos@.len(),
                utxos@.len() == i,
                forall|j: int| 0 <= j < i ==> (#[trigger] utxos@[j])@ == self.utxos@[j]@,
        {
            utxos.push(self.utxos[i].clone());
        }
        let r = UtxoSet { utxos };
        assert(r@ =~= self@);
        r
    }
}

impl UtxoSet {
    /// The empty set.
    pub fn new() -> (r: Self)
        ensures
            r@ =~= Seq::<UtxoV>::empty(),
    {
        Self { utxos: Vec::new() }
    }

    /// A set reassembled from received parts.
    pub fn from_parts(utxos: Vec<Utxo>) -> (r: Self)
        ensures
            r@ == utxos@.map_values(|u: Utxo| u@),
    {
        Self { utxos }
    }

    /// The set's UTXOs in order.
    pub fn get_utxos(&self) -> (r: &Vec<Utxo>)
        ensures
            r@.map_values(|u: Utxo| u@) == self@,
    {
        &self.utxos
    }

    /// All UTXOs whose locking script contains `pkhash` as a contiguous byte
    /// run, in set order.
    pub fn by_pkhash(&self, pkhash: &[u8]) -> (r: Vec<Utxo>)
        requires
            pkhash@.len() >= 1,
        ensures
            r@.map_values(|u: Utxo| u@) == self@.filter(|u: UtxoV| utxo_has_pkhash(u, pkhash@)),
    {
        let mut r: Vec<Utxo> = Vec::new();
        let n = self.utxos.len();
        assert(self@.take(0) =~= Seq::<UtxoV>::empty());
        proof {
            reveal(Seq::filter);
        }
        assert(r@.map_values(|u: Utxo| u@) =~= self@.take(0).filter(
            |u: UtxoV| utxo_has_pkhash(u, pkhash@),
        ));
        for i in 0..n
            invariant
                pkhash@.len() >= 1,
                n == self.utxos@.len(),
                self@.len() == n,
                r@.map_values(|u: Utxo| u@) == self@.take(i as int).filter(
                    |u: UtxoV| utxo_has_pkhash(u, pkhash@),
                ),
        {
            let ghost pre = r@.map_values(|u: Utxo| u@);
            assert(self.utxos@[i as int]@ == self@[i as int]);
            let found = contains_subslice(
                self.utxos[i].get_output().get_script_pubkey(),
                pkhash,
            );
            if found {
                r.push(self.utxos[i].clone());
                assert(r@.map_values(|u: Utxo| u@) =~= pre.push(self@[i as int]));
            }
            proof {
                reveal(Seq::filter);
                assert(self@.take(i + 1).drop_last() =~= self@.take(i as int));
                assert(self@.take(i + 1).last() == self@[i as int]);
                assert(r@.map_values(|u: Utxo| u@) =~= self@.take(i + 1).filter(
                    |u: UtxoV| utxo_has_pkhash(u, pkhash@),
                ));
            }
        }
        assert(self@.take(n as int) =~= self@);
        r
    }

    /// The locking script and amount of the first UTXO in `utxos` matching
    /// `(tx_id, index)`, or nothing when none matches.
    pub fn get_validation_data(utxos: &Vec<Utxo>, tx_id: &[u8], index: u32) -> (r: Option<
        (Vec<u8>, u64),
    >)
        ensures
            r is Some <==> find_utxo(utxos@.map_values(|u: Utxo| u@), tx_id@, index) is Some,
            r matches Some(p) ==> (find_utxo(utxos@.map_values(|u: Utxo| u@), tx_id@, index)
                matches Some(u) && p.0@ == u.output.script_pubkey && p.1 == u.output.amount),
    {
        let ghost s = utxos@.map_values(|u: Utxo| u@);
        let n = utxos.len();
        assert(s.skip(0) =~= s);
        for i in 0..n
            invariant
                n == utxos@.len(),
                s == utxos@.map_values(|u: Utxo| u@),
                s.len() == n,
                find_utxo(s, tx_id@, index) == find_utxo(s.skip(i as int), tx_id@, index),
        {
            let ghost rest = s.skip(i as int);
            assert(rest[0] == s[i as int]);
            assert(rest.drop_first() =~= s.skip(i + 1));
            let u = &utxos[i];
            if u.get_index() == index && slices_equal(u.get_tx_id(), tx_id) {
                assert(find_utxo(rest, tx_id@, index) == Some(s[i as int]));
                return Some((u.get_output().get_script_pubkey_vec(), u.get_output().get_amount()));
            }
            assert(s[i as int].tx_id != tx_id@ || s[i as int].index != index);
        }
        assert(s.skip(n as int) =~= Seq::<UtxoV>::empty());
        None
    }

    /// Removes the first UTXO matching `input`'s outpoint, if any.
    pub fn remove(&mut self, input: &Input)
        ensures
            final(self)@ == remove_first_match(old(self)@, input@.previous_output),
    {
        let ghost o = input@.previous_output;
        let n = self.utxos.len();
        let prev = input.get_previous_output();
        for i in 0..n
            invariant
                n == self.utxos@.len(),
                self@.len() == n,
                self@ == old(self)@,
                prev@ == o,
                o == input@.previous_output,
                forall|j: int| 0 <= j < i ==> !utxo_matches(self@[j], o),
        {
            assert(self.utxos@[i as int]@ == self@[i as int]);
            let u = &self.utxos[i];
            if u.get_index() == prev.get().1 && slices_equal(u.get_tx_id(), prev.get_tx_id()) {
                assert(utxo_matches(self@[i as int], o));
                let ghost pre = self@;
                self.utxos.remove(i);
                assert(self@ =~= pre.remove(i as int));
                proof {
                    lemma_remove_first_match_at(pre, o, i as int);
                }
                return ;
            }
            assert(!utxo_matches(self@[i as int], o));
        }
        proof {
            lemma_remove_first_match_none(self@, o);
        }
    }

    /// Removes every UTXO that the inputs consume, in input order.
    pub fn remove_used(&mut self, tx_in: &Vec<Input>)
        ensures
            final(self)@ == remove_all_inputs(old(self)@, tx_in@.map_values(|i: Input| i@)),
    {
        let ghost ins = tx_in@.map_values(|i: Input| i@);
        let n = tx_in.len();
        assert(ins.take(0) =~= Seq::<InputV>::empty());
        for i in 0..n
            invariant
                n == tx_in@.len(),
                ins == tx_in@.map_values(|i: Input| i@),
                ins.len() == n,
                self@ == remove_all_inputs(old(self)@, ins.take(i as int)),
        {
            self.remove(&tx_in[i]);
            proof {
                assert(ins.take(i + 1).drop_last() =~= ins.take(i as int));
                assert(ins.take(i + 1).last() == ins[i as int]);
            }
        }
        assert(ins.take(n as int) =~= ins);
    }

    /// Inserts one UTXO per output, keyed by the creating transaction's hash
    /// and the output's position.
    pub fn add_unspent(&mut self, tx_out: &Vec<Output>, tx_id: Vec<u8>)
        ensures
            final(self)@ == old(self)@ + added_utxos(tx_id@, tx_out@.map_values(|o: Output| o@)),
    {
        let ghost outs = tx_out@.map_values(|o: Output| o@);
        let n = tx_out.len();
        for i in 0..n
            invariant
                n == tx_out@.len(),
                outs == tx_out@.map_values(|o: Output| o@),
                outs.len() == n,
                self@ =~= old(self)@ + added_utxos(tx_id@, outs).take(i as int),
        {
            let id_copy = tx_id.clone();
            assert(id_copy@ =~= tx_id@);
            let utxo = Utxo::new(id_copy, i as u32, tx_out[i].clone());
            let ghost pre = self@;
            self.utxos.push(utxo);
            assert(self@ =~= pre.push(utxo@));
            assert(utxo@ == added_utxos(tx_id@, outs)[i as int]);
            assert(self@ =~= old(self)@ + added_utxos(tx_id@, outs).take(i + 1));
        }
        assert(added_utxos(tx_id@, outs).take(n as int) =~= added_utxos(tx_id@, outs));
    }

    /// Applies each transaction in order: removes what its inputs consume,
    /// then inserts its outputs under the transaction's hash. The only
    /// mutation path of the set.
    pub fn recalculate_utxos(&mut self, transactions: &Vec<Transaction>)
        ensures
            final(self)@ == apply_txs(old(self)@, transactions@.map_values(|t: Transaction| t@)),
    {
        let ghost ts = transactions@.map_values(|t: Transaction| t@);
        let n = transactions.len();
        assert(ts.take(0) =~= Seq::<TransactionV>::empty());
        for i in 0..n
            invariant
                n == transactions@.len(),
                ts == transactions@.map_values(|t: Transaction| t@),
                ts.len() == n,
                self@ == apply_txs(old(self)@, ts.take(i as int)),
        {
            let tx = &transactions[i];
            assert(tx@ == ts[i as int]);
            self.remove_used(tx.get_tx_in());
            let tx_hash = tx.hash();
            self.add_unspent(tx.get_tx_out(), tx_hash);
            proof {
                assert(ts.take(i + 1).drop_last() =~= ts.take(i as int));
                assert(ts.take(i + 1).last() == ts[i as int]);
            }
        }
        assert(ts.take(n as int) =~= ts);
    }

    /// Coin selection: a covering set of this sender's spendable UTXOs for
    /// `amount`, chosen by the deterministic rules of `select_utxos`, or
    /// nothing when they cannot cover it. UTXOs referenced by
    /// `prepared_transactions` are excluded.
    pub fn get_used_utxos(
        &self,
        sender_pkhash: &[u8],
        amount: u64,
        prepared_transactions: &Vec<Transaction>,
    ) -> (r: Option<Vec<Utxo>>)
        requires
            sender_pkhash@.len() >= 1,
        ensures
            ({
                let cands = spendable_utxos(
                    self@,
                    sender_pkhash@,
                    prepared_transactions@.map_values(|t: Transaction| t@),
                );
                &&& (r is Some <==> select_utxos(cands, amount) is Some)
                &&& (r matches Some(v) ==> select_utxos(cands, amount) == Some(
                    v@.map_values(|u: Utxo| u@),
                ))
            }),
    {
        let ghost prep = prepared_transactions@.map_values(|t: Transaction| t@);
        let by_hash = self.by_pkhash(sender_pkhash);
        let ghost bh = by_hash@.map_values(|u: Utxo| u@);
        let mut utxos: Vec<Utxo> = Vec::new();
        let nb = by_hash.len();
        proof {
            reveal(Seq::filter);
        }
        assert(bh.take(0) =~= Seq::<UtxoV>::empty());
        assert(utxos@.map_values(|u: Utxo| u@) =~= bh.take(0).filter(
            |u: UtxoV| !utxo_locked(u, prep),
        ));
        for i in 0..nb
            invariant
                nb == by_hash@.len(),
                bh == by_hash@.map_values(|u: Utxo| u@),
                bh.len() == nb,
                prep == prepared_transactions@.map_values(|t: Transaction| t@),
                utxos@.map_values(|u: Utxo| u@) == bh.take(i as int).filter(
                    |u: UtxoV| !utxo_locked(u, prep),
                ),
        {
            let ghost pre = utxos@.map_values(|u: Utxo| u@);
            assert(by_hash@[i as int]@ == bh[i as int]);
            if !by_hash[i].is_locked(prepared_transactions) {
                utxos.push(by_hash[i].clone());
                assert(utxos@.map_values(|u: Utxo| u@) =~= pre.push(bh[i as int]));
            }
            proof {
                reveal(Seq::filter);
                assert(bh.take(i + 1).drop_last() =~= bh.take(i as int));
                assert(bh.take(i + 1).last() == bh[i as int]);
                assert(utxos@.map_values(|u: Utxo| u@) =~= bh.take(i + 1).filter(
                    |u: UtxoV| !utxo_locked(u, prep),
                ));
            }
        }
        assert(bh.take(nb as int) =~= bh);
        let ghost cands = spendable_utxos(self@, sender_pkhash@, prep);
        assert(utxos@.map_values(|u: Utxo| u@) == cands);

        // A single UTXO matching the target exactly.
        let n = utxos.len();
        assert(cands.skip(0) =~= cands);
        for i in 0..n
            invariant
                n == utxos@.len(),
                cands == utxos@.map_values(|u: Utxo| u@),
                cands.len() == n,
                prep == prepared_transactions@.map_values(|t: Transaction| t@),
                cands == spendable_utxos(self@, sender_pkhash@, prep),
                first_exact(cands, amount) == first_exact(cands.skip(i as int), amount),
        {
            let ghost rest = cands.skip(i as int);
            assert(rest[0] == cands[i as int]);
            assert(rest.drop_first() =~= cands.skip(i + 1));
            assert(utxos@[i as int]@ == cands[i as int]);
            if utxos[i].get_output().get_amount() == amount {
                assert(first_exact(cands, amount) == Some(cands[i as int]));
                let mut one: Vec<Utxo> = Vec::new();
                one.push(utxos[i].clone());
                assert(one@.map_values(|u: Utxo| u@) =~= seq![cands[i as int]]);
                return Some(one);
            }
        }
        assert(cands.skip(n as int) =~= Seq::<UtxoV>::empty());
        assert(first_exact(cands, amount) is None);

        // The UTXOs individually below the target, when they sum to it
        // exactly.
        let mut below: Vec<Utxo> = Vec::new();
        let mut below_sum: u128 = 0;
        proof {
            reveal(Seq::filter);
        }
        assert(below@.map_values(|u: Utxo| u@) =~= cands.take(0).filter(
            |u: UtxoV| u.output.amount < amount,
        ));
        for i in 0..n
            invariant
                n == utxos@.len(),
                cands == utxos@.map_values(|u: Utxo| u@),
                cands.len() == n,
                prep == prepared_transactions@.map_values(|t: Transaction| t@),
                cands == spendable_utxos(self@, sender_pkhash@, prep),
                first_exact(cands, amount) is None,
                below@.map_values(|u: Utxo| u@) == below_amount(cands.take(i as int), amount),
                below_sum == sum_amounts(below@.map_values(|u: Utxo| u@)),
                below_sum <= i as int * 0xffff_ffff_ffff_ffffu64 as int,
        {
            let ghost pre = below@.map_values(|u: Utxo| u@);
            assert(utxos@[i as int]@ == cands[i as int]);
            proof {
                assert((i as int + 1) * 0xffff_ffff_ffff_ffffu64 as int == i as int
                    * 0xffff_ffff_ffff_ffffu64 as int + 0xffff_ffff_ffff_ffffu64 as int)
                    by (nonlinear_arith);
                assert(i as int * 0xffff_ffff_ffff_ffffu64 as int <= (0xffff_ffff_ffff_ffffu64
                    as int) * (0xffff_ffff_ffff_ffffu64 as int)) by (nonlinear_arith)
                    requires 0 <= i as int <= 0xffff_ffff_ffff_ffffu64 as int,
                ;
            }
            if utxos[i].get_output().get_amount() < amount {
                below_sum = below_sum + utxos[i].get_output().get_amount() as u128;
                below.push(utxos[i].clone());
                proof {
                    assert(below@.map_values(|u: Utxo| u@) =~= pre.push(cands[i as int]));
                    assert(pre.push(cands[i as int]).drop_last() =~= pre);
                }
            }
            proof {
                reveal(Seq::filter);
                assert(cands.take(i + 1).drop_last() =~= cands.take(i as int));
                assert(cands.take(i + 1).last() == cands[i as int]);
                assert(below@.map_values(|u: Utxo| u@) =~= below_amount(
                    cands.take(i + 1),
                    amount,
                ));
            }
        }
        assert(cands.take(n as int) =~= cands);
        if below_sum == amount as u128 {
            return Some(below);
        }
        assert(sum_amounts(below_amount(cands, amount)) != amount);

        // The smallest single UTXO above the target.
        let sorted_vec = sort_utxos(&utxos);
        let ghost sorted = sort_by_amount(cands);
        assert(sorted_vec@.map_values(|u: Utxo| u@) == sorted);
        let ns = sorted_vec.len();
        assert(sorted.len() == ns);
        assert(sorted.skip(0) =~= sorted);
        for i in 0..ns
            invariant
                ns == sorted_vec@.len(),
                sorted == sorted_vec@.map_values(|u: Utxo| u@),
                sorted.len() == ns,
                prep == prepared_transactions@.map_values(|t: Transaction| t@),
                cands == spendable_utxos(self@, sender_pkhash@, prep),
                sorted == sort_by_amount(cands),
                first_exact(cands, amount) is None,
                sum_amounts(below_amount(cands, amount)) != amount,
                first_above(sorted, amount) == first_above(sorted.skip(i as int), amount),
        {
            let ghost rest = sorted.skip(i as int);
            assert(rest[0] == sorted[i as int]);
            assert(rest.drop_first() =~= sorted.skip(i + 1));
            assert(sorted_vec@[i as int]@ == sorted[i as int]);
            if sorted_vec[i].get_output().get_amount() > amount {
                assert(first_above(sorted, amount) == Some(sorted[i as int]));
                let mut one: Vec<Utxo> = Vec::new();
                one.push(sorted_vec[i].clone());
                assert(one@.map_values(|u: Utxo| u@) =~= seq![sorted[i as int]]);
                return Some(one);
            }
        }
        assert(sorted.skip(ns as int) =~= Seq::<UtxoV>::empty());
        assert(first_above(sorted, amount) is None);

        // The shortest ascending prefix whose sum exceeds the target.
        let mut sorted_vec = sorted_vec;
        let mut total: u128 = 0;
        assert(sorted.take(0) =~= Seq::<UtxoV>::empty());
        for i in 0..ns
            invariant
                ns == sorted_vec@.len(),
                sorted == sorted_vec@.map_values(|u: Utxo| u@),
                sorted.len() == ns,
                prep == prepared_transactions@.map_values(|t: Transaction| t@),
                cands == spendable_utxos(self@, sender_pkhash@, prep),
                sorted == sort_by_amount(cands),
                first_exact(cands, amount) is None,
                sum_amounts(below_amount(cands, amount)) != amount,
                first_above(sorted, amount) is None,
                total == sum_amounts(sorted.take(i as int)),
                total <= amount,
                first_cover_len(sorted, amount as int, 0) == first_cover_len(
                    sorted,
                    amount as int,
                    i as int,
                ),
        {
            proof {
                lemma_sum_amounts_take_step(sorted, i as int);
            }
            assert(sorted_vec@[i as int]@ == sorted[i as int]);
            total = total + sorted_vec[i].get_output().get_amount() as u128;
            if total > amount as u128 {
                assert(first_cover_len(sorted, amount as int, i as int) == Some(i + 1));
                sorted_vec.truncate(i + 1);
                assert(sorted_vec@.map_values(|u: Utxo| u@) =~= sorted.take(i + 1));
                return Some(sorted_vec);
            }
        }
        assert(sorted.take(ns as int) =~= sorted);
        assert(first_cover_len(sorted, amount as int, ns as int) is None);
        None
    }

    /// The total amount held by `utxos`.
    pub fn get_total_amount(utxos: &Vec<Utxo>) -> (r: u64)
        requires
            sum_amounts(utxos@.map_values(|u: Utxo| u@)) <= u64::MAX,
        ensures
            r == sum_amounts(utxos@.map_values(|u: Utxo| u@)),
    {
        let ghost s = utxos@.map_values(|u: Utxo| u@);
        let mut total: u64 = 0;
        let n = utxos.len();
        assert(s.take(0) =~= Seq::<UtxoV>::empty());
        for i in 0..n
            invariant
                n == utxos@.len(),
                s == utxos@.map_values(|u: Utxo| u@),
                s.len() == n,
                sum_amounts(s) <= u64::MAX,
                total == sum_amounts(s.take(i as int)),
        {
            proof {
                lemma_sum_amounts_take_step(s, i as int);
                lemma_sum_amounts_take_le(s, i + 1);
                lemma_sum_amounts_nonneg(s.take(i as int));
            }
            total = total + utxos[i].get_output().get_amount();
        }
        assert(s.take(n as int) =~= s);
        total
    }
}

/// Every amount is a `u64`, so sums are nonnegative.
pub proof fn lemma_sum_amounts_nonneg(s: Seq<UtxoV>)
    ensures
        sum_amounts(s) >= 0,
    decreases s.len(),
{
    if s.len() > 0 {
        lemma_sum_amounts_nonneg(s.drop_last());
    }
}

/// `remove_first_match` removes exactly the first matching index.
proof fn lemma_remove_first_match_at(s: Seq<UtxoV>, o: OutPointV, i: int)
    requires
        0 <= i < s.len(),
        utxo_matches(s[i], o),
        forall|j: int| 0 <= j < i ==> !utxo_matches(s[j], o),
    ensures
        remove_first_match(s, o) == s.remove(i),
    decreases i,
{
    if i == 0 {
        assert(remove_first_match(s, o) == s.drop_first());
        assert(s.drop_first() =~= s.remove(0));
    } else {
        assert(!utxo_matches(s[0], o));
        assert(s.drop_first()[i - 1] == s[i]);
        lemma_remove_first_match_at(s.drop_first(), o, i - 1);
        assert(seq![s[0]] + s.drop_first().remove(i - 1) =~= s.remove(i));
    }
}

/// With no match, `remove_first_match` leaves the set unchanged.
proof fn lemma_remove_first_match_none(s: Seq<UtxoV>, o: OutPointV)
    requires
        forall|j: int| 0 <= j < s.len() ==> !utxo_matches(s[j], o),
    ensures
        remove_first_match(s, o) == s,
    decreases s.len(),
{
    if s.len() > 0 {
        assert(!utxo_matches(s[0], o));
        lemma_remove_first_match_none(s.drop_first(), o);
        assert(seq![s[0]] + s.drop_first() =~= s);
    }
}

// ---------------------------------------------------------------------------
// Facts about the coin-selection rules
// ---------------------------------------------------------------------------

/// A sum is at least each of its elements.
proof fn lemma_sum_ge_element(s: Seq<UtxoV>, i: int)
    requires
        0 <= i < s.len(),
    ensures
        sum_amounts(s) >= s[i].output.amount,
    decreases s.len(),
{
    if i == s.len() - 1 {
        lemma_sum_amounts_nonneg(s.drop_last());
    } else {
        lemma_sum_ge_element(s.drop_last(), i);
        assert(s.drop_last()[i] == s[i]);
    }
}

/// The sum of two concatenated sequences is the sum of the sums.
proof fn lemma_sum_concat(a: Seq<UtxoV>, b: Seq<UtxoV>)
    ensures
        sum_amounts(a + b) == sum_amounts(a) + sum_amounts(b),
    decreases b.len(),
{
    if b.len() == 0 {
        assert(a + b =~= a);
    } else {
        assert((a + b).drop_last() =~= a + b.drop_last());
        assert((a + b).last() == b.last());
        lemma_sum_concat(a, b.drop_last());
    }
}

/// Filtering can only lower a sum.
proof fn lemma_filter_sum_le(s: Seq<UtxoV>, pred: spec_fn(UtxoV) -> bool)
    ensures
        sum_amounts(s.filter(pred)) <= sum_amounts(s),
    decreases s.len(),
{
    reveal(Seq::filter);
    if s.len() > 0 {
        lemma_filter_sum_le(s.drop_last(), pred);
        if pred(s.last()) {
            assert(s.filter(pred) == s.drop_last().filter(pred).push(s.last()));
            assert(s.drop_last().filter(pred).push(s.last()).drop_last() =~= s.drop_last().filter(
                pred,
            ));
        }
    }
}

/// When every element satisfies the predicate, filtering changes nothing.
proof fn lemma_filter_all(s: Seq<UtxoV>, pred: spec_fn(UtxoV) -> bool)
    requires
        forall|i: int| 0 <= i < s.len() ==> pred(#[trigger] s[i]),
    ensures
        s.filter(pred) == s,
    decreases s.len(),
{
    reveal(Seq::filter);
    if s.len() > 0 {
        lemma_filter_all(s.drop_last(), pred);
        assert(pred(s.last()));
        assert(s.drop_last().push(s.last()) =~= s);
    }
}

/// `first_exact` finds an element of the exact amount when one exists, and
/// only then.
proof fn lemma_first_exact_props(s: Seq<UtxoV>, amount: u64)
    ensures
        first_exact(s, amount) matches Some(u) ==> s.contains(u) && u.output.amount == amount,
        first_exact(s, amount) is None ==> forall|i: int|
            0 <= i < s.len() ==> (#[trigger] s[i]).output.amount != amount,
    decreases s.len(),
{
    if s.len() > 0 && s[0].output.amount != amount {
        lemma_first_exact_props(s.drop_first(), amount);
        match first_exact(s.drop_first(), amount) {
            Some(u) => {
                let i = choose|i: int| 0 <= i < s.drop_first().len() && s.drop_first()[i] == u;
                assert(s[i + 1] == u);
            },
            None => {
                assert(forall|i: int|
                    1 <= i < s.len() ==> (#[trigger] s[i]) == s.drop_first()[i - 1]);
            },
        }
    }
}

/// `first_above` finds an element above the target when one exists, and only
/// then.
proof fn lemma_first_above_props(s: Seq<UtxoV>, amount: u64)
    ensures
        first_above(s, amount) matches Some(u) ==> s.contains(u) && u.output.amount > amount,
        first_above(s, amount) is None ==> forall|i: int|
            0 <= i < s.len() ==> (#[trigger] s[i]).output.amount <= amount,
    decreases s.len(),
{
    if s.len() > 0 && !(s[0].output.amount > amount) {
        lemma_first_above_props(s.drop_first(), amount);
        match first_above(s.drop_first(), amount) {
            Some(u) => {
                let i = choose|i: int| 0 <= i < s.drop_first().len() && s.drop_first()[i] == u;
                assert(s[i + 1] == u);
            },
            None => {
                assert(forall|i: int|
                    1 <= i < s.len() ==> (#[trigger] s[i]) == s.drop_first()[i - 1]);
            },
        }
    }
}

/// The sum of a single UTXO.
pub proof fn lemma_sum_single(u: UtxoV)
    ensures
        sum_amounts(seq![u]) == u.output.amount,
{
    let s = seq![u];
    assert(s.len() == 1);
    assert(s.last() == u);
    assert(s.drop_last() =~= Seq::<UtxoV>::empty());
    assert(s.drop_last().len() == 0);
    assert(sum_amounts(s.drop_last()) == 0);
    assert(sum_amounts(s) == sum_amounts(s.drop_last()) + s.last().output.amount);
}

/// Insertion adds exactly the inserted amount to the sum.
proof fn lemma_insert_by_amount_sum(u: UtxoV, s: Seq<UtxoV>)
    ensures
        sum_amounts(insert_by_amount(u, s)) == sum_amounts(s) + u.output.amount,
    decreases s.len(),
{
    if s.len() == 0 {
        assert(insert_by_amount(u, s).drop_last() =~= s);
    } else if u.output.amount < s[0].output.amount {
        lemma_sum_concat(seq![u], s);
        lemma_sum_single(u);
    } else {
        lemma_insert_by_amount_sum(u, s.drop_first());
        lemma_sum_concat(seq![s[0]], insert_by_amount(u, s.drop_first()));
        lemma_sum_concat(seq![s[0]], s.drop_first());
        assert(seq![s[0]] + s.drop_first() =~= s);
        lemma_sum_single(s[0]);
    }
}

/// Sorting preserves the sum.
proof fn lemma_sort_sum(s: Seq<UtxoV>)
    ensures
        sum_amounts(sort_by_amount(s)) == sum_amounts(s),
    decreases s.len(),
{
    if s.len() > 0 {
        lemma_sort_sum(s.drop_last());
        lemma_insert_by_amount_sum(s.last(), sort_by_amount(s.drop_last()));
    }
}

/// Insertion keeps what was there and adds the new element.
proof fn lemma_insert_by_amount_contains(u: UtxoV, s: Seq<UtxoV>)
    ensures
        insert_by_amount(u, s).contains(u),
        forall|x: UtxoV| s.contains(x) ==> insert_by_amount(u, s).contains(x),
    decreases s.len(),
{
    let r = insert_by_amount(u, s);
    if s.len() == 0 {
        assert(r[0] == u);
    } else if u.output.amount < s[0].output.amount {
        assert(r[0] == u);
        assert forall|x: UtxoV| s.contains(x) implies r.contains(x) by {
            let i = choose|i: int| 0 <= i < s.len() && s[i] == x;
            assert(r[i + 1] == x);
        }
    } else {
        lemma_insert_by_amount_contains(u, s.drop_first());
        let inner = insert_by_amount(u, s.drop_first());
        let j = choose|j: int| 0 <= j < inner.len() && inner[j] == u;
        assert(r[j + 1] == u);
        assert forall|x: UtxoV| s.contains(x) implies r.contains(x) by {
            let i = choose|i: int| 0 <= i < s.len() && s[i] == x;
            if i == 0 {
                assert(r[0] == x);
            } else {
                assert(s.drop_first()[i - 1] == x);
                assert(s.drop_first().contains(x));
                let j2 = choose|j2: int| 0 <= j2 < inner.len() && inner[j2] == x;
                assert(r[j2 + 1] == x);
            }
        }
    }
}

/// Every element of a sequence occurs in its sorted ordering.
proof fn lemma_sort_contains(s: Seq<UtxoV>, i: int)
    requires
        0 <= i < s.len(),
    ensures
        sort_by_amount(s).contains(s[i]),
    decreases s.len(),
{
    lemma_insert_by_amount_contains(s.last(), sort_by_amount(s.drop_last()));
    if i < s.len() - 1 {
        lemma_sort_contains(s.drop_last(), i);
        assert(s.drop_last()[i] == s[i]);
    }
}

/// A `Some` answer of `first_cover_len` names a prefix whose sum exceeds the
/// target.
proof fn lemma_first_cover_len_sound(s: Seq<UtxoV>, amount: int, k0: int)
    requires
        0 <= k0 <= s.len(),
    ensures
        first_cover_len(s, amount, k0) matches Some(k) ==> k0 <= k <= s.len() && sum_amounts(
            s.take(k),
        ) > amount,
    decreases s.len() - k0,
{
    if !(sum_amounts(s.take(k0)) > amount) && k0 < s.len() {
        lemma_first_cover_len_sound(s, amount, k0 + 1);
    }
}

/// When the whole sum exceeds the target, some prefix does.
proof fn lemma_first_cover_len_complete(s: Seq<UtxoV>, amount: int, k0: int)
    requires
        0 <= k0 <= s.len(),
        sum_amounts(s) > amount,
    ensures
        first_cover_len(s, amount, k0) is Some,
    decreases s.len() - k0,
{
    if !(sum_amounts(s.take(k0)) > amount) {
        assert(k0 != s.len()) by {
            assert(s.take(s.len() as int) =~= s);
        }
        lemma_first_cover_len_complete(s, amount, k0 + 1);
    }
}

/// A `None` answer of `first_cover_len` means even the whole falls short.
proof fn lemma_first_cover_len_none(s: Seq<UtxoV>, amount: int, k0: int)
    requires
        0 <= k0 <= s.len(),
        first_cover_len(s, amount, k0) is None,
    ensures
        sum_amounts(s) <= amount,
    decreases s.len() - k0,
{
    if k0 == s.len() {
        assert(s.take(s.len() as int) =~= s);
    } else {
        lemma_first_cover_len_none(s, amount, k0 + 1);
    }
}

/// The law of coin selection: a covering set is returned exactly when the
/// candidates' total reaches the target, and what is returned always sums to
/// at least the target. In particular, when the total available is below
/// the target, selection fails.
pub proof fn lemma_selection_covers(cands: Seq<UtxoV>, amount: u64)
    ensures
        select_utxos(cands, amount) is Some <==> sum_amounts(cands) >= amount,
        select_utxos(cands, amount) matches Some(sel) ==> sum_amounts(sel) >= amount,
{
    let sorted = sort_by_amount(cands);
    lemma_sort_sum(cands);
    lemma_first_exact_props(cands, amount);
    match first_exact(cands, amount) {
        Some(u) => {
            let i = choose|i: int| 0 <= i < cands.len() && cands[i] == u;
            lemma_sum_ge_element(cands, i);
            lemma_sum_single(u);
        },
        None => {
            let below = below_amount(cands, amount);
            lemma_filter_sum_le(cands, |u: UtxoV| u.output.amount < amount);
            if sum_amounts(below) == amount {
            } else {
                lemma_first_above_props(sorted, amount);
                match first_above(sorted, amount) {
                    Some(u) => {
                        let i = choose|i: int| 0 <= i < sorted.len() && sorted[i] == u;
                        lemma_sum_ge_element(sorted, i);
                        lemma_sum_single(u);
                    },
                    None => {
                        // No single candidate reaches or exceeds the target:
                        // every amount is strictly below it.
                        assert forall|i: int| 0 <= i < cands.len() implies (
                        #[trigger] cands[i]).output.amount < amount by {
                            lemma_sort_contains(cands, i);
                            let j = choose|j: int|
                                0 <= j < sorted.len() && sorted[j] == cands[i];
                        }
                        lemma_filter_all(cands, |u: UtxoV| u.output.amount < amount);
                        assert(below == cands);
                        assert(sum_amounts(cands) != amount);
                        lemma_first_cover_len_sound(sorted, amount as int, 0);
                        match first_cover_len(sorted, amount as int, 0) {
                            Some(k) => {
                                lemma_sum_amounts_take_le(sorted, k);
                            },
                            None => {
                                lemma_first_cover_len_none(sorted, amount as int, 0);
                                assert(sum_amounts(cands) <= amount);
                                assert(sum_amounts(cands) < amount);
                            },
                        }
                        if sum_amounts(cands) >= amount {
                            assert(sum_amounts(cands) > amount);
                            lemma_first_cover_len_complete(sorted, amount as int, 0);
                        }
                    },
                }
            }
        },
    }
}

/// What selection returns never exceeds what was available.
pub proof fn lemma_selection_sum_le(cands: Seq<UtxoV>, amount: u64)
    ensures
        select_utxos(cands, amount) matches Some(sel) ==> sum_amounts(sel) <= sum_amounts(cands),
{
    let sorted = sort_by_amount(cands);
    lemma_sort_sum(cands);
    lemma_first_exact_props(cands, amount);
    match first_exact(cands, amount) {
        Some(u) => {
            let i = choose|i: int| 0 <= i < cands.len() && cands[i] == u;
            lemma_sum_ge_element(cands, i);
            lemma_sum_single(u);
        },
        None => {
            if sum_amounts(below_amount(cands, amount)) == amount {
                lemma_filter_sum_le(cands, |u: UtxoV| u.output.amount < amount);
            } else {
                lemma_first_above_props(sorted, amount);
                match first_above(sorted, amount) {
                    Some(u) => {
                        let i = choose|i: int| 0 <= i < sorted.len() && sorted[i] == u;
                        lemma_sum_ge_element(sorted, i);
                        lemma_sum_single(u);
                    },
                    None => {
                        lemma_first_cover_len_sound(sorted, amount as int, 0);
                        match first_cover_len(sorted, amount as int, 0) {
                            Some(k) => {
                                lemma_sum_amounts_take_le(sorted, k);
                            },
                            None => {},
                        }
                    },
                }
            }
        },
    }
}

/// Inserting before the first strictly larger element is what
/// `insert_by_amount` does.
proof fn lemma_insert_by_amount_at(u: UtxoV, s: Seq<UtxoV>, j: int)
    requires
        0 <= j <= s.len(),
        forall|k: int| 0 <= k < j ==> (#[trigger] s[k]).output.amount <= u.output.amount,
        j < s.len() ==> u.output.amount < s[j].output.amount,
    ensures
        insert_by_amount(u, s) == (s.take(j) + seq![u]) + s.skip(j),
    decreases j,
{
    if s.len() == 0 {
        assert(insert_by_amount(u, s) =~= (s.take(0) + seq![u]) + s.skip(0));
    } else if j == 0 {
        assert(insert_by_amount(u, s) == seq![u] + s);
        assert(seq![u] + s =~= (s.take(0) + seq![u]) + s.skip(0));
    } else {
        assert(s[0].output.amount <= u.output.amount);
        let df = s.drop_first();
        assert(forall|k: int| 0 <= k < j - 1 ==> (#[trigger] df[k]).output.amount
            <= u.output.amount) by {
            assert(forall|k: int| 0 <= k < j - 1 ==> df[k] == s[k + 1]);
        }
        assert(j - 1 < df.len() ==> u.output.amount < df[j - 1].output.amount);
        lemma_insert_by_amount_at(u, df, j - 1);
        assert(seq![s[0]] + ((df.take(j - 1) + seq![u]) + df.skip(j - 1)) =~= (s.take(j) + seq![u])
            + s.skip(j));
    }
}

/// Inserts a UTXO into a vector sorted ascending by amount, keeping the
/// stable order of `insert_by_amount`.
fn insert_sorted_utxo(sorted: &mut Vec<Utxo>, u: Utxo)
    ensures
        final(sorted)@.map_values(|x: Utxo| x@) == insert_by_amount(
            u@,
            old(sorted)@.map_values(|x: Utxo| x@),
        ),
{
    let ghost s = sorted@.map_values(|x: Utxo| x@);
    let n = sorted.len();
    let mut j: usize = 0;
    while j < n && sorted[j].get_output().get_amount() <= u.get_output().get_amount()
        invariant
            n == sorted@.len(),
            s == sorted@.map_values(|x: Utxo| x@),
            0 <= j <= n,
            forall|k: int| 0 <= k < j ==> (#[trigger] s[k]).output.amount <= u@.output.amount,
        decreases n - j,
    {
        assert(sorted@[j as int]@ == s[j as int]);
        j = j + 1;
    }
    assert(j < n ==> u@.output.amount < s[j as int].output.amount) by {
        if j < n {
            assert(sorted@[j as int]@ == s[j as int]);
        }
    }
    proof {
        lemma_insert_by_amount_at(u@, s, j as int);
    }
    let ghost uv = u@;
    sorted.insert(j, u);
    assert(sorted@.map_values(|x: Utxo| x@) =~= (s.take(j as int) + seq![uv]) + s.skip(j as int));
}

/// Sorts UTXOs ascending by amount, stably.
fn sort_utxos(v: &Vec<Utxo>) -> (r: Vec<Utxo>)
    ensures
        r@.map_values(|x: Utxo| x@) == sort_by_amount(v@.map_values(|x: Utxo| x@)),
{
    let ghost s = v@.map_values(|x: Utxo| x@);
    let mut sorted: Vec<Utxo> = Vec::new();
    let n = v.len();
    assert(s.take(0) =~= Seq::<UtxoV>::empty());
    assert(sorted@.map_values(|x: Utxo| x@) =~= sort_by_amount(s.take(0)));
    for i in 0..n
        invariant
            n == v@.len(),
            s == v@.map_values(|x: Utxo| x@),
            s.len() == n,
            sorted@.map_values(|x: Utxo| x@) == sort_by_amount(s.take(i as int)),
    {
        assert(v@[i as int]@ == s[i as int]);
        insert_sorted_utxo(&mut sorted, v[i].clone());
        proof {
            assert(s.take(i + 1).drop_last() =~= s.take(i as int));
            assert(s.take(i + 1).last() == s[i as int]);
        }
    }
    assert(s.take(n as int) =~= s);
    sorted
}

/// Whether two byte slices hold the same bytes.
pub fn slices_equal(a: &[u8], b: &[u8]) -> (r: bool)
    ensures
        r == (a@ == b@),
{
    if a.len() != b.len() {
        assert(a@ != b@);
        return false;
    }
    let n = a.len();
    for k in 0..n
        invariant
            n == a@.len(),
            n == b@.len(),
            forall|j: int| 0 <= j < k ==> a@[j] == b@[j],
    {
        if a[k] != b[k] {
            assert(a@ != b@);
            return false;
        }
    }
    assert(a@ =~= b@);
    true
}

/// Whether `needle` occurs in `haystack` as a contiguous run.
pub fn contains_subslice(haystack: &[u8], needle: &[u8]) -> (r: bool)
    requires
        needle@.len() >= 1,
    ensures
        r == script_contains(haystack@, needle@),
{
    let n = haystack.len();
    let m = needle.len();
    if m > n {
        assert(!script_contains(haystack@, needle@));
        return false;
    }
    let last = n - m;
    for k in 0..last + 1
        invariant
            n == haystack@.len(),
            m == needle@.len(),
            1 <= m <= n,
            last == n - m,
            forall|p: int|
                0 <= p < k ==> #[trigger] haystack@.subrange(p, p + needle@.len()) != needle@,
    {
        let mut matches_here = true;
        assert(haystack@.subrange(k as int, k as int) =~= needle@.take(0));
        for q in 0..m
            invariant
                n == haystack@.len(),
                m == needle@.len(),
                0 <= k <= n - m,
                matches_here <==> haystack@.subrange(k as int, k + q) == needle@.take(q as int),
        {
            let ghost next_h = haystack@.subrange(k as int, k + q + 1);
            let ghost next_n = needle@.take(q + 1);
            assert(next_h.drop_last() =~= haystack@.subrange(k as int, k + q));
            assert(next_n.drop_last() =~= needle@.take(q as int));
            assert(next_h.last() == haystack@[k + q]);
            assert(next_n.last() == needle@[q as int]);
            if haystack[k + q] != needle[q] {
                matches_here = false;
                assert(next_h != next_n);
            } else {
                if matches_here {
                    assert(next_h =~= next_n);
                } else {
                    assert(next_h != next_n) by {
                        if next_h == next_n {
                            assert(next_h.drop_last() == next_n.drop_last());
                        }
                    }
                }
            }
        }
        if matches_here {
            assert(haystack@.subrange(k as int, k + m) =~= needle@) by {
                assert(needle@.take(m as int) =~= needle@);
            }
            assert(script_contains(haystack@, needle@));
            return true;
        }
        assert(haystack@.subrange(k as int, k + needle@.len()) != needle@) by {
            assert(needle@.take(m as int) =~= needle@);
        }
    }
    assert(!script_contains(haystack@, needle@));
    false
}

} // verus!
