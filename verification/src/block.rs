//! Blocks: a header committing to a transaction list through a Merkle root,
//! plus the serialized transactions themselves. `transactions[0]` is always
//! the coinbase; the Merkle root is computed once at construction and
//! trusted thereafter.

use vstd::prelude::*;
use crate::errors::RitCoinErrror;
use crate::encoding::dec_digits;
use crate::hash::{sha256, sha256_of};
use crate::merkle::{get_merkle_root, merkle_root_of_transactions};
use crate::serializer::{dec_tx, deserialize};
use crate::transaction::{check_tx, contains_bytes, dedup_push, fold_input_pubkeys, input_pubkey, Input, InputV, Transaction, TxCheck};
use crate::utxo_set::{utxo_has_pkhash, Utxo, UtxoSet, UtxoV};
use crate::wallet::{pk_hash_from_public_key, pk_hash_of};

verus! {

/// The block format version.
pub const BLOCK_VERSION: u32 = 1;

/// A block: header fields and the serialized transactions it contains.
pub struct Block {
    version: u32,
    previous_block_header_hash: Vec<u8>,
    merkle_root: Vec<u8>,
    timestamp: u64,
    nonce: u64,
    transactions: Vec<Vec<u8>>,
}

/// The mathematical value of a `Block`.
pub struct BlockV {
    pub version: u32,
    pub previous_block_header_hash: Seq<u8>,
    pub merkle_root: Seq<u8>,
    pub timestamp: u64,
    pub nonce: u64,
    pub transactions: Seq<Seq<u8>>,
}

impl View for Block {
    type V = BlockV;

    closed spec fn view(&self) -> BlockV {
        BlockV {
            version: self.version,
            previous_block_header_hash: self.previous_block_header_hash@,
            merkle_root: self.merkle_root@,
            timestamp: self.timestamp,
            nonce: self.nonce,
            transactions: self.transactions.deep_view(),
        }
    }
}

impl Clone for Block {
    fn clone(&self) -> (r: Self)
        ensures
            r@ == self@,
    {
        let previous_block_header_hash = self.previous_block_header_hash.clone();
        assert(previous_block_header_hash@ =~= self.previous_block_header_hash@);
        let merkle_root = self.merkle_root.clone();
        assert(merkle_root@ =~= self.merkle_root@);
        let mut transactions: Vec<Vec<u8>> = Vec::new();
        let n = self.transactions.len();
        for i in 0..n
            invariant
                n == self.transactions@.len(),
                transactions@.len() == i,
                forall|j: int| 0 <= j < i ==> (#[trigger] transactions@[j])@ == self.transactions@[j]@,
        {
            let t = self.transactions[i].clone();
            assert(t@ =~= self.transactions@[i as int]@);
            transactions.push(t);
        }
        let r = Block {
            version: self.version,
            previous_block_header_hash,
            merkle_root,
            timestamp: self.timestamp,
            nonce: self.nonce,
            transactions,
        };
        assert(r@.transactions =~~= self@.transactions);
        r
    }
}

/// The bytes a block's header hash covers: version, previous header hash,
/// Merkle root, timestamp, and nonce, numbers rendered in decimal ASCII.
pub open spec fn block_header_preimage(b: BlockV) -> Seq<u8> {
    (((dec_digits(b.version as nat) + b.previous_block_header_hash) + b.merkle_root) + dec_digits(
        b.timestamp as nat,
    )) + dec_digits(b.nonce as nat)
}

/// A block's identity: single SHA-256 of its header serialization.
pub open spec fn block_hash_of(b: BlockV) -> Seq<u8> {
    sha256_of(block_header_preimage(b))
}

/// Relies on the operating system clock: seconds since the Unix epoch, an
/// arbitrary value to the verifier.
#[verifier::external_body]
pub(crate) fn calculate_timestamp() -> u64 {
    match std::time::SystemTime::now().duration_since(std::time::SystemTime::UNIX_EPOCH) {
        Ok(elapsed) => elapsed.as_secs(),
        Err(_) => 0,
    }
}

// ---------------------------------------------------------------------------
// Per-block transaction validation model
// ---------------------------------------------------------------------------

/// Whether every non-coinbase transaction among the first `i` decodes.
pub open spec fn block_txs_decode_upto(txs: Seq<Seq<u8>>, i: int) -> bool {
    forall|j: int| 1 <= j < i ==> dec_tx(#[trigger] txs[j]) is Some
}

/// The deduplicated public keys referenced by the inputs of the first `i`
/// transactions, the coinbase excluded, in first-occurrence order.
pub open spec fn block_pubkeys_upto(txs: Seq<Seq<u8>>, i: int) -> Seq<Seq<u8>>
    decreases i,
{
    if i <= 1 {
        Seq::empty()
    } else {
        fold_input_pubkeys(block_pubkeys_upto(txs, i - 1), dec_tx(txs[i - 1])->Some_0.tx_in)
    }
}

/// The public key list a transaction list's validation works from.
pub open spec fn txs_pubkeys(txs: Seq<Seq<u8>>) -> Seq<Seq<u8>> {
    block_pubkeys_upto(txs, txs.len() as int)
}

/// The public key list a block's validation works from.
pub open spec fn block_pubkeys(b: BlockV) -> Seq<Seq<u8>> {
    txs_pubkeys(b.transactions)
}

/// The UTXOs reachable from a public key list: for each key in order, every
/// UTXO whose locking script contains that key's pubkey-hash.
pub open spec fn utxos_for_pubkeys(set: Seq<UtxoV>, pks: Seq<Seq<u8>>) -> Seq<UtxoV>
    decreases pks.len(),
{
    if pks.len() == 0 {
        Seq::empty()
    } else {
        utxos_for_pubkeys(set, pks.drop_last()) + set.filter(
            |u: UtxoV| utxo_has_pkhash(u, pk_hash_of(pks.last())),
        )
    }
}

/// The UTXOs a transaction list is validated against.
pub open spec fn txs_relevant_utxos(txs: Seq<Seq<u8>>, set: Seq<UtxoV>) -> Seq<UtxoV> {
    utxos_for_pubkeys(set, txs_pubkeys(txs))
}

/// The UTXOs a block's transactions are validated against.
pub open spec fn block_relevant_utxos(b: BlockV, set: Seq<UtxoV>) -> Seq<UtxoV> {
    txs_relevant_utxos(b.transactions, set)
}

/// Whether every transaction of a serialized list but the coinbase at index
/// zero decodes and validates against the UTXOs reachable from the list's
/// input public keys.
pub open spec fn txs_valid(txs: Seq<Seq<u8>>, set: Seq<UtxoV>) -> bool {
    &&& block_txs_decode_upto(txs, txs.len() as int)
    &&& forall|i: int|
        1 <= i < txs.len() ==> check_tx(
            dec_tx(#[trigger] txs[i])->Some_0,
            txs_relevant_utxos(txs, set),
        ) == TxCheck::Valid
}

/// Whether every non-coinbase transaction of the block decodes and validates
/// against the UTXOs reachable from the block's input public keys.
pub open spec fn block_txs_valid(b: BlockV, set: Seq<UtxoV>) -> bool {
    txs_valid(b.transactions, set)
}

impl Block {
    /// A candidate block over the given serialized transactions: the Merkle
    /// root is computed here, once; the timestamp is read from the clock;
    /// the nonce starts at zero.
    pub fn new(previous_block_header_hash: Vec<u8>, transactions: Vec<Vec<u8>>) -> (r: Self)
        ensures
            r@.version == BLOCK_VERSION,
            r@.previous_block_header_hash == previous_block_header_hash@,
            r@.merkle_root == merkle_root_of_transactions(transactions.deep_view()),
            r@.nonce == 0,
            r@.transactions == transactions.deep_view(),
    {
        let merkle_root = get_merkle_root(&transactions);
        let r = Self {
            version: BLOCK_VERSION,
            previous_block_header_hash,
            merkle_root,
            timestamp: calculate_timestamp(),
            nonce: 0,
            transactions,
        };
        assert(r@.transactions =~~= transactions.deep_view());
        r
    }

    /// The header hash: single SHA-256 over version, previous hash, Merkle
    /// root, timestamp, and nonce.
    pub fn hash(&self) -> (r: Vec<u8>)
        ensures
            r@ == block_hash_of(self@),
            r@.len() == 32,
    {
        let mut buf: Vec<u8> = Vec::new();
        let mut version_dec = crate::encoding::u64_to_dec(self.version as u64);
        buf.append(&mut version_dec);
        buf.extend_from_slice(self.previous_block_header_hash.as_slice());
        buf.extend_from_slice(self.merkle_root.as_slice());
        let mut timestamp_dec = crate::encoding::u64_to_dec(self.timestamp);
        buf.append(&mut timestamp_dec);
        let mut nonce_dec = crate::encoding::u64_to_dec(self.nonce);
        buf.append(&mut nonce_dec);
        assert(buf@ =~= block_header_preimage(self@));
        sha256(buf.as_slice())
    }

    pub fn get_previous_hash(&self) -> (r: &[u8])
        ensures
            r@ == self@.previous_block_header_hash,
    {
        self.previous_block_header_hash.as_slice()
    }

    pub fn get_transactions(&self) -> (r: &Vec<Vec<u8>>)
        ensures
            r.deep_view() == self@.transactions,
    {
        &self.transactions
    }

    /// A block reassembled from received parts; the Merkle root is taken as
    /// given (trust-on-construction).
    pub fn from_parts(
        version: u32,
        previous_block_header_hash: Vec<u8>,
        merkle_root: Vec<u8>,
        timestamp: u64,
        nonce: u64,
        transactions: Vec<Vec<u8>>,
    ) -> (r: Self)
        ensures
            r@ == (BlockV {
                version,
                previous_block_header_hash: previous_block_header_hash@,
                merkle_root: merkle_root@,
                timestamp,
                nonce,
                transactions: transactions.deep_view(),
            }),
    {
        Self {
            version,
            previous_block_header_hash,
            merkle_root,
            timestamp,
            nonce,
            transactions,
        }
    }

    pub fn get_version(&self) -> (r: u32)
        ensures
            r == self@.version,
    {
        self.version
    }

    pub fn get_merkle_root(&self) -> (r: &[u8])
        ensures
            r@ == self@.merkle_root,
    {
        self.merkle_root.as_slice()
    }

    pub fn get_timestamp(&self) -> (r: u64)
        ensures
            r == self@.timestamp,
    {
        self.timestamp
    }

    pub fn get_nonce(&self) -> (r: u64)
        ensures
            r == self@.nonce,
    {
        self.nonce
    }

    /// Advances the proof-of-work counter.
    pub fn increment_nonce(&mut self)
        requires
            old(self)@.nonce < u64::MAX,
        ensures
            final(self)@ == (BlockV { nonce: (old(self)@.nonce + 1) as u64, ..old(self)@ }),
    {
        self.nonce = self.nonce + 1;
    }

    /// Refreshes the header timestamp from the clock, leaving every other
    /// field unchanged.
    pub fn update_timestamp(&mut self)
        ensures
            final(self)@ == (BlockV { timestamp: final(self)@.timestamp, ..old(self)@ }),
    {
        self.timestamp = calculate_timestamp();
    }

    /// Pins the header timestamp to a chosen value, so that a proof-of-work
    /// search over a fixed timestamp is deterministic and reproducible.
    pub fn set_timestamp(&mut self, timestamp: u64)
        ensures
            final(self)@ == (BlockV { timestamp, ..old(self)@ }),
    {
        self.timestamp = timestamp;
    }

    /// The deduplicated public keys referenced by the inputs of this block's
    /// non-coinbase transactions, in first-occurrence order. Fails exactly
    /// when some non-coinbase transaction does not decode.
    pub fn pub_keys_from_txins(&self) -> (r: Result<Vec<Vec<u8>>, RitCoinErrror>)
        ensures
            r is Ok <==> block_txs_decode_upto(self@.transactions, self@.transactions.len() as int),
            r matches Ok(v) ==> v@.map_values(|x: Vec<u8>| x@) == block_pubkeys(self@),
            r matches Err(e) ==> e is EncodingError,
    {
        let ghost txs = self@.transactions;
        let mut pub_keys: Vec<Vec<u8>> = Vec::new();
        let n = self.transactions.len();
        if n == 0 {
            assert(pub_keys@.map_values(|x: Vec<u8>| x@) =~= block_pubkeys_upto(txs, 0));
            return Ok(pub_keys);
        }
        assert(pub_keys@.map_values(|x: Vec<u8>| x@) =~= block_pubkeys_upto(txs, 1));
        for i in 1..n
            invariant
                n == self.transactions@.len(),
                txs == self@.transactions,
                txs.len() == n,
                n >= 1,
                block_txs_decode_upto(txs, i as int),
                pub_keys@.map_values(|x: Vec<u8>| x@) == block_pubkeys_upto(txs, i as int),
        {
            assert(self.transactions@[i as int]@ == txs[i as int]);
            let transaction = match deserialize(self.transactions[i].as_slice()) {
                Ok(t) => t,
                Err(e) => {
                    assert(dec_tx(txs[i as int]) is None);
                    return Err(e);
                },
            };
            let ghost tv = transaction@;
            assert(dec_tx(txs[i as int]) == Some(tv));
            let tx_in = transaction.get_tx_in();
            let m = tx_in.len();
            let ghost base = pub_keys@.map_values(|x: Vec<u8>| x@);
            assert(tv.tx_in.take(0) =~= Seq::<InputV>::empty());
            for j in 0..m
                invariant
                    m == tx_in@.len(),
                    tv.tx_in == tx_in@.map_values(|x: Input| x@),
                    tv.tx_in.len() == m,
                    pub_keys@.map_values(|x: Vec<u8>| x@) == fold_input_pubkeys(
                        base,
                        tv.tx_in.take(j as int),
                    ),
            {
                assert(tx_in@[j as int]@ == tv.tx_in[j as int]);
                let ghost pre = pub_keys@.map_values(|x: Vec<u8>| x@);
                if tx_in[j].get_sig_script().len() >= 65 {
                    let pk = tx_in[j].get_public_key();
                    assert(pk@ == input_pubkey(tv.tx_in[j as int]));
                    if !contains_bytes(&pub_keys, pk) {
                        assert(!pre.contains(pk@)) by {
                            if pre.contains(pk@) {
                                let k = choose|k: int| 0 <= k < pre.len() && pre[k] == pk@;
                                assert(pub_keys@[k]@ == pk@);
                            }
                        }
                        let mut owned: Vec<u8> = Vec::new();
                        owned.extend_from_slice(pk);
                        assert(owned@ =~= pk@);
                        pub_keys.push(owned);
                        assert(pub_keys@.map_values(|x: Vec<u8>| x@) =~= pre.push(pk@));
                    } else {
                        assert(pre.contains(pk@)) by {
                            let k = choose|k: int|
                                0 <= k < pub_keys@.len() && (#[trigger] pub_keys@[k])@ == pk@;
                            assert(pre[k] == pk@);
                        }
                    }
                }
                proof {
                    assert(tv.tx_in.take(j + 1).drop_last() =~= tv.tx_in.take(j as int));
                    assert(tv.tx_in.take(j + 1).last() == tv.tx_in[j as int]);
                }
            }
            assert(tv.tx_in.take(m as int) =~= tv.tx_in);
            assert(pub_keys@.map_values(|x: Vec<u8>| x@) == block_pubkeys_upto(txs, i + 1));
        }
        Ok(pub_keys)
    }

    /// Validates every transaction except the coinbase at index zero against
    /// the UTXOs reachable from this block's input public keys. Succeeds
    /// exactly when each decodes and passes `Transaction::validate` against
    /// that UTXO list.
    pub fn validate_transactions(&self, utxo_set: &UtxoSet) -> (r: Result<(), RitCoinErrror>)
        ensures
            r is Ok <==> block_txs_valid(self@, utxo_set@),
            r matches Err(e) ==> !block_txs_valid(self@, utxo_set@) && (e is EncodingError
                || e is UnknownUtxo || e is ScriptError || e is CryptoError
                || e is InsufficientInputFunds),
            r matches Err(e) && e is EncodingError ==> !block_txs_decode_upto(
                self@.transactions,
                self@.transactions.len() as int,
            ),
    {
        let ghost txs = self@.transactions;
        let pub_keys = match self.pub_keys_from_txins() {
            Ok(v) => v,
            Err(e) => {
                return Err(e);
            },
        };
        let ghost pks = block_pubkeys(self@);
        let mut utxos: Vec<Utxo> = Vec::new();
        let np = pub_keys.len();
        assert(pks.take(0) =~= Seq::<Seq<u8>>::empty());
        assert(utxos@.map_values(|u: Utxo| u@) =~= utxos_for_pubkeys(utxo_set@, pks.take(0)));
        for k in 0..np
            invariant
                np == pub_keys@.len(),
                pks == pub_keys@.map_values(|x: Vec<u8>| x@),
                pks.len() == np,
                pks == block_pubkeys(self@),
                utxos@.map_values(|u: Utxo| u@) == utxos_for_pubkeys(utxo_set@, pks.take(k as int)),
        {
            assert(pub_keys@[k as int]@ == pks[k as int]);
            let pk_hash = pk_hash_from_public_key(pub_keys[k].as_slice());
            let ghost pre = utxos@.map_values(|u: Utxo| u@);
            let mut found = utxo_set.by_pkhash(pk_hash.as_slice());
            let ghost fv = found@.map_values(|u: Utxo| u@);
            utxos.append(&mut found);
            proof {
                assert(utxos@.map_values(|u: Utxo| u@) =~= pre + fv);
                assert(pks.take(k + 1).drop_last() =~= pks.take(k as int));
                assert(pks.take(k + 1).last() == pks[k as int]);
            }
        }
        assert(pks.take(np as int) =~= pks);
        let ghost relevant = block_relevant_utxos(self@, utxo_set@);
        assert(utxos@.map_values(|u: Utxo| u@) == relevant);
        let n = self.transactions.len();
        if n == 0 {
            return Ok(());
        }
        for i in 1..n
            invariant
                n == self.transactions@.len(),
                txs == self@.transactions,
                txs.len() == n,
                block_txs_decode_upto(txs, n as int),
                utxos@.map_values(|u: Utxo| u@) == relevant,
                relevant == block_relevant_utxos(self@, utxo_set@),
                forall|j: int|
                    1 <= j < i ==> check_tx(dec_tx(#[trigger] txs[j])->Some_0, relevant)
                        == TxCheck::Valid,
        {
            assert(self.transactions@[i as int]@ == txs[i as int]);
            let transaction = match deserialize(self.transactions[i].as_slice()) {
                Ok(t) => t,
                Err(e) => {
                    assert(dec_tx(txs[i as int]) is Some);
                    assert(false);
                    return Err(e);
                },
            };
            assert(dec_tx(txs[i as int]) == Some(transaction@));
            match transaction.validate(&utxos) {
                Ok(()) => {
                    assert(check_tx(dec_tx(txs[i as int])->Some_0, relevant) == TxCheck::Valid);
                },
                Err(e) => {
                    assert(check_tx(dec_tx(txs[i as int])->Some_0, relevant) != TxCheck::Valid);
                    return Err(e);
                },
            }
        }
        Ok(())
    }
}

} // verus!
