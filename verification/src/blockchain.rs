//! The append-only ledger: proof-of-work search, candidate validation,
//! chain verification, and the longest-valid-chain fork choice with a full
//! UTXO rebuild on adoption.

use vstd::prelude::*;
use vstd::assert_by_contradiction;
use crate::block::{
    block_hash_of, block_txs_valid, Block, BlockV,
};
use crate::errors::RitCoinErrror;
use crate::serializer::{dec_tx, deserialize, enc_tx, serialize};
use crate::transaction::{coinbase_tx, CoinBaseTransaction, Transaction, TransactionV};
use crate::utxo_set::{
    apply_tx, apply_txs, lemma_sum_single, sum_amounts, utxo_has_pkhash, UtxoSet, UtxoV,
};
use crate::wallet::address_to_pkhash;

verus! {

/// The number of leading zero bytes a block hash must show.
pub const DEFAULT_DIFFICULTY: usize = 2;

/// How many pending transactions a mined block takes, the coinbase aside.
pub const BLOCK_TRANSACTIONS_COUNT: usize = 3;

/// The fixed coinbase reward.
pub const DEFAULT_COINBASE_AMOUNT: u64 = 100;

/// Whether a block header hash meets the difficulty: at least
/// `DEFAULT_DIFFICULTY` leading zero bytes.
pub open spec fn pow_ok(b: BlockV) -> bool {
    &&& block_hash_of(b).len() >= DEFAULT_DIFFICULTY
    &&& forall|i: int| 0 <= i < DEFAULT_DIFFICULTY ==> block_hash_of(b)[i] == 0
}

/// Whether block `i + 1` references block `i`'s header hash.
pub open spec fn chain_link_ok(blocks: Seq<BlockV>, i: int) -> bool {
    block_hash_of(blocks[i]) == blocks[i + 1].previous_block_header_hash
}

/// Whether a whole chain verifies against a UTXO set: every block's
/// transactions validate and every consecutive pair is linked.
pub open spec fn chain_valid(blocks: Seq<BlockV>, set: Seq<UtxoV>) -> bool {
    &&& forall|i: int| 0 <= i < blocks.len() ==> block_txs_valid(#[trigger] blocks[i], set)
    &&& forall|i: int| 0 <= i < blocks.len() - 1 ==> chain_link_ok(blocks, i)
}

/// Whether link `i` is the first chain violation in checking order: every
/// block up to and including `i + 1` validates, every earlier link holds,
/// and link `i` is broken. Exactly the situation `verify_chain` reports as
/// a chain-link mismatch.
pub open spec fn link_break_first(blocks: Seq<BlockV>, set: Seq<UtxoV>, i: int) -> bool {
    &&& 0 <= i < blocks.len() - 1
    &&& !chain_link_ok(blocks, i)
    &&& forall|j: int| 0 <= j < i ==> chain_link_ok(blocks, j)
    &&& forall|j: int| 0 <= j <= i + 1 ==> block_txs_valid(#[trigger] blocks[j], set)
}

/// Whether every transaction of every block, the coinbase included,
/// decodes.
pub open spec fn blocks_all_decode(blocks: Seq<BlockV>) -> bool {
    forall|i: int, j: int|
        0 <= i < blocks.len() && 0 <= j < blocks[i].transactions.len() ==> dec_tx(
            #[trigger] blocks[i].transactions[j],
        ) is Some
}

/// The transactions a block carries, decoded; meaningful when each decodes.
pub open spec fn decoded_txs(txs: Seq<Seq<u8>>) -> Seq<TransactionV> {
    Seq::new(txs.len(), |i: int| dec_tx(txs[i])->Some_0)
}

/// The UTXO set that replaying a block sequence from genesis produces.
pub open spec fn replay_utxo(blocks: Seq<BlockV>) -> Seq<UtxoV>
    decreases blocks.len(),
{
    if blocks.len() == 0 {
        Seq::empty()
    } else {
        apply_txs(replay_utxo(blocks.drop_last()), decoded_txs(blocks.last().transactions))
    }
}

/// How many pending transactions the next block takes: all of them, up to
/// `BLOCK_TRANSACTIONS_COUNT`.
pub open spec fn taken_count(pending: Seq<Seq<u8>>) -> int {
    if pending.len() < BLOCK_TRANSACTIONS_COUNT {
        pending.len() as int
    } else {
        BLOCK_TRANSACTIONS_COUNT as int
    }
}

/// Whether every pending transaction the next block would take decodes.
pub open spec fn pending_decodes(pending: Seq<Seq<u8>>) -> bool {
    forall|j: int| 0 <= j < taken_count(pending) ==> dec_tx(#[trigger] pending[j]) is Some
}

/// The transactions a non-genesis candidate block carries, decoded: the
/// coinbase paying the miner at the given height, then the first taken
/// pending transactions in order.
pub open spec fn candidate_decoded_txs(miner: Seq<u8>, height: u32, pending: Seq<Seq<u8>>) -> Seq<
    TransactionV,
> {
    seq![coinbase_tx(miner, height, DEFAULT_COINBASE_AMOUNT)] + Seq::new(
        taken_count(pending) as nat,
        |j: int| dec_tx(pending[j])->Some_0,
    )
}

/// The serialized transactions of that candidate: the canonical encoding of
/// each.
pub open spec fn candidate_txs(miner: Seq<u8>, height: u32, pending: Seq<Seq<u8>>) -> Seq<Seq<u8>> {
    candidate_decoded_txs(miner, height, pending).map_values(|t: TransactionV| enc_tx(t))
}

/// Whether the first `k` bytes of `h` are zero.
fn starts_with_zeros(h: &Vec<u8>, k: usize) -> (r: bool)
    requires
        k <= h@.len(),
    ensures
        r == (forall|i: int| 0 <= i < k ==> h@[i] == 0),
{
    for i in 0..k
        invariant
            k <= h@.len(),
            forall|j: int| 0 <= j < i ==> h@[j] == 0,
    {
        if h[i] != 0 {
            return false;
        }
    }
    true
}

/// The shared chain state: the append-only block list, the UTXO set kept in
/// step with it, and the known peer addresses.
pub struct BlockChain {
    blocks: Vec<Block>,
    nodes: Vec<String>,
    utxo: UtxoSet,
}

/// The mathematical value of a `BlockChain`.
pub struct BlockChainV {
    pub blocks: Seq<BlockV>,
    pub nodes: Seq<Seq<char>>,
    pub utxo: Seq<UtxoV>,
}

impl View for BlockChain {
    type V = BlockChainV;

    closed spec fn view(&self) -> BlockChainV {
        BlockChainV {
            blocks: self.blocks@.map_values(|b: Block| b@),
            nodes: self.nodes@.map_values(|s: String| s@),
            utxo: self.utxo@,
        }
    }
}

impl BlockChain {
    /// A fresh, empty chain.
    pub fn new() -> (r: Self)
        ensures
            r@.blocks =~= Seq::<BlockV>::empty(),
            r@.nodes =~= Seq::<Seq<char>>::empty(),
            r@.utxo =~= Seq::<UtxoV>::empty(),
    {
        Self { blocks: Vec::new(), nodes: Vec::new(), utxo: UtxoSet::new() }
    }

    /// A chain reassembled from received parts, as a peer's snapshot.
    pub fn from_parts(blocks: Vec<Block>, nodes: Vec<String>, utxo: UtxoSet) -> (r: Self)
        ensures
            r@.blocks == blocks@.map_values(|b: Block| b@),
            r@.nodes == nodes@.map_values(|s: String| s@),
            r@.utxo == utxo@,
    {
        Self { blocks, nodes, utxo }
    }

    pub fn get_utxos_ref(&self) -> (r: &UtxoSet)
        ensures
            r@ == self@.utxo,
    {
        &self.utxo
    }

    pub fn get_utxos_mut_ref(&mut self) -> (r: &mut UtxoSet)
        ensures
            r@ == old(self)@.utxo,
            final(self)@ == (BlockChainV { utxo: final(r)@, ..old(self)@ }),
    {
        &mut self.utxo
    }

    pub fn get_blocks(&self) -> (r: &Vec<Block>)
        ensures
            r@.map_values(|b: Block| b@) == self@.blocks,
    {
        &self.blocks
    }

    pub fn len(&self) -> (r: usize)
        ensures
            r == self@.blocks.len(),
    {
        self.blocks.len()
    }

    /// Records a peer address. The address format is the transport layer's
    /// concern; the chain only keeps the list.
    pub fn add_node(&mut self, node: String)
        ensures
            final(self)@ == (BlockChainV {
                nodes: old(self)@.nodes.push(node@),
                ..old(self)@
            }),
    {
        self.nodes.push(node);
        assert(self@.nodes =~= old(self)@.nodes.push(self.nodes@.last()@));
    }

    pub fn get_nodes(&self) -> (r: &Vec<String>)
        ensures
            r@.map_values(|s: String| s@) == self@.nodes,
    {
        &self.nodes
    }

    /// The coinbase-only candidate for an empty chain: all-zero previous
    /// hash, one coinbase transaction paying the miner.
    pub fn genesis_block(block_height: u32, miner_pk_hash: &[u8]) -> (r: Block)
        ensures
            r@.previous_block_header_hash == Seq::new(32, |i: int| 0u8),
            r@.transactions =~= seq![
                enc_tx(coinbase_tx(miner_pk_hash@, block_height, DEFAULT_COINBASE_AMOUNT)),
            ],
            r@.merkle_root == crate::merkle::merkle_root_of_transactions(r@.transactions),
            r@.nonce == 0,
    {
        let coinbase_transaction = <Transaction as CoinBaseTransaction>::new(
            miner_pk_hash,
            block_height,
            DEFAULT_COINBASE_AMOUNT,
        );
        let coinbase_transaction_serialized = serialize(&coinbase_transaction);
        let prev: Vec<u8> = vec![0u8; 32];
        assert(prev@ =~= Seq::new(32, |i: int| 0u8));
        let mut transactions: Vec<Vec<u8>> = Vec::new();
        transactions.push(coinbase_transaction_serialized);
        let r = Block::new(prev, transactions);
        assert(r@.transactions =~~= seq![
            enc_tx(coinbase_tx(miner_pk_hash@, block_height, DEFAULT_COINBASE_AMOUNT)),
        ]);
        r
    }

    /// The proof-of-work search and append: increments the nonce (refreshing
    /// the timestamp roughly every two seconds) until the header hash shows
    /// the required leading zero bytes, then applies the block's
    /// transactions to the UTXO set and appends the block. The caller hands
    /// the same transactions the block carries in serialized form.
    #[verifier::rlimit(60)]
    pub fn start_mine(&mut self, block: Block, transactions: &Vec<Transaction>) -> (r: Result<
        (),
        RitCoinErrror,
    >)
        requires
            block@.transactions == transactions@.map_values(|t: Transaction| enc_tx(t@)),
        ensures
            r matches Ok(()) ==> {
                let mined = final(self)@.blocks.last();
                &&& final(self)@.blocks.len() == old(self)@.blocks.len() + 1
                &&& final(self)@.blocks.drop_last() == old(self)@.blocks
                &&& pow_ok(mined)
                &&& mined.version == block@.version
                &&& mined.previous_block_header_hash == block@.previous_block_header_hash
                &&& mined.merkle_root == block@.merkle_root
                &&& mined.transactions == block@.transactions
                &&& final(self)@.utxo == apply_txs(
                    old(self)@.utxo,
                    transactions@.map_values(|t: Transaction| t@),
                )
                &&& final(self)@.nodes == old(self)@.nodes
            },
            r is Err ==> final(self)@ == old(self)@,
            r matches Err(e) ==> e is StateError,
    {
        let mut block = block;
        let ghost orig_block = block@;
        let mut last_refresh = crate::block::calculate_timestamp();
        loop
            invariant
                self@ == old(self)@,
                block@.version == orig_block.version,
                block@.previous_block_header_hash == orig_block.previous_block_header_hash,
                block@.merkle_root == orig_block.merkle_root,
                block@.transactions == orig_block.transactions,
            ensures
                self@ == old(self)@,
                block@.version == orig_block.version,
                block@.previous_block_header_hash == orig_block.previous_block_header_hash,
                block@.merkle_root == orig_block.merkle_root,
                block@.transactions == orig_block.transactions,
                pow_ok(block@),
            decreases u64::MAX - block@.nonce,
        {
            let h = block.hash();
            if starts_with_zeros(&h, DEFAULT_DIFFICULTY) {
                assert(pow_ok(block@));
                break;
            }
            if block.get_nonce() == u64::MAX {
                return Err(
                    RitCoinErrror::StateError("proof-of-work nonce space exhausted".to_string()),
                );
            }
            block.increment_nonce();
            let now = crate::block::calculate_timestamp();
            if now > last_refresh && now - last_refresh >= 2 {
                block.update_timestamp();
                last_refresh = now;
            }
        }
        self.utxo.recalculate_utxos(transactions);
        let ghost mined = block@;
        self.blocks.push(block);
        assert(self@.blocks =~= old(self)@.blocks.push(mined));
        assert(self@.blocks.drop_last() =~= old(self)@.blocks);
        Ok(())
    }

    /// Builds, validates, mines, and appends the next block: a coinbase
    /// paying the miner first, then up to `BLOCK_TRANSACTIONS_COUNT` pending
    /// transactions; an empty chain gets a coinbase-only genesis block with
    /// an all-zero previous hash. The candidate's transactions are validated
    /// against the current UTXO set before any proof-of-work effort is
    /// spent.
    #[verifier::rlimit(100)]
    pub fn mine(&mut self, miner_pk_hash: &[u8], pending_transactions: Vec<Vec<u8>>) -> (r: Result<
        (),
        RitCoinErrror,
    >)
        ensures
            ({
                let pending = pending_transactions@.map_values(|v: Vec<u8>| v@);
                let height = old(self)@.blocks.len() as u32;
                let cand = candidate_txs(miner_pk_hash@, height, pending);
                let cand_decoded = candidate_decoded_txs(miner_pk_hash@, height, pending);
                &&& (r is Ok ==> {
                    let mined = final(self)@.blocks.last();
                    &&& final(self)@.blocks.len() == old(self)@.blocks.len() + 1
                    &&& final(self)@.blocks.drop_last() == old(self)@.blocks
                    &&& final(self)@.nodes == old(self)@.nodes
                    &&& pow_ok(mined)
                    &&& (old(self)@.blocks.len() > 0 ==> {
                        &&& mined.previous_block_header_hash == block_hash_of(
                            old(self)@.blocks.last(),
                        )
                        &&& mined.transactions == cand
                        &&& final(self)@.utxo == apply_txs(old(self)@.utxo, cand_decoded)
                        &&& crate::block::txs_valid(cand, old(self)@.utxo)
                    })
                    &&& (old(self)@.blocks.len() == 0 ==> {
                        &&& mined.previous_block_header_hash == Seq::new(32, |i: int| 0u8)
                        &&& mined.transactions =~= seq![
                            enc_tx(coinbase_tx(miner_pk_hash@, 0, DEFAULT_COINBASE_AMOUNT)),
                        ]
                        &&& final(self)@.utxo == apply_txs(
                            old(self)@.utxo,
                            seq![coinbase_tx(miner_pk_hash@, 0, DEFAULT_COINBASE_AMOUNT)],
                        )
                    })
                })
                &&& (r is Err ==> final(self)@ == old(self)@)
                &&& (r matches Err(e) ==> (e is EncodingError || e is UnknownUtxo
                    || e is ScriptError || e is CryptoError || e is InsufficientInputFunds
                    || e is StateError))
                &&& ((old(self)@.blocks.len() > 0 && !pending_decodes(pending)) ==> (r matches Err(
                    e,
                ) && e is EncodingError))
                &&& ((r matches Err(e) && e is EncodingError) ==> (old(self)@.blocks.len() > 0
                    && !pending_decodes(pending)))
                &&& ((old(self)@.blocks.len() > 0 && pending_decodes(pending)
                    && !crate::block::txs_valid(cand, old(self)@.utxo)) ==> (r matches Err(e) && (
                e is UnknownUtxo || e is ScriptError || e is CryptoError
                    || e is InsufficientInputFunds)))
                &&& ((r matches Err(e) && (e is UnknownUtxo || e is ScriptError
                    || e is CryptoError || e is InsufficientInputFunds)) ==> (
                old(self)@.blocks.len() > 0 && pending_decodes(pending) && !crate::block::txs_valid(
                    cand,
                    old(self)@.utxo,
                )))
            }),
    {
        let ghost pending = pending_transactions@.map_values(|v: Vec<u8>| v@);
        if self.blocks.len() == 0 {
            let genesis = Self::genesis_block(0, miner_pk_hash);
            let coinbase = <Transaction as CoinBaseTransaction>::new(
                miner_pk_hash,
                0,
                DEFAULT_COINBASE_AMOUNT,
            );
            let mut txs: Vec<Transaction> = Vec::new();
            txs.push(coinbase);
            assert(genesis@.transactions =~~= txs@.map_values(|t: Transaction| enc_tx(t@)));
            let r = self.start_mine(genesis, &txs);
            proof {
                if r is Ok {
                    assert(txs@.map_values(|t: Transaction| t@) =~= seq![
                        coinbase_tx(miner_pk_hash@, 0, DEFAULT_COINBASE_AMOUNT),
                    ]);
                }
            }
            return r;
        }
        let height = self.blocks.len() as u32;
        let ghost cand = candidate_txs(miner_pk_hash@, height, pending);
        let ghost cand_decoded = candidate_decoded_txs(miner_pk_hash@, height, pending);
        let coinbase = <Transaction as CoinBaseTransaction>::new(
            miner_pk_hash,
            height,
            DEFAULT_COINBASE_AMOUNT,
        );
        proof {
            coinbase.lemma_fits();
            crate::serializer::lemma_round_trip(coinbase@);
        }
        let coinbase_serialized = serialize(&coinbase);
        let mut txs: Vec<Transaction> = Vec::new();
        let mut txs_bytes: Vec<Vec<u8>> = Vec::new();
        txs_bytes.push(coinbase_serialized);
        txs.push(coinbase);
        let mut taken: usize = 0;
        let available = pending_transactions.len();
        assert(txs@.map_values(|t: Transaction| t@) =~= seq![
            coinbase_tx(miner_pk_hash@, height, DEFAULT_COINBASE_AMOUNT),
        ] + Seq::new(0nat, |j: int| dec_tx(pending[j])->Some_0));
        while taken < available && taken < BLOCK_TRANSACTIONS_COUNT
            invariant
                pending == pending_transactions@.map_values(|v: Vec<u8>| v@),
                available == pending_transactions@.len(),
                pending.len() == available,
                taken <= available,
                taken <= BLOCK_TRANSACTIONS_COUNT,
                txs@.len() == taken + 1,
                txs_bytes@.len() == taken + 1,
                txs_bytes@.map_values(|v: Vec<u8>| v@) == txs@.map_values(
                    |t: Transaction| enc_tx(t@),
                ),
                txs@.map_values(|t: Transaction| t@) == seq![
                    coinbase_tx(miner_pk_hash@, height, DEFAULT_COINBASE_AMOUNT),
                ] + Seq::new(taken as nat, |j: int| dec_tx(pending[j])->Some_0),
                forall|j: int| 0 <= j < taken ==> dec_tx(#[trigger] pending[j]) is Some,
                height == old(self)@.blocks.len() as u32,
                self@ == old(self)@,
                old(self)@.blocks.len() > 0,
            decreases available - taken,
        {
            let serialized = pending_transactions[taken].clone();
            assert(serialized@ =~= pending_transactions@[taken as int]@);
            assert(serialized@ == pending[taken as int]);
            let transaction = match deserialize(serialized.as_slice()) {
                Ok(t) => t,
                Err(e) => {
                    proof {
                        assert(dec_tx(pending[taken as int]) is None);
                        assert(taken < taken_count(pending));
                        assert(!pending_decodes(pending));
                    }
                    return Err(e);
                },
            };
            // The block stores the canonical encoding of what was
            // submitted.
            proof {
                transaction.lemma_fits();
                crate::serializer::lemma_round_trip(transaction@);
            }
            let reencoded = serialize(&transaction);
            let ghost re = reencoded@;
            let ghost tv = transaction@;
            let ghost pre_b = txs_bytes@.map_values(|v: Vec<u8>| v@);
            let ghost pre_t = txs@.map_values(|t: Transaction| enc_tx(t@));
            let ghost pre_v = txs@.map_values(|t: Transaction| t@);
            txs_bytes.push(reencoded);
            txs.push(transaction);
            proof {
                assert(txs_bytes@.map_values(|v: Vec<u8>| v@) =~= pre_b.push(re));
                assert(txs@.map_values(|t: Transaction| enc_tx(t@)) =~= pre_t.push(enc_tx(tv)));
                assert(txs@.map_values(|t: Transaction| t@) =~= pre_v.push(tv));
                assert(txs@.map_values(|t: Transaction| t@) =~= seq![
                    coinbase_tx(miner_pk_hash@, height, DEFAULT_COINBASE_AMOUNT),
                ] + Seq::new((taken + 1) as nat, |j: int| dec_tx(pending[j])->Some_0));
            }
            taken = taken + 1;
        }
        proof {
            assert(taken as int == taken_count(pending));
            assert(pending_decodes(pending));
            assert(txs@.map_values(|t: Transaction| t@) == cand_decoded);
            assert(cand.len() == cand_decoded.len());
            assert forall|j: int| 0 <= j < cand.len() implies txs_bytes@.map_values(
                |v: Vec<u8>| v@,
            )[j] == cand[j] by {
                assert(txs_bytes@.map_values(|v: Vec<u8>| v@)[j] == txs@.map_values(
                    |t: Transaction| enc_tx(t@),
                )[j]);
                assert(cand[j] == enc_tx(cand_decoded[j]));
            }
            assert(txs_bytes@.map_values(|v: Vec<u8>| v@) =~= cand);
            // Every candidate transaction decodes: each is the canonical
            // encoding of a transaction held in memory.
            assert forall|j: int| 0 <= j < cand.len() implies dec_tx(#[trigger] cand[j]) is Some by {
                assert(cand[j] == enc_tx(cand_decoded[j]));
                assert(cand_decoded[j] == txs@[j]@);
                txs@[j].lemma_fits();
                crate::serializer::lemma_round_trip(txs@[j]@);
            }
        }
        let tip_hash = self.blocks[self.blocks.len() - 1].hash();
        assert(self.blocks@.last()@ == self@.blocks.last());
        let block = Block::new(tip_hash, txs_bytes);
        assert(block@.transactions =~~= cand);
        match block.validate_transactions(&self.utxo) {
            Ok(()) => {},
            Err(e) => {
                proof {
                    assert(!crate::block::txs_valid(cand, old(self)@.utxo));
                    assert(crate::block::block_txs_decode_upto(
                        block@.transactions,
                        block@.transactions.len() as int,
                    ));
                    assert(!(e is EncodingError));
                }
                return Err(e);
            },
        }
        assert(crate::block::txs_valid(cand, old(self)@.utxo));
        assert(block@.transactions =~~= txs@.map_values(|t: Transaction| enc_tx(t@)));
        let r = self.start_mine(block, &txs);
        proof {
            if r is Ok {
                assert(final(self)@.blocks.last().transactions == cand);
                assert(final(self)@.utxo == apply_txs(old(self)@.utxo, cand_decoded));
            }
        }
        r
    }

    /// Verifies the whole chain against the current UTXO set: every block's
    /// transactions must validate, and every block must reference its
    /// predecessor's header hash, checked in order with the first violation
    /// reported.
    #[verifier::rlimit(60)]
    pub fn verify_chain(&self) -> (r: Result<(), RitCoinErrror>)
        requires
            self@.blocks.len() >= 1,
        ensures
            r is Ok <==> chain_valid(self@.blocks, self@.utxo),
            r matches Err(e) ==> {
                &&& !chain_valid(self@.blocks, self@.utxo)
                &&& (e is ChainLinkMismatch <==> exists|i: int|
                    link_break_first(self@.blocks, self@.utxo, i))
            },
    {
        let ghost blocks = self@.blocks;
        match self.blocks[0].validate_transactions(&self.utxo) {
            Ok(()) => {},
            Err(e) => {
                assert(!block_txs_valid(blocks[0], self@.utxo));
                proof {
                    assert_by_contradiction!(
                        !exists|i: int| link_break_first(blocks, self@.utxo, i),
                        {
                            let i = choose|i: int| link_break_first(blocks, self@.utxo, i);
                            assert(block_txs_valid(blocks[0], self@.utxo));
                        }
                    );
                }
                return Err(e);
            },
        }
        let n = self.blocks.len();
        for i in 0..n - 1
            invariant
                n == self.blocks@.len(),
                blocks == self@.blocks,
                blocks.len() == n,
                n >= 1,
                forall|j: int| 0 <= j <= i ==> block_txs_valid(#[trigger] blocks[j], self@.utxo),
                forall|j: int| 0 <= j < i ==> chain_link_ok(blocks, j),
        {
            assert(self.blocks@[i + 1]@ == blocks[i + 1]);
            match self.blocks[i + 1].validate_transactions(&self.utxo) {
                Ok(()) => {},
                Err(e) => {
                    assert(!block_txs_valid(blocks[i + 1], self@.utxo));
                    proof {
                        assert_by_contradiction!(
                            !exists|i0: int| link_break_first(blocks, self@.utxo, i0),
                            {
                                let i0 = choose|i0: int| link_break_first(blocks, self@.utxo, i0);
                                // Links up to i hold, so the first break is
                                // at i or later, and its witness then makes
                                // block i + 1 valid.
                                assert(i0 >= i);
                                assert(block_txs_valid(blocks[i + 1], self@.utxo));
                            }
                        );
                    }
                    return Err(e);
                },
            }
            let current_hash = self.blocks[i].hash();
            let matches_link = crate::utxo_set::slices_equal(
                current_hash.as_slice(),
                self.blocks[i + 1].get_previous_hash(),
            );
            if !matches_link {
                assert(!chain_link_ok(blocks, i as int));
                assert(link_break_first(blocks, self@.utxo, i as int));
                return Err(
                    RitCoinErrror::ChainLinkMismatch(
                        "previous block hash in next block does not match current block hash".to_string(),
                    ),
                );
            }
            assert(chain_link_ok(blocks, i as int));
        }
        Ok(())
    }

    /// The fork choice: adopts `other`'s blocks exactly when that chain is
    /// strictly longer and verifies, rebuilding the UTXO set from scratch by
    /// replaying the adopted blocks from genesis. Answers whether adoption
    /// happened.
    #[verifier::rlimit(60)]
    pub fn adopt_chain(&mut self, other: &BlockChain) -> (adopted: bool)
        ensures
            adopted == (other@.blocks.len() > old(self)@.blocks.len() && chain_valid(
                other@.blocks,
                other@.utxo,
            ) && blocks_all_decode(other@.blocks)),
            adopted ==> final(self)@ == (BlockChainV {
                blocks: other@.blocks,
                utxo: replay_utxo(other@.blocks),
                ..old(self)@
            }),
            !adopted ==> final(self)@ == old(self)@,
    {
        if other.blocks.len() <= self.blocks.len() {
            return false;
        }
        match other.verify_chain() {
            Err(_) => {
                return false;
            },
            Ok(()) => {},
        }
        let ghost adopted_blocks = other@.blocks;
        let mut new_blocks: Vec<Block> = Vec::new();
        let mut new_utxo = UtxoSet::new();
        let n = other.blocks.len();
        assert(adopted_blocks.take(0) =~= Seq::<BlockV>::empty());
        for i in 0..n
            invariant
                n == other.blocks@.len(),
                adopted_blocks == other@.blocks,
                adopted_blocks.len() == n,
                chain_valid(adopted_blocks, other@.utxo),
                old(self)@ == self@,
                other@.blocks.len() > old(self)@.blocks.len(),
                forall|a: int, k: int|
                    0 <= a < i && 0 <= k < adopted_blocks[a].transactions.len() ==> dec_tx(
                        #[trigger] adopted_blocks[a].transactions[k],
                    ) is Some,
                new_blocks@.map_values(|b: Block| b@) == adopted_blocks.take(i as int),
                new_utxo@ == replay_utxo(adopted_blocks.take(i as int)),
        {
            assert(other.blocks@[i as int]@ == adopted_blocks[i as int]);
            let block = other.blocks[i].clone();
            let ghost bv = block@;
            assert(block_txs_valid(bv, other@.utxo));
            let serialized = block.get_transactions();
            let m = serialized.len();
            let mut block_txs: Vec<Transaction> = Vec::new();
            let ghost dtxs = decoded_txs(bv.transactions);
            for j in 0..m
                invariant
                    m == serialized@.len(),
                    bv.transactions == serialized.deep_view(),
                    bv.transactions.len() == m,
                    dtxs == decoded_txs(bv.transactions),
                    block_txs_valid(bv, other@.utxo),
                    bv == adopted_blocks[i as int],
                    adopted_blocks == other@.blocks,
                    0 <= i < adopted_blocks.len(),
                    old(self)@ == self@,
                    other@.blocks.len() > old(self)@.blocks.len(),
                    block_txs@.len() == j,
                    forall|k: int|
                        0 <= k < j ==> dec_tx(bv.transactions[k]) is Some,
                    forall|k: int|
                        0 <= k < j ==> (#[trigger] block_txs@[k])@ == dtxs[k],
            {
                assert(serialized@[j as int]@ =~= bv.transactions[j as int]);
                let t = match deserialize(serialized[j].as_slice()) {
                    Ok(t) => t,
                    Err(_) => {
                        // Some transaction (in practice only a coinbase,
                        // which validation never decodes) is not in the wire
                        // format: the chain cannot be replayed, so it is not
                        // adopted.
                        assert(dec_tx(bv.transactions[j as int]) is None);
                        assert(!blocks_all_decode(other@.blocks));
                        return false;
                    },
                };
                assert(dec_tx(bv.transactions[j as int]) == Some(t@));
                block_txs.push(t);
            }
            new_utxo.recalculate_utxos(&block_txs);
            proof {
                assert(block_txs@.map_values(|t: Transaction| t@) =~= dtxs);
                assert(adopted_blocks.take(i + 1).drop_last() =~= adopted_blocks.take(i as int));
                assert(adopted_blocks.take(i + 1).last() == adopted_blocks[i as int]);
            }
            new_blocks.push(block);
            assert(new_blocks@.map_values(|b: Block| b@) =~= adopted_blocks.take(i + 1));
        }
        assert(adopted_blocks.take(n as int) =~= adopted_blocks);
        self.blocks = new_blocks;
        self.utxo = new_utxo;
        true
    }

    /// The balance of an address: the total of the UTXOs whose locking
    /// script contains the address's pubkey-hash. Fails on an address that
    /// does not decode, on one whose decoded form leaves an empty
    /// pubkey-hash, and on a total beyond what a 64-bit amount can hold.
    pub fn get_balance(&self, address: &str) -> (r: Result<u64, RitCoinErrror>)
        ensures
            r is Ok <==> (crate::wallet::b58_decoded(address@) matches Some(d) && d.len() >= 6
                && balance_of(self@.utxo, d.subrange(1, d.len() - 4)) <= u64::MAX),
            r matches Ok(total) ==> {
                &&& crate::wallet::b58_decoded(address@) matches Some(d)
                &&& d.len() >= 6
                &&& total == balance_of(self@.utxo, d.subrange(1, d.len() - 4))
            },
            r matches Err(e) ==> (e is EncodingError || e is InvalidInput || e is StateError),
    {
        let pk_hash = match address_to_pkhash(address) {
            Ok(h) => h,
            Err(e) => {
                return Err(e);
            },
        };
        if pk_hash.len() == 0 {
            return Err(
                RitCoinErrror::InvalidInput("address holds an empty pubkey-hash".to_string()),
            );
        }
        let ghost d = crate::wallet::b58_decoded(address@)->Some_0;
        assert(d.len() >= 6);
        assert(pk_hash@ == d.subrange(1, d.len() - 4));
        let utxos = self.utxo.by_pkhash(pk_hash.as_slice());
        let ghost uv = utxos@.map_values(|u: crate::utxo_set::Utxo| u@);
        assert(uv == self@.utxo.filter(|u: UtxoV| utxo_has_pkhash(u, pk_hash@)));
        let n = utxos.len();
        let mut total: u128 = 0;
        assert(uv.take(0) =~= Seq::<UtxoV>::empty());
        for i in 0..n
            invariant
                n == utxos@.len(),
                uv == utxos@.map_values(|u: crate::utxo_set::Utxo| u@),
                uv.len() == n,
                total == sum_amounts(uv.take(i as int)),
                total <= i as int * 0xffff_ffff_ffff_ffffu64 as int,
        {
            proof {
                crate::utxo_set::lemma_sum_amounts_take_step(uv, i as int);
                assert((i as int + 1) * 0xffff_ffff_ffff_ffffu64 as int == i as int
                    * 0xffff_ffff_ffff_ffffu64 as int + 0xffff_ffff_ffff_ffffu64 as int)
                    by (nonlinear_arith);
                assert(i as int * 0xffff_ffff_ffff_ffffu64 as int <= (0xffff_ffff_ffff_ffffu64
                    as int) * (0xffff_ffff_ffff_ffffu64 as int)) by (nonlinear_arith)
                    requires 0 <= i as int <= 0xffff_ffff_ffff_ffffu64 as int,
                ;
            }
            assert(utxos@[i as int]@ == uv[i as int]);
            total = total + utxos[i].get_output().get_amount() as u128;
        }
        assert(uv.take(n as int) =~= uv);
        if total > u64::MAX as u128 {
            return Err(
                RitCoinErrror::StateError(
                    "balance exceeds the largest representable amount".to_string(),
                ),
            );
        }
        Ok(total as u64)
    }
}

/// The total amount of the UTXOs in `set` addressed to `pkhash`.
pub open spec fn balance_of(set: Seq<UtxoV>, pkhash: Seq<u8>) -> int {
    sum_amounts(set.filter(|u: UtxoV| utxo_has_pkhash(u, pkhash)))
}

/// Mining the genesis block pays the miner exactly the coinbase reward: the
/// UTXO set it leaves holds one output, addressed to the miner's
/// pubkey-hash, of that amount.
pub proof fn lemma_genesis_coinbase_balance(pk_hash: Seq<u8>, reward: u64)
    requires
        pk_hash.len() >= 1,
    ensures
        ({
            let set = apply_txs(Seq::empty(), seq![coinbase_tx(pk_hash, 0, reward)]);
            &&& set.len() == 1
            &&& sum_amounts(set.filter(|u: UtxoV| utxo_has_pkhash(u, pk_hash))) == reward
        }),
{
    reveal(coinbase_tx);
    let cb = coinbase_tx(pk_hash, 0, reward);
    let txs = seq![cb];
    let e = Seq::<UtxoV>::empty();
    assert(txs.drop_last() =~= Seq::<TransactionV>::empty());
    assert(txs.last() == cb);
    assert(apply_txs(e, txs.drop_last()) =~= e);
    assert(apply_txs(e, txs) == apply_tx(apply_txs(e, txs.drop_last()), txs.last()));
    assert(apply_txs(e, txs) == apply_tx(e, cb));
    let ins = cb.tx_in;
    assert(ins.drop_last() =~= Seq::<crate::transaction::InputV>::empty());
    assert(crate::utxo_set::remove_all_inputs(e, ins.drop_last()) =~= e);
    assert(crate::utxo_set::remove_all_inputs(e, ins)
        == crate::utxo_set::remove_first_match(
        crate::utxo_set::remove_all_inputs(e, ins.drop_last()),
        ins.last().previous_output,
    ));
    assert(crate::utxo_set::remove_first_match(e, ins.last().previous_output) =~= e);
    assert(crate::utxo_set::remove_all_inputs(e, ins) =~= e);
    let added = crate::utxo_set::added_utxos(crate::transaction::tx_hash_of(cb), cb.tx_out);
    let set = apply_txs(Seq::empty(), txs);
    assert(set =~= added);
    assert(added.len() == 1);
    let u = added[0];
    assert(u.output.script_pubkey == crate::script::p2pkh_lock_script(pk_hash));
    assert(utxo_has_pkhash(u, pk_hash)) by {
        assert(u.output.script_pubkey.subrange(2, 2 + pk_hash.len() as int) =~= pk_hash);
    }
    reveal(Seq::filter);
    assert(set.filter(|x: UtxoV| utxo_has_pkhash(x, pk_hash)) =~= set) by {
        assert(set.drop_last() =~= Seq::<UtxoV>::empty());
        assert(set.last() == u);
    }
    lemma_sum_single(u);
    assert(set =~= seq![u]);
}

} // verus!
