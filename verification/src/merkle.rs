//! The Merkle tree builder: commits an ordered list of serialized
//! transactions to a single root hash. Leaves are SHA-256 digests of the
//! serialized transactions; adjacent pairs are combined with
//! `SHA-256(left || right)`, duplicating the last element of an odd-length
//! level, until one hash remains.

use vstd::prelude::*;
use crate::hash::{sha256, sha256_of};

verus! {

/// An odd-length level (of at least two hashes) gets its last element
/// duplicated before pairing; an even-length level is unchanged.
pub open spec fn pad_level(hs: Seq<Seq<u8>>) -> Seq<Seq<u8>> {
    if hs.len() % 2 == 1 {
        hs.push(hs.last())
    } else {
        hs
    }
}

/// Combines an even-length level pairwise: element `i` of the result is
/// `SHA-256(hs[2i] || hs[2i + 1])`.
pub open spec fn combine_level(hs: Seq<Seq<u8>>) -> Seq<Seq<u8>> {
    Seq::new(hs.len() / 2, |i: int| sha256_of(hs[2 * i] + hs[2 * i + 1]))
}

/// The Merkle root of a level of hashes: empty input yields the empty hash,
/// a single hash is its own root, and a longer level is padded, paired, and
/// reduced recursively.
pub open spec fn merkle_root_of(hs: Seq<Seq<u8>>) -> Seq<u8>
    decreases hs.len(),
{
    if hs.len() == 0 {
        Seq::empty()
    } else if hs.len() == 1 {
        hs[0]
    } else {
        merkle_root_of(combine_level(pad_level(hs)))
    }
}

/// The root that `get_merkle_root` commits a transaction list to: the Merkle
/// root over the SHA-256 digests of the serialized transactions.
pub open spec fn merkle_root_of_transactions(txs: Seq<Seq<u8>>) -> Seq<u8> {
    merkle_root_of(txs.map_values(|t: Seq<u8>| sha256_of(t)))
}

/// `SHA-256(lhs || rhs)`, the parent of two adjacent hashes.
fn merge(lhs: &[u8], rhs: &[u8]) -> (r: Vec<u8>)
    ensures
        r@ == sha256_of(lhs@ + rhs@),
{
    let mut buf: Vec<u8> = Vec::new();
    buf.extend_from_slice(lhs);
    buf.extend_from_slice(rhs);
    assert(buf@ =~= lhs@ + rhs@);
    sha256(buf.as_slice())
}

/// Reduces one level of hashes to the Merkle root.
fn merkle_root(hashes: &Vec<Vec<u8>>) -> (r: Vec<u8>)
    ensures
        r@ == merkle_root_of(hashes.deep_view()),
    decreases hashes.deep_view().len(),
{
    let n = hashes.len();
    if n == 0 {
        Vec::new()
    } else if n == 1 {
        hashes[0].clone()
    } else {
        // Number of parents of the (virtually) padded level: ceil(n / 2).
        let half = n / 2 + n % 2;
        let mut parents: Vec<Vec<u8>> = Vec::new();
        let ghost padded = pad_level(hashes.deep_view());
        assert(padded.len() == 2 * half);
        for i in 0..half
            invariant
                n == hashes@.len(),
                2 <= n,
                half == n / 2 + n % 2,
                padded == pad_level(hashes.deep_view()),
                padded.len() == 2 * half,
                parents@.len() == i,
                forall|j: int| 0 <= j < i ==> parents@[j]@ == combine_level(padded)[j],
        {
            let right_index = if 2 * i + 1 < n {
                2 * i + 1
            } else {
                n - 1
            };
            assert(padded[2 * i] =~= hashes@[2 * i as int]@);
            assert(padded[2 * i + 1] =~= hashes@[right_index as int]@);
            let parent = merge(hashes[2 * i].as_slice(), hashes[right_index].as_slice());
            assert(parent@ == combine_level(padded)[i as int]);
            parents.push(parent);
        }
        assert(parents.deep_view() =~~= combine_level(padded));
        merkle_root(&parents)
    }
}

/// Commits serialized transactions to one root hash: each transaction is
/// hashed with SHA-256 to form the leaves, which are then reduced pairwise.
pub fn get_merkle_root(serialized_transactions: &Vec<Vec<u8>>) -> (r: Vec<u8>)
    ensures
        r@ == merkle_root_of_transactions(serialized_transactions.deep_view()),
{
    let mut transaction_hashes: Vec<Vec<u8>> = Vec::new();
    let n = serialized_transactions.len();
    let ghost leaves = serialized_transactions.deep_view().map_values(|t: Seq<u8>| sha256_of(t));
    for i in 0..n
        invariant
            n == serialized_transactions@.len(),
            leaves == serialized_transactions.deep_view().map_values(|t: Seq<u8>| sha256_of(t)),
            transaction_hashes@.len() == i,
            forall|j: int| 0 <= j < i ==> transaction_hashes@[j]@ == leaves[j],
    {
        assert(serialized_transactions.deep_view()[i as int] =~= serialized_transactions@[i as int]@);
        transaction_hashes.push(sha256(serialized_transactions[i].as_slice()));
    }
    assert(transaction_hashes.deep_view() =~~= leaves);
    merkle_root(&transaction_hashes)
}

/// The root of an odd-length level of three or more hashes equals the root
/// of the same level with its last element duplicated: padding is the first
/// reduction step either way. (A single hash is its own root, so the claim
/// starts at three.)
pub proof fn lemma_merkle_root_odd_dup(hs: Seq<Seq<u8>>)
    requires
        hs.len() % 2 == 1,
        hs.len() >= 3,
    ensures
        merkle_root_of(hs) == merkle_root_of(hs.push(hs.last())),
{
    let dup = hs.push(hs.last());
    assert(pad_level(hs) == dup);
    assert(pad_level(dup) == dup);
    assert(merkle_root_of(hs) == merkle_root_of(combine_level(dup)));
    assert(merkle_root_of(dup) == merkle_root_of(combine_level(dup)));
}

/// The same claim lifted to transaction lists: an odd count of three or more
/// serialized transactions commits to the same root as the list with its
/// last transaction repeated.
pub proof fn lemma_merkle_root_transactions_odd_dup(txs: Seq<Seq<u8>>)
    requires
        txs.len() % 2 == 1,
        txs.len() >= 3,
    ensures
        merkle_root_of_transactions(txs) == merkle_root_of_transactions(txs.push(txs.last())),
{
    let leaves = txs.map_values(|t: Seq<u8>| sha256_of(t));
    lemma_merkle_root_odd_dup(leaves);
    assert(txs.push(txs.last()).map_values(|t: Seq<u8>| sha256_of(t)) =~= leaves.push(
        leaves.last(),
    ));
}

} // verus!
