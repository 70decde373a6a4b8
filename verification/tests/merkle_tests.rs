use ritcoin::merkle::get_merkle_root;
use sha2::Digest;

#[test]
fn merkle_root_of_no_transactions_is_empty() {
    let root = get_merkle_root(&vec![]);
    assert_eq!(root, Vec::<u8>::new());
}

#[test]
fn merkle_root_of_single_transaction_is_its_hash() {
    let tx = vec![0xde, 0xad, 0xbe, 0xef];
    let root = get_merkle_root(&vec![tx.clone()]);
    let expected = sha2::Sha256::digest(&tx).to_vec();
    assert_eq!(root, expected);
}

#[test]
fn merkle_root_of_odd_list_equals_root_with_last_duplicated() {
    let a = vec![1u8, 2, 3];
    let b = vec![4u8, 5, 6];
    let c = vec![7u8, 8, 9];
    let odd = get_merkle_root(&vec![a.clone(), b.clone(), c.clone()]);
    let padded = get_merkle_root(&vec![a, b, c.clone(), c]);
    assert_eq!(odd, padded);
}

#[test]
fn merkle_root_of_two_transactions_combines_their_hashes() {
    let a = vec![1u8];
    let b = vec![2u8];
    let root = get_merkle_root(&vec![a.clone(), b.clone()]);
    let ha = sha2::Sha256::digest(&a);
    let hb = sha2::Sha256::digest(&b);
    let mut concat = ha.to_vec();
    concat.extend_from_slice(&hb);
    let expected = sha2::Sha256::digest(&concat).to_vec();
    assert_eq!(root, expected);
}
