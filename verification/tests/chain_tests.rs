use ritcoin::blockchain::{BlockChain, DEFAULT_COINBASE_AMOUNT, DEFAULT_DIFFICULTY};
use ritcoin::block::Block;
use ritcoin::errors::RitCoinErrror;
use ritcoin::pending_pool::accept_serialized_transaction;
use ritcoin::serializer::serialize;
use ritcoin::transaction::{CoinBaseTransaction, Transaction};
use ritcoin::utxo_set::UtxoSet;
use ritcoin::wallet::{get_address, pk_hash_from_public_key, private_key_to_public_key};
use ritcoin::wallet_cli::{send, unlock, unlock_all};

fn identity(private_key: &[u8]) -> (Vec<u8>, String) {
    let public_key = private_key_to_public_key(private_key).unwrap();
    let pk_hash = pk_hash_from_public_key(&public_key);
    let address = get_address(&public_key);
    (pk_hash, address)
}

#[test]
fn genesis_reward_becomes_the_miner_balance() {
    let (pk_hash, address) = identity(&[0x11u8; 32]);
    let mut chain = BlockChain::new();
    chain.mine(&pk_hash, vec![]).unwrap();
    assert_eq!(chain.len(), 1);
    assert_eq!(chain.get_balance(&address).unwrap(), DEFAULT_COINBASE_AMOUNT);
}

#[test]
fn mined_blocks_meet_the_difficulty() {
    let (pk_hash, _) = identity(&[0x11u8; 32]);
    let mut chain = BlockChain::new();
    chain.mine(&pk_hash, vec![]).unwrap();
    let hash = chain.get_blocks()[0].hash();
    for i in 0..DEFAULT_DIFFICULTY {
        assert_eq!(hash[i], 0);
    }
}

#[test]
fn nonce_search_over_a_fixed_timestamp_is_deterministic() {
    let (pk_hash, _) = identity(&[0x11u8; 32]);
    let mut nonces = Vec::new();
    for _ in 0..2 {
        let mut block = BlockChain::genesis_block(0, &pk_hash);
        block.set_timestamp(1_000_000);
        let mut found = false;
        for _ in 0..20_000_000u64 {
            let h = block.hash();
            if h[0] == 0 && h[1] == 0 {
                found = true;
                break;
            }
            block.increment_nonce();
        }
        assert!(found);
        nonces.push(block.get_nonce());
    }
    assert_eq!(nonces[0], nonces[1]);
}

#[test]
fn bad_link_fails_chain_verification_at_the_first_block() {
    let (pk_hash, _) = identity(&[0x11u8; 32]);
    let block0 = BlockChain::genesis_block(0, &pk_hash);
    let coinbase1 = <Transaction as CoinBaseTransaction>::new(&pk_hash, 1, DEFAULT_COINBASE_AMOUNT);
    // Block 1 references a previous hash that is not block 0's hash.
    let block1 = Block::new(vec![9u8; 32], vec![serialize(&coinbase1)]);
    let chain = BlockChain::from_parts(vec![block0, block1], vec![], UtxoSet::new());
    let result = chain.verify_chain();
    assert!(matches!(result, Err(RitCoinErrror::ChainLinkMismatch(_))));
}

#[test]
fn correctly_linked_chain_verifies() {
    let (pk_hash, _) = identity(&[0x11u8; 32]);
    let mut chain = BlockChain::new();
    chain.mine(&pk_hash, vec![]).unwrap();
    chain.mine(&pk_hash, vec![]).unwrap();
    assert_eq!(chain.len(), 2);
    assert!(chain.verify_chain().is_ok());
}

#[test]
fn end_to_end_spend_conserves_amounts() {
    let miner_key = [0x11u8; 32];
    let receiver_key = [0x12u8; 32];
    let other_miner_key = [0x13u8; 32];
    let (pk_a, address_a) = identity(&miner_key);
    let (pk_b, address_b) = identity(&receiver_key);
    let (pk_c, address_c) = identity(&other_miner_key);

    let mut chain = BlockChain::new();
    chain.mine(&pk_a, vec![]).unwrap();
    assert_eq!(chain.get_balance(&address_a).unwrap(), 100);

    let spend = send(chain.get_utxos_ref(), &pk_a, &pk_b, 30, &miner_key, &vec![]).unwrap();
    // The submitted transaction is accepted into the pool by validation.
    assert!(accept_serialized_transaction(&spend, chain.get_utxos_ref()).is_ok());

    chain.mine(&pk_c, vec![spend]).unwrap();
    assert_eq!(chain.len(), 2);
    assert_eq!(chain.get_balance(&address_b).unwrap(), 30);
    assert_eq!(chain.get_balance(&address_a).unwrap(), 70);
    assert_eq!(chain.get_balance(&address_c).unwrap(), 100);
}

#[test]
fn longer_valid_chain_is_adopted_with_a_rebuilt_utxo_set() {
    let (pk_a, address_a) = identity(&[0x11u8; 32]);
    let mut ours = BlockChain::new();
    let mut theirs = BlockChain::new();
    theirs.mine(&pk_a, vec![]).unwrap();
    theirs.mine(&pk_a, vec![]).unwrap();
    assert!(ours.adopt_chain(&theirs));
    assert_eq!(ours.len(), 2);
    assert_eq!(ours.get_balance(&address_a).unwrap(), 200);
}

#[test]
fn shorter_or_equal_chains_are_not_adopted() {
    let (pk_a, _) = identity(&[0x11u8; 32]);
    let mut ours = BlockChain::new();
    ours.mine(&pk_a, vec![]).unwrap();
    let mut theirs = BlockChain::new();
    theirs.mine(&pk_a, vec![]).unwrap();
    assert!(!ours.adopt_chain(&theirs));
    assert_eq!(ours.len(), 1);
}

#[test]
fn spending_more_than_the_balance_fails() {
    let (pk_a, _) = identity(&[0x11u8; 32]);
    let (pk_b, _) = identity(&[0x12u8; 32]);
    let mut chain = BlockChain::new();
    chain.mine(&pk_a, vec![]).unwrap();
    let result = send(chain.get_utxos_ref(), &pk_a, &pk_b, 101, &[0x11u8; 32], &vec![]);
    assert!(matches!(result, Err(RitCoinErrror::InsufficientFunds(_))));
}

#[test]
fn reserved_utxos_are_not_selected_again() {
    let (pk_a, _) = identity(&[0x11u8; 32]);
    let (pk_b, _) = identity(&[0x12u8; 32]);
    let mut chain = BlockChain::new();
    chain.mine(&pk_a, vec![]).unwrap();
    let first = send(chain.get_utxos_ref(), &pk_a, &pk_b, 30, &[0x11u8; 32], &vec![]).unwrap();
    let prepared = vec![ritcoin::serializer::deserialize(&first).unwrap()];
    let second = send(chain.get_utxos_ref(), &pk_a, &pk_b, 30, &[0x11u8; 32], &prepared);
    assert!(matches!(second, Err(RitCoinErrror::InsufficientFunds(_))));
}

#[test]
fn unlock_releases_one_reservation_and_unlock_all_every_one() {
    let mut prepared: Vec<Vec<u8>> = vec![vec![1, 2], vec![3, 4]];
    unlock("[1, 2]", &mut prepared);
    assert_eq!(prepared, vec![vec![3, 4]]);
    unlock("[9]", &mut prepared);
    assert_eq!(prepared, vec![vec![3, 4]]);
    unlock_all(&mut prepared);
    assert!(prepared.is_empty());
}

#[test]
fn submitted_garbage_is_rejected() {
    let chain = BlockChain::new();
    assert!(accept_serialized_transaction(&[1, 2, 3], chain.get_utxos_ref()).is_err());
}
