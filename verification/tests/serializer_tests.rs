use ritcoin::serializer::{deserialize, serialize};
use ritcoin::transaction::{CoinBaseTransaction, Input, Output, Transaction};
use ritcoin::utxo_set::Utxo;

#[test]
fn coinbase_round_trips_through_the_wire_format() {
    let pk_hash = [0x42u8; 20];
    let tx = <Transaction as CoinBaseTransaction>::new(&pk_hash, 7, 100);
    let bytes = serialize(&tx);
    let back = deserialize(&bytes).unwrap();
    assert_eq!(serialize(&back), bytes);
    assert_eq!(back.hash(), tx.hash());
    assert_eq!(back.get_tx_in().len(), 1);
    assert_eq!(back.get_tx_out().len(), 1);
    assert_eq!(back.get_tx_out()[0].get_amount(), 100);
}

#[test]
fn spend_round_trips_through_the_wire_format() {
    let sender = [0x01u8; 20];
    let receiver = [0x02u8; 20];
    let funding = Output::create(80, &sender);
    let utxo = Utxo::new(vec![9u8; 32], 0, funding);
    let inputs = Input::create_inputs(&vec![utxo]);
    let outputs = Output::create_single(30, 80, &sender, &receiver);
    let tx = Transaction::new(inputs, outputs);
    let bytes = serialize(&tx);
    let back = deserialize(&bytes).unwrap();
    assert_eq!(serialize(&back), bytes);
    assert_eq!(back.hash(), tx.hash());
    assert_eq!(back.get_tx_out().len(), 2);
    assert_eq!(back.get_tx_out()[0].get_amount(), 30);
    assert_eq!(back.get_tx_out()[1].get_amount(), 50);
}

#[test]
fn garbage_bytes_do_not_decode() {
    assert!(deserialize(&[1, 2, 3]).is_err());
    assert!(deserialize(&[]).is_err());
}

#[test]
fn trailing_bytes_are_rejected() {
    let pk_hash = [0x42u8; 20];
    let tx = <Transaction as CoinBaseTransaction>::new(&pk_hash, 0, 1);
    let mut bytes = serialize(&tx);
    bytes.push(0);
    assert!(deserialize(&bytes).is_err());
}

#[test]
fn verify_skips_unresolved_inputs_where_validate_rejects_them() {
    let pk_hash = [0x05u8; 20];
    let missing = Utxo::new(vec![7u8; 32], 0, Output::create(10, &pk_hash));
    let inputs = Input::create_inputs(&vec![missing]);
    let outputs = vec![Output::create(10, &pk_hash)];
    let tx = Transaction::new(inputs, outputs);
    // No UTXO resolves: verify skips the input, validate rejects it.
    assert!(tx.verify(&vec![]).is_ok());
    assert!(matches!(
        tx.validate(&vec![]),
        Err(ritcoin::errors::RitCoinErrror::UnknownUtxo(_))
    ));
}
