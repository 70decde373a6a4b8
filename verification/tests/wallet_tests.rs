use ritcoin::pending_pool::tx_str_to_vec;
use ritcoin::wallet::{
    address_to_pkhash, get_address, pk_hash_from_public_key, private_key_to_public_key,
    private_key_to_wif, wif_to_private_key,
};

#[test]
fn wif_encoding_round_trips() {
    let key_hex = "0c28fca386c7a227600b2fe50b7cae11ec86d3bf1fbe471be89827e19d72aa1d";
    let wif = private_key_to_wif(key_hex).unwrap();
    let back = wif_to_private_key(&wif).unwrap();
    assert_eq!(back, hex::decode(key_hex).unwrap());
}

#[test]
fn wif_of_invalid_hex_fails() {
    assert!(private_key_to_wif("zz").is_err());
}

#[test]
fn address_round_trips_to_pubkey_hash() {
    let private_key = [0x03u8; 32];
    let public_key = private_key_to_public_key(&private_key).unwrap();
    let address = get_address(&public_key);
    let pk_hash = address_to_pkhash(&address).unwrap();
    assert_eq!(pk_hash, pk_hash_from_public_key(&public_key));
}

#[test]
fn public_key_is_uncompressed() {
    let private_key = [0x04u8; 32];
    let public_key = private_key_to_public_key(&private_key).unwrap();
    assert_eq!(public_key.len(), 65);
    assert_eq!(public_key[0], 0x04);
}

#[test]
fn invalid_private_key_is_rejected() {
    assert!(private_key_to_public_key(&[0u8; 32]).is_err());
    assert!(private_key_to_public_key(&[1u8; 16]).is_err());
}

#[test]
fn pool_line_parses_back_into_bytes() {
    assert_eq!(tx_str_to_vec("[1, 2, 3]"), vec![1, 2, 3]);
    assert_eq!(tx_str_to_vec("[255, 0]"), vec![255, 0]);
}

#[test]
fn pool_line_of_no_numbers_is_empty() {
    assert_eq!(tx_str_to_vec(""), Vec::<u8>::new());
    assert_eq!(tx_str_to_vec("[]"), Vec::<u8>::new());
}

#[test]
fn pool_line_runs_above_a_byte_are_discarded() {
    assert_eq!(tx_str_to_vec("[300, 5]"), vec![5]);
}
