use ritcoin::script::execute;
use ritcoin::transaction::{Output, Transaction};
use ritcoin::wallet::{pk_hash_from_public_key, sign};

fn fixtures() -> (Vec<u8>, Vec<u8>, Vec<u8>, Vec<u8>) {
    let private_key = [0x11u8; 32];
    let sighash = [0x22u8; 32];
    let (signature, public_key) = sign(&sighash, &private_key).unwrap();
    let unlocking = Transaction::calculate_sig_script(&signature, &public_key);
    let pk_hash = pk_hash_from_public_key(&public_key);
    let locking = Output::create(0, &pk_hash).get_script_pubkey().to_vec();
    (unlocking, locking, sighash.to_vec(), public_key)
}

#[test]
fn correct_p2pkh_unlocking_script_validates() {
    let (unlocking, locking, sighash, _) = fixtures();
    assert!(execute(&unlocking, &locking, &sighash).is_ok());
}

#[test]
fn flipped_signature_byte_fails() {
    let (mut unlocking, locking, sighash, _) = fixtures();
    // Byte 1 is the first signature byte in the fixed layout.
    unlocking[1] ^= 0x01;
    assert!(execute(&unlocking, &locking, &sighash).is_err());
}

#[test]
fn flipped_public_key_byte_fails() {
    let (mut unlocking, locking, sighash, _) = fixtures();
    let last = unlocking.len() - 1;
    unlocking[last] ^= 0x01;
    assert!(execute(&unlocking, &locking, &sighash).is_err());
}

#[test]
fn flipped_embedded_pubkey_hash_fails() {
    let (unlocking, mut locking, sighash, _) = fixtures();
    // Byte 2 is the first embedded pubkey-hash byte of the locking script.
    locking[2] ^= 0x01;
    assert!(execute(&unlocking, &locking, &sighash).is_err());
}

#[test]
fn wrong_sighash_fails() {
    let (unlocking, locking, _, _) = fixtures();
    let other = [0x23u8; 32];
    assert!(execute(&unlocking, &locking, &other).is_err());
}

#[test]
fn malformed_unlocking_script_is_a_script_error() {
    let (_, locking, sighash, _) = fixtures();
    let garbage = vec![0u8; 3];
    assert!(execute(&garbage, &locking, &sighash).is_err());
}
