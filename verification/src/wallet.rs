//! Key handling and the external cryptographic utility surface: ECDSA
//! signing and verification over secp256k1, pubkey hashing, and the
//! base58-check encodings for WIF private keys and addresses.
//!
//! The crypto itself is relied on, not verified: each call is a trusted
//! wrapper whose result, a pure function of the arguments, is given a name
//! that the rest of the crate's contracts use.

use vstd::prelude::*;
use crate::errors::RitCoinErrror;
use crate::hash::{ripemd160, ripemd160_of, sha256, sha256_of};

verus! {

/// Whether `sig` is a valid DER-encoded ECDSA signature by `pubkey` over the
/// 32-byte digest `hash`: exactly the outcome of secp256k1 verification,
/// false as well when any of the three fails to parse.
pub uninterp spec fn sig_valid(hash: Seq<u8>, sig: Seq<u8>, pubkey: Seq<u8>) -> bool;

/// The DER signature that deterministic (RFC 6979) ECDSA signing of `hash`
/// with `key` produces.
pub uninterp spec fn sig_der_of(hash: Seq<u8>, key: Seq<u8>) -> Seq<u8>;

/// The 65-byte uncompressed public key derived from the 32-byte secret `key`.
pub uninterp spec fn pubkey_uncompressed_of(key: Seq<u8>) -> Seq<u8>;

/// Whether `key` is exactly 32 bytes parsing as an in-range secp256k1
/// secret key: the condition under which signing and public-key derivation
/// succeed.
pub uninterp spec fn seckey_wf(key: Seq<u8>) -> bool;

/// The base58 rendering of `data`.
pub uninterp spec fn b58_encoded(data: Seq<u8>) -> Seq<char>;

/// The bytes that base58 decoding of `s` yields, or `None` when `s` is not
/// valid base58.
pub uninterp spec fn b58_decoded(s: Seq<char>) -> Option<Seq<u8>>;

/// The bytes that hex decoding of `s` yields, or `None` when `s` is not
/// valid hex.
pub uninterp spec fn hex_decoded(s: Seq<char>) -> Option<Seq<u8>>;

/// Relies on secp256k1's deterministic ECDSA: `ecdsa::sign` (RFC 6979
/// nonces) over a 32-byte digest, with the DER encoding capped at 72 bytes,
/// and `PublicKey::from_secret_key`. It succeeds exactly on a 32-byte
/// digest and a well-formed secret key, and what it signs, `ecdsa::verify`
/// accepts under the derived public key (libsecp256k1 signs and verifies
/// low-S form).
#[verifier::external_body]
pub fn sign(hash: &[u8], private_key: &[u8]) -> (r: Result<(Vec<u8>, Vec<u8>), RitCoinErrror>)
    ensures
        r is Ok <==> (hash@.len() == 32 && seckey_wf(private_key@)),
        r matches Ok(p) ==> {
            &&& p.0@ == sig_der_of(hash@, private_key@)
            &&& p.0@.len() <= 72
            &&& p.1@ == pubkey_uncompressed_of(private_key@)
            &&& p.1@.len() == 65
            &&& sig_valid(hash@, p.0@, p.1@)
        },
        private_key@.len() != 32 ==> r is Err,
        r matches Err(e) ==> e is CryptoError,
{
    let key_bytes: [u8; 32] = private_key.try_into().map_err(|e| {
        RitCoinErrror::CryptoError(format!("{:?}", e))
    })?;
    let secret_key = secp256k1::SecretKey::from_secret_bytes(key_bytes).map_err(|e| {
        RitCoinErrror::CryptoError(format!("{:?}", e))
    })?;
    let digest: [u8; 32] = hash.try_into().map_err(|e| {
        RitCoinErrror::CryptoError(format!("{:?}", e))
    })?;
    let msg = secp256k1::Message::from_digest(digest);
    let sig = secp256k1::ecdsa::sign(msg, &secret_key).serialize_der().to_vec();
    let public_key = secp256k1::PublicKey::from_secret_key(&secret_key);
    Ok((sig, public_key.serialize_uncompressed().to_vec()))
}

/// Relies on secp256k1's `ecdsa::verify`: succeeds exactly when `signature`
/// parses as DER, `public_key` parses, `hash` is 32 bytes, and the signature
/// is valid for that digest and key — a deterministic function of the three
/// arguments, named `sig_valid`.
#[verifier::external_body]
pub fn verify(hash: &[u8], signature: &[u8], public_key: &[u8]) -> (r: Result<
    (),
    RitCoinErrror,
>)
    ensures
        r is Ok <==> sig_valid(hash@, signature@, public_key@),
        r matches Err(e) ==> e is CryptoError,
{
    let err = |e: secp256k1::Error| RitCoinErrror::CryptoError(format!("{:?}", e));
    let digest: [u8; 32] = hash.try_into().map_err(|e| {
        RitCoinErrror::CryptoError(format!("{:?}", e))
    })?;
    let msg = secp256k1::Message::from_digest(digest);
    let sig = secp256k1::ecdsa::Signature::from_der(signature).map_err(err)?;
    let pk = secp256k1::PublicKey::from_slice(public_key).map_err(err)?;
    secp256k1::ecdsa::verify(&sig, msg, &pk).map_err(err)
}

/// Relies on secp256k1's `PublicKey::from_secret_key` and
/// `serialize_uncompressed`: the 65-byte uncompressed public key of a
/// well-formed (32-byte, in-range) secret key, failing exactly on any
/// other key.
#[verifier::external_body]
pub fn private_key_to_public_key(private_key: &[u8]) -> (r: Result<Vec<u8>, RitCoinErrror>)
    ensures
        r is Ok <==> seckey_wf(private_key@),
        r matches Ok(pk) ==> {
            &&& pk@ == pubkey_uncompressed_of(private_key@)
            &&& pk@.len() == 65
        },
        private_key@.len() != 32 ==> r is Err,
        r matches Err(e) ==> e is CryptoError,
{
    let key_bytes: [u8; 32] = private_key.try_into().map_err(|e| {
        RitCoinErrror::CryptoError(format!("{:?}", e))
    })?;
    let secret_key = secp256k1::SecretKey::from_secret_bytes(key_bytes).map_err(|e| {
        RitCoinErrror::CryptoError(format!("{:?}", e))
    })?;
    let public_key = secp256k1::PublicKey::from_secret_key(&secret_key);
    Ok(public_key.serialize_uncompressed().to_vec())
}

/// Relies on secp256k1's `generate_keypair` over the operating system's
/// randomness. Nothing can be promised of a fresh key beyond its shape: a
/// 32-byte secret whose uncompressed public key is the returned 65 bytes.
#[verifier::external_body]
pub fn generate_ecdsa_key_pair() -> (r: (Vec<u8>, Vec<u8>))
    ensures
        r.0@.len() == 32,
        r.1@ == pubkey_uncompressed_of(r.0@),
        r.1@.len() == 65,
{
    let (secret_key, public_key) = secp256k1::generate_keypair(&mut secp256k1::rand::rng());
    (secret_key.to_secret_bytes().to_vec(), public_key.serialize_uncompressed().to_vec())
}

/// Relies on bs58's `encode`: the base58 rendering of `data`, which its
/// `decode` inverts.
#[verifier::external_body]
pub fn b58_encode(data: &[u8]) -> (r: String)
    ensures
        r@ == b58_encoded(data@),
        b58_decoded(r@) == Some(data@),
{
    bs58::encode(data).into_string()
}

/// Relies on bs58's `decode`: the bytes of a valid base58 string, an error
/// on any other input.
#[verifier::external_body]
pub fn b58_decode(s: &str) -> (r: Result<Vec<u8>, RitCoinErrror>)
    ensures
        r is Ok <==> b58_decoded(s@) is Some,
        r matches Ok(v) ==> b58_decoded(s@) == Some(v@),
        r matches Err(e) ==> e is EncodingError,
{
    bs58::decode(s).into_vec().map_err(|e| RitCoinErrror::EncodingError(format!("{:?}", e)))
}

/// Relies on hex's `decode`: the bytes of a valid hex string, an error on
/// any other input.
#[verifier::external_body]
pub fn hex_decode(s: &str) -> (r: Result<Vec<u8>, RitCoinErrror>)
    ensures
        r is Ok <==> hex_decoded(s@) is Some,
        r matches Ok(v) ==> hex_decoded(s@) == Some(v@),
        r matches Err(e) ==> e is EncodingError,
{
    hex::decode(s).map_err(|e| RitCoinErrror::EncodingError(format!("{:?}", e)))
}

/// The network prefix of a pay-to-pubkey-hash address.
pub const NETWORK_ID: u8 = 0x00;

/// The prefix of a WIF-encoded private key.
pub const VERSION_NUMBER: u8 = 0x80;

/// The first four bytes of the double SHA-256 of `data`: the base58-check
/// checksum.
pub open spec fn checksum_of(data: Seq<u8>) -> Seq<u8> {
    sha256_of(sha256_of(data)).take(4)
}

/// The byte string whose base58 rendering is the WIF form of the private
/// key `key`: a version prefix, the key, and its checksum.
pub open spec fn wif_payload(key: Seq<u8>) -> Seq<u8> {
    (seq![VERSION_NUMBER] + key) + checksum_of(seq![VERSION_NUMBER] + key)
}

/// The pubkey-hash that addresses a public key: `RIPEMD160(SHA256(pk))`.
pub open spec fn pk_hash_of(public_key: Seq<u8>) -> Seq<u8> {
    ripemd160_of(sha256_of(public_key))
}

/// The byte string whose base58 rendering is the address of a public key: a
/// network prefix, the pubkey-hash, and its checksum.
pub open spec fn address_payload(public_key: Seq<u8>) -> Seq<u8> {
    (seq![NETWORK_ID] + pk_hash_of(public_key)) + checksum_of(
        seq![NETWORK_ID] + pk_hash_of(public_key),
    )
}

/// The base58-check checksum of `key`.
fn get_checksum(key: &[u8]) -> (r: Vec<u8>)
    ensures
        r@ == checksum_of(key@),
{
    let hash1 = sha256(key);
    let mut hash2 = sha256(hash1.as_slice());
    hash2.truncate(4);
    assert(hash2@ =~= checksum_of(key@));
    hash2
}

/// Encodes a hex-rendered private key in wallet import format: version
/// prefix, key bytes, checksum, all base58-rendered. Fails exactly when the
/// input is not valid hex.
pub fn private_key_to_wif(key: &str) -> (r: Result<String, RitCoinErrror>)
    ensures
        r is Ok <==> hex_decoded(key@) is Some,
        r matches Ok(w) ==> (hex_decoded(key@) matches Some(k) && w@ == b58_encoded(
            wif_payload(k),
        )),
        r matches Err(e) ==> e is EncodingError,
{
    let decoded = match hex_decode(key) {
        Ok(d) => d,
        Err(e) => {
            return Err(e);
        },
    };
    let mut payload: Vec<u8> = Vec::new();
    payload.push(VERSION_NUMBER);
    payload.extend_from_slice(decoded.as_slice());
    let checksum = get_checksum(payload.as_slice());
    assert(payload@ =~= seq![VERSION_NUMBER] + decoded@);
    let mut full = payload;
    full.extend_from_slice(checksum.as_slice());
    assert(full@ =~= wif_payload(decoded@));
    Ok(b58_encode(full.as_slice()))
}

/// Recovers the private key bytes from a WIF string: base58-decode, then
/// strip the version prefix and the four checksum bytes. Fails exactly when
/// the input is not base58 or decodes to fewer than five bytes.
pub fn wif_to_private_key(key: &str) -> (r: Result<Vec<u8>, RitCoinErrror>)
    ensures
        r is Ok <==> (b58_decoded(key@) matches Some(d) && d.len() >= 5),
        r matches Ok(v) ==> (b58_decoded(key@) matches Some(d) && v@ == d.subrange(
            1,
            d.len() - 4,
        )),
        r matches Err(e) ==> e is EncodingError,
{
    let decoded = match b58_decode(key) {
        Ok(d) => d,
        Err(e) => {
            return Err(e);
        },
    };
    if decoded.len() < 5 {
        return Err(
            RitCoinErrror::EncodingError("decoded key shorter than its checksum".to_string()),
        );
    }
    let mut out: Vec<u8> = Vec::new();
    let end = decoded.len() - 4;
    let mut i: usize = 1;
    while i < end
        invariant
            1 <= i <= end,
            end == decoded@.len() - 4,
            decoded@.len() >= 5,
            out@ =~= decoded@.subrange(1, i as int),
        decreases end - i,
    {
        out.push(decoded[i]);
        i = i + 1;
    }
    assert(out@ =~= decoded@.subrange(1, decoded@.len() - 4));
    Ok(out)
}

/// The pubkey-hash of a public key: `RIPEMD160(SHA256(public_key))`.
pub fn pk_hash_from_public_key(public_key: &[u8]) -> (r: Vec<u8>)
    ensures
        r@ == pk_hash_of(public_key@),
        r@.len() == 20,
{
    let sha256_hash = sha256(public_key);
    ripemd160(sha256_hash.as_slice())
}

/// The base58-check address of a public key: network prefix, pubkey-hash,
/// checksum, base58-rendered.
pub fn get_address(public_key: &[u8]) -> (r: String)
    ensures
        r@ == b58_encoded(address_payload(public_key@)),
        b58_decoded(r@) == Some(address_payload(public_key@)),
{
    let pk_hash = pk_hash_from_public_key(public_key);
    let mut payload: Vec<u8> = Vec::new();
    payload.push(NETWORK_ID);
    payload.extend_from_slice(pk_hash.as_slice());
    assert(payload@ =~= seq![NETWORK_ID] + pk_hash_of(public_key@));
    let checksum = get_checksum(payload.as_slice());
    let mut full = payload;
    full.extend_from_slice(checksum.as_slice());
    assert(full@ =~= address_payload(public_key@));
    b58_encode(full.as_slice())
}

/// Recovers the pubkey-hash from an address: base58-decode, then strip the
/// network prefix and the four checksum bytes. Fails exactly when the input
/// is not base58 or decodes to fewer than five bytes.
pub fn address_to_pkhash(address: &str) -> (r: Result<Vec<u8>, RitCoinErrror>)
    ensures
        r is Ok <==> (b58_decoded(address@) matches Some(d) && d.len() >= 5),
        r matches Ok(v) ==> (b58_decoded(address@) matches Some(d) && v@ == d.subrange(
            1,
            d.len() - 4,
        )),
        r matches Err(e) ==> e is EncodingError,
{
    let decoded = match b58_decode(address) {
        Ok(d) => d,
        Err(e) => {
            return Err(e);
        },
    };
    if decoded.len() < 5 {
        return Err(
            RitCoinErrror::EncodingError("decoded address shorter than its checksum".to_string()),
        );
    }
    let mut out: Vec<u8> = Vec::new();
    let end = decoded.len() - 4;
    let mut i: usize = 1;
    while i < end
        invariant
            1 <= i <= end,
            end == decoded@.len() - 4,
            decoded@.len() >= 5,
            out@ =~= decoded@.subrange(1, i as int),
        decreases end - i,
    {
        out.push(decoded[i]);
        i = i + 1;
    }
    assert(out@ =~= decoded@.subrange(1, decoded@.len() - 4));
    Ok(out)
}

} // verus!
