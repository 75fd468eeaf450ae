//! Hashing, signing and key recovery, which are computed outside this crate.
//!
//! Nothing here is proved: each function below calls a library and states what that
//! library computes. What a hash, a key or a signature is takes pages to say, but it is a
//! function of the arguments alone, so each has a name by which the rest of the crate
//! speaks of it.

use vstd::prelude::*;

verus! {

/// The Keccak-256 digest of `data`: 32 bytes.
pub uninterp spec fn keccak_256_digest(data: Seq<u8>) -> Seq<u8>;

/// The public key that signed the 32-byte digest `message` to give the 65-byte signature
/// `signature`, as 64 bytes without the leading tag; nothing where the signature is bad.
pub uninterp spec fn secp256k1_recovered_key(signature: Seq<u8>, message: Seq<u8>) -> Option<
    Seq<u8>,
>;

/// The public key of the 32-byte secret key `secret`, as 65 bytes with the leading tag;
/// nothing where `secret` is no valid key.
pub uninterp spec fn secp256k1_public_key(secret: Seq<u8>) -> Option<Seq<u8>>;

/// The signature that `secret` gives to the 32-byte digest `message`: the 64 bytes of `r`
/// and `s`, and the recovery id; nothing where `secret` is no valid key.
pub uninterp spec fn secp256k1_signature(message: Seq<u8>, secret: Seq<u8>) -> Option<
    (Seq<u8>, u8),
>;

/// Calls `sp_io::hashing::keccak_256`, which hashes `data` with Keccak-256. The contract
/// claims only that the digest is the named function of the bytes of `data`.
#[verifier::external_body]
pub(crate) fn keccak_256(data: &[u8]) -> (digest: [u8; 32])
    ensures
        digest@ == keccak_256_digest(data@),
{
    sp_io::hashing::keccak_256(data)
}

/// Calls `sp_io::crypto::secp256k1_ecdsa_recover`, which returns the 64-byte public key
/// that signed `message`, or an error where the recovery id, the signature's `r` and `s`,
/// or the signature as a whole is bad. The contract claims that the key is the named
/// function of the two arguments, and that `None` stands for each of the errors.
#[verifier::external_body]
pub(crate) fn secp256k1_ecdsa_recover(signature: &[u8; 65], message: &[u8; 32]) -> (key: Option<
    [u8; 64],
>)
    ensures
        match key {
            Some(bytes) => secp256k1_recovered_key(signature@, message@) == Some(bytes@),
            None => secp256k1_recovered_key(signature@, message@) is None,
        },
{
    sp_io::crypto::secp256k1_ecdsa_recover(signature, message).ok()
}

/// Calls `libsecp256k1::PublicKey::from_secret_key` on the key that
/// `libsecp256k1::SecretKey::parse` reads from `secret`, and returns the key's full
/// serialization. The contract claims that the result is the named function of `secret`,
/// and that `None` stands for a secret that does not parse.
#[verifier::external_body]
pub(crate) fn public_key_of(secret: &[u8; 32]) -> (key: Option<[u8; 65]>)
    ensures
        match key {
            Some(bytes) => secp256k1_public_key(secret@) == Some(bytes@),
            None => secp256k1_public_key(secret@) is None,
        },
{
    match libsecp256k1::SecretKey::parse(secret) {
        Ok(parsed) => Some(libsecp256k1::PublicKey::from_secret_key(&parsed).serialize()),
        Err(_) => None,
    }
}

/// Calls `libsecp256k1::sign` with the key that `libsecp256k1::SecretKey::parse` reads
/// from `secret`, and returns the serialized signature and recovery id. The signature is
/// deterministic: its nonce is derived from the key and the message. The contract claims
/// that the result is the named function of the two arguments, and that `None` stands for
/// a secret that does not parse.
#[verifier::external_body]
pub(crate) fn sign_digest(message: &[u8; 32], secret: &[u8; 32]) -> (signed: Option<
    ([u8; 64], u8),
>)
    ensures
        match signed {
            Some((bytes, recovery)) => secp256k1_signature(message@, secret@) == Some(
                (bytes@, recovery),
            ),
            None => secp256k1_signature(message@, secret@) is None,
        },
{
    match libsecp256k1::SecretKey::parse(secret) {
        Ok(parsed) => {
            let (signature, recovery) = libsecp256k1::sign(
                &libsecp256k1::Message::parse(message),
                &parsed,
            );
            Some((signature.serialize(), recovery.serialize()))
        },
        Err(_) => None,
    }
}

/// Calls `parity_scale_codec::Encode::encode` on the 32 bytes of an account. An array of
/// bytes is encoded as the bytes themselves, without a length, and the contract claims so.
#[verifier::external_body]
pub(crate) fn encode_account(account: &[u8; 32]) -> (encoded: Vec<u8>)
    ensures
        encoded@ == account@,
{
    parity_scale_codec::Encode::encode(account)
}

} // verus!
