//! The secp256k1 curve, reached through the secp256k1 crate and its global
//! context.
use vstd::prelude::*;
use secp256k1::ecdsa::{RecoverableSignature, RecoveryId};
use crate::bytes::be_value;

verus! {

/// The order of the secp256k1 group.
pub open spec fn curve_order() -> nat {
    0xFFFF_FFFF_FFFF_FFFF_FFFF_FFFF_FFFF_FFFE_BAAE_DCE6_AF48_A03B_BFD2_5E8C_D036_4141nat
}

/// Secrets that are keys: 32 bytes that, read big-endian, are nonzero and
/// below the order of the group.
pub open spec fn valid_scalar(secret: Seq<u8>) -> bool {
    secret.len() == 32 && 0 < be_value(secret) < curve_order()
}

/// Relies on secp256k1's `SecretKey::from_slice`, which accepts 32 bytes
/// exactly when they are nonzero and below the order of the group.
#[verifier::external_body]
pub(crate) fn is_valid_secret(secret: &[u8; 32]) -> (r: bool)
    ensures
        r == valid_scalar(secret@),
{
    secp256k1::SecretKey::from_slice(secret).is_ok()
}

/// The 65-byte uncompressed encoding of the public point of `secret`.
pub uninterp spec fn public_point_of(secret: Seq<u8>) -> Seq<u8>;

/// Relies on secp256k1's `PublicKey::from_secret_key` and
/// `PublicKey::serialize_uncompressed`, which writes the tag 0x04 and then
/// both coordinates.
#[verifier::external_body]
pub(crate) fn public_point(secret: &[u8; 32]) -> (r: [u8; 65])
    requires
        valid_scalar(secret@),
    ensures
        r@ == public_point_of(secret@),
        r[0] == 4,
{
    let key = secp256k1::SecretKey::from_slice(secret).unwrap();
    secp256k1::PublicKey::from_secret_key(secp256k1::SECP256K1, &key).serialize_uncompressed()
}

/// The DER encoding of the ECDSA signature of `message` made with `secret`,
/// its nonce drawn as RFC 6979 says.
pub uninterp spec fn der_signature_of(secret: Seq<u8>, message: Seq<u8>) -> Seq<u8>;

/// Relies on secp256k1's `Secp256k1::sign_ecdsa`, whose nonce is RFC 6979's,
/// and `ecdsa::Signature::serialize_der`.
#[verifier::external_body]
pub(crate) fn sign_der(secret: &[u8; 32], message: &[u8; 32]) -> (r: Vec<u8>)
    requires
        valid_scalar(secret@),
    ensures
        r@ == der_signature_of(secret@, message@),
{
    let key = secp256k1::SecretKey::from_slice(secret).unwrap();
    let digest = secp256k1::Message::from_digest(*message);
    secp256k1::SECP256K1.sign_ecdsa(&digest, &key).serialize_der().to_vec()
}

/// The recoverable ECDSA signature of `message` made with `secret`: the
/// recovery id, then the 64 bytes of r and s.
pub uninterp spec fn recoverable_signature_of(secret: Seq<u8>, message: Seq<u8>) -> Seq<u8>;

/// Relies on secp256k1's `Secp256k1::sign_ecdsa_recoverable` and
/// `RecoverableSignature::serialize_compact`, whose recovery id is 0 to 3.
#[verifier::external_body]
pub(crate) fn sign_recoverable(secret: &[u8; 32], message: &[u8; 32]) -> (r: (u8, [u8; 64]))
    requires
        valid_scalar(secret@),
    ensures
        r.0 < 4,
        seq![r.0] + r.1@ == recoverable_signature_of(secret@, message@),
{
    let key = secp256k1::SecretKey::from_slice(secret).unwrap();
    let digest = secp256k1::Message::from_digest(*message);
    let (id, data) = secp256k1::SECP256K1.sign_ecdsa_recoverable(&digest, &key).serialize_compact();
    (id.to_i32() as u8, data)
}

/// Relies on secp256k1's `RecoveryId::from_i32`,
/// `RecoverableSignature::from_compact` and `Secp256k1::recover_ecdsa`, which
/// gives the public key whose signature of `message` the bytes are: for a
/// signature made by `sign_ecdsa_recoverable` that is the signer's key.
#[verifier::external_body]
pub(crate) fn recover_point(message: &[u8; 32], id: u8, data: &[u8; 64]) -> (r: Option<[u8; 65]>)
    ensures
        r matches Some(point) ==> point[0] == 4,
        r is None ==> !exists|secret: Seq<u8>|
            valid_scalar(secret) && #[trigger] recoverable_signature_of(secret, message@) == seq![id]
                + data@,
        r matches Some(point) ==> forall|secret: Seq<u8>|
            valid_scalar(secret) && #[trigger] recoverable_signature_of(secret, message@) == seq![id]
                + data@ ==> point@ == public_point_of(secret),
{
    let id = match RecoveryId::from_i32(id as i32) {
        Ok(id) => id,
        Err(_) => return None,
    };
    let signature = match RecoverableSignature::from_compact(data, id) {
        Ok(signature) => signature,
        Err(_) => return None,
    };
    let digest = secp256k1::Message::from_digest(*message);
    match secp256k1::SECP256K1.recover_ecdsa(&digest, &signature) {
        Ok(key) => Some(key.serialize_uncompressed()),
        Err(_) => None,
    }
}

} // verus!
