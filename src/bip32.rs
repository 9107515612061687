//! Master keys split from a seed, and key pairs built from private keys.
use vstd::prelude::*;
use vstd::string::StringSliceAdditionalSpecFns;
use crate::crypto::MAX_DIGEST_INPUT;
use crate::curve::{is_valid_secret, valid_scalar};
use crate::network::Network;
use crate::private::{PrivateKey, PrivateKeyView};
use crate::public::{public_key_from, public_key_of, PublicKey};

verus! {

/// What can go wrong when a master key or a key pair is made.
#[derive(Debug, PartialEq, Eq)]
pub enum Bip32Error {
    /// A secret that is zero or not below the order of the curve.
    InvalidScalar,
    /// A domain key too long to be hashed.
    KeyTooLong,
}

/// The HMAC key used when none is given.
pub const DEFAULT_KEY: &'static str = "default_seed";

/// A 32-byte chain code.
pub type ChainCode = [u8; 32];

/// The HMAC-SHA512 tag of `message` under `key`.
pub uninterp spec fn hmac_sha512_of(key: Seq<u8>, message: Seq<u8>) -> Seq<u8>;

/// Relies on ring::hmac with HMAC_SHA512: `Key::new` and `sign` give the
/// 64-byte tag.
#[verifier::external_body]
fn hmac_sha512(key: &[u8], message: &[u8]) -> (r: [u8; 64])
    requires
        key@.len() < MAX_DIGEST_INPUT,
        message@.len() < MAX_DIGEST_INPUT,
    ensures
        r@ == hmac_sha512_of(key@, message@),
{
    let key = ring::hmac::Key::new(ring::hmac::HMAC_SHA512, key);
    let tag = ring::hmac::sign(&key, message);
    let mut out = [0u8; 64];
    out.copy_from_slice(tag.as_ref());
    out
}

/// The public key of `key`'s secret, in the form `public` is in, is `public`.
pub open spec fn matches_secret(key: PrivateKey, public: PublicKey) -> bool {
    &&& valid_scalar(key.secret@)
    &&& public.well_formed()
    &&& public.bytes() == public_key_of(key.secret@, public is Compressed)
}

/// A private key and the public key computed from it.
pub struct KeyPair {
    private: PrivateKey,
    public: PublicKey,
}

impl KeyPair {
    #[verifier::type_invariant]
    spec fn well_formed(&self) -> bool {
        matches_secret(self.private, self.public)
    }

    /// The private key of the pair.
    pub closed spec fn private_key(&self) -> PrivateKey {
        self.private
    }

    /// The public key of the pair.
    pub closed spec fn public_key(&self) -> PublicKey {
        self.public
    }

    /// The private key.
    pub fn private(&self) -> (r: &PrivateKey)
        ensures
            *r == self.private_key(),
            matches_secret(*r, self.public_key()),
    {
        proof {
            use_type_invariant(self);
        }
        &self.private
    }

    /// The public key.
    pub fn public(&self) -> (r: &PublicKey)
        ensures
            *r == self.public_key(),
            matches_secret(self.private_key(), *r),
    {
        proof {
            use_type_invariant(self);
        }
        &self.public
    }

    /// The public key.
    pub fn pubkey(&self) -> (r: &PublicKey)
        ensures
            *r == self.public_key(),
            matches_secret(self.private_key(), *r),
    {
        self.public()
    }

    /// The private key.
    pub fn secret(&self) -> (r: &PrivateKey)
        ensures
            *r == self.private_key(),
            matches_secret(*r, self.public_key()),
    {
        self.private()
    }

    /// The pair of `private` and its public key, compressed or not. Fails with
    /// `InvalidScalar` on a secret that is no key.
    pub fn from_private(private: PrivateKey, compressed: bool) -> (r: Result<Self, Bip32Error>)
        ensures
            !valid_scalar(private.secret@) ==> r == Err::<KeyPair, Bip32Error>(Bip32Error::InvalidScalar),
            valid_scalar(private.secret@) ==> (r matches Ok(pair) && pair.private_key() == private
                && pair.public_key().bytes() == public_key_of(private.secret@, compressed) && (
            pair.public_key() is Compressed <==> compressed) && pair.public_key().well_formed()),
    {
        if !is_valid_secret(&private.secret) {
            return Err(Bip32Error::InvalidScalar);
        }
        let public = public_key_from(&private.secret, compressed);
        Ok(KeyPair { private, public })
    }
}

/// The bytes of the HMAC key: the given one, or `"default_seed"`.
pub open spec fn domain_key_bytes(key: Option<&str>) -> Seq<u8> {
    match key {
        Some(k) => k.spec_bytes(),
        None => DEFAULT_KEY.spec_bytes(),
    }
}

/// A master private key, its public key and its chain code.
pub struct MasterExtendedKeys {
    public: PublicKey,
    private: PrivateKey,
    chain_code: ChainCode,
}

/// What splitting `seed` under `key` gives: the left half of the tag as the
/// secret, the right half as the chain code.
pub open spec fn derived_from(
    seed: Seq<u8>,
    key: Option<&str>,
    network: Network,
    compressed: bool,
    r: Result<MasterExtendedKeys, Bip32Error>,
) -> bool {
    let tag = hmac_sha512_of(domain_key_bytes(key), seed);
    if domain_key_bytes(key).len() >= MAX_DIGEST_INPUT {
        r == Err::<MasterExtendedKeys, Bip32Error>(Bip32Error::KeyTooLong)
    } else if !valid_scalar(tag.subrange(0, 32)) {
        r == Err::<MasterExtendedKeys, Bip32Error>(Bip32Error::InvalidScalar)
    } else {
        r matches Ok(keys) && keys.private_key()@ == (PrivateKeyView {
            network,
            secret: tag.subrange(0, 32),
            compressed,
        }) && keys.chain_code_view() == tag.subrange(32, 64) && keys.public_key().bytes()
            == public_key_of(tag.subrange(0, 32), compressed) && (keys.public_key() is Compressed
            <==> compressed) && keys.public_key().well_formed()
    }
}

impl MasterExtendedKeys {
    /// The private key.
    pub closed spec fn private_key(&self) -> PrivateKey {
        self.private
    }

    /// The public key.
    pub closed spec fn public_key(&self) -> PublicKey {
        self.public
    }

    /// The chain code.
    pub closed spec fn chain_code_view(&self) -> Seq<u8> {
        self.chain_code@
    }

    /// Splits a 64-byte seed into a master key: the HMAC-SHA512 tag of the
    /// seed under `key` (by default `"default_seed"`) gives the secret in its
    /// left half and the chain code in its right half. Fails with
    /// `InvalidScalar` when the secret is zero or not below the curve order.
    pub fn new(msg: [u8; 64], key: Option<&str>, network: Network, compressed: bool) -> (r: Result<
        Self,
        Bip32Error,
    >)
        ensures
            derived_from(msg@, key, network, compressed, r),
    {
        let domain: &str = match key {
            Some(k) => k,
            None => DEFAULT_KEY,
        };
        let domain_bytes = domain.as_bytes();
        if domain_bytes.len() as u64 >= MAX_DIGEST_INPUT {
            return Err(Bip32Error::KeyTooLong);
        }
        let tag = hmac_sha512(domain_bytes, &msg);
        let mut secret = [0u8; 32];
        let mut chain_code = [0u8; 32];
        let mut i: usize = 0;
        while i < 32
            invariant
                i <= 32,
                forall|k: int| 0 <= k < i ==> secret[k] == tag[k] && chain_code[k] == tag[k + 32],
            decreases 32 - i,
        {
            secret[i] = tag[i];
            chain_code[i] = tag[i + 32];
            i = i + 1;
        }
        assert(secret@ =~= tag@.subrange(0, 32));
        assert(chain_code@ =~= tag@.subrange(32, 64));
        if !is_valid_secret(&secret) {
            return Err(Bip32Error::InvalidScalar);
        }
        let public = public_key_from(&secret, compressed);
        let private = PrivateKey { network, secret, compressed };
        Ok(MasterExtendedKeys { public, private, chain_code })
    }

    /// The public key.
    pub fn pubkey(&self) -> (r: PublicKey)
        ensures
            r == self.public_key(),
    {
        self.public
    }

    /// The private key.
    pub fn privkey(&self) -> (r: PrivateKey)
        ensures
            r == self.private_key(),
    {
        self.private
    }

    /// The chain code.
    pub fn chain_code(&self) -> (r: ChainCode)
        ensures
            r@ == self.chain_code_view(),
    {
        self.chain_code
    }
}

/// Master key derivation is a function of its inputs: the same seed, key,
/// network and form give the same keys and chain code.
pub proof fn master_derivation_is_deterministic(
    seed: Seq<u8>,
    key: Option<&str>,
    network: Network,
    compressed: bool,
    r1: Result<MasterExtendedKeys, Bip32Error>,
    r2: Result<MasterExtendedKeys, Bip32Error>,
)
    requires
        derived_from(seed, key, network, compressed, r1),
        derived_from(seed, key, network, compressed, r2),
    ensures
        r1 is Ok <==> r2 is Ok,
        r1 is Err ==> r1 == r2,
        r1 matches Ok(k1) ==> (r2 matches Ok(k2) && k1.private_key()@ == k2.private_key()@
            && k1.chain_code_view() == k2.chain_code_view() && k1.public_key().bytes()
            == k2.public_key().bytes()),
{
}

} // verus!
