//! Mnemonic seeds: random entropy, its mnemonic phrase, and the 64-byte seed
//! stretched from that phrase.
use vstd::prelude::*;
use vstd::string::StringSliceAdditionalSpecFns;
use vstd::utf8::encode_utf8;
use rand_core::RngCore;
use crate::bytes::append_bytes;
use crate::crypto::MAX_DIGEST_INPUT;
use crate::mnemonic::{decode_spec, encode, mnemonic_of, validate, words_view, WordList};
use crate::text::{hex_encode, hex_lower};

verus! {

/// What can go wrong when a mnemonic or a seed is made or read.
#[derive(Debug, PartialEq, Eq)]
pub enum Bip39Error {
    /// Entropy that is neither 16 nor 32 bytes long.
    InvalidEntropySize,
    /// A word that the word list does not hold.
    UnknownWord,
    /// A phrase that is neither 12 nor 24 words long.
    UnsupportedMnemonicLength,
    /// A phrase whose checksum bits do not match its entropy.
    ChecksumMismatch,
    /// The word list could not be had from the named place.
    MissingResource(String),
    /// The system's random source gave no entropy.
    EntropyUnavailable,
    /// A salt or phrase too long to be hashed.
    InputTooLong,
}

/// Rounds of PBKDF2 spent stretching a phrase into a seed.
pub const PBKDF2_ITERATIONS: u32 = 100_000;

/// What the default salt starts with; the passphrase follows it.
pub const DEFAULT_SALT_BASE: &'static str = "mnemonic";

/// The 64-byte PBKDF2-HMAC-SHA512 key stretched from `password` with `salt`
/// in `iterations` rounds.
pub uninterp spec fn pbkdf2_sha512_of(password: Seq<u8>, salt: Seq<u8>, iterations: u32) -> Seq<u8>;

/// Relies on ring::pbkdf2::derive with PBKDF2_HMAC_SHA512, asked for 64 bytes
/// of output.
#[verifier::external_body]
fn pbkdf2_sha512(iterations: u32, salt: &[u8], password: &[u8]) -> (r: [u8; 64])
    requires
        iterations > 0,
        salt@.len() < MAX_DIGEST_INPUT,
        password@.len() < MAX_DIGEST_INPUT,
    ensures
        r@ == pbkdf2_sha512_of(password@, salt@, iterations),
{
    let mut out = [0u8; 64];
    let rounds = std::num::NonZeroU32::new(iterations).unwrap();
    ring::pbkdf2::derive(ring::pbkdf2::PBKDF2_HMAC_SHA512, rounds, salt, password, &mut out);
    out
}

/// Relies on rand_core's `OsRng::try_fill_bytes`: on success the buffer holds
/// bytes from the system's random source, of which nothing else is known.
#[verifier::external_body]
fn fill_random(buf: &mut Vec<u8>) -> (ok: bool)
    ensures
        final(buf)@.len() == old(buf)@.len(),
{
    rand_core::OsRng.try_fill_bytes(buf.as_mut_slice()).is_ok()
}

/// The words of a phrase joined by single spaces, as UTF-8 bytes.
pub open spec fn phrase_bytes(words: Seq<Seq<char>>) -> Seq<u8>
    decreases words.len(),
{
    if words.len() == 0 {
        Seq::empty()
    } else if words.len() == 1 {
        encode_utf8(words[0])
    } else {
        phrase_bytes(words.drop_last()) + seq![32u8] + encode_utf8(words.last())
    }
}

/// The salt used when none is set: `"mnemonic"` followed by the passphrase.
pub open spec fn default_salt(passphrase: Seq<u8>) -> Seq<u8> {
    DEFAULT_SALT_BASE.spec_bytes() + passphrase
}

/// Entropy bits that have a phrase: 128 and 256.
pub open spec fn entropy_bits_ok(bits: usize) -> bool {
    bits == 128 || bits == 256
}

/// Entropy bytes drawn for a setting of `bits`.
pub open spec fn entropy_len_for(bits: usize) -> nat {
    (bits / 8) as nat
}

/// The size of a mnemonic, named in bits, bytes or words.
pub enum MnemonicSize {
    Size128Bits,
    Size256Bits,
    Size16Bytes,
    Size32Bytes,
    Size12Words,
    Size24Words,
}

/// The number of entropy bits a size names.
pub open spec fn size_bits(size: MnemonicSize) -> usize {
    match size {
        MnemonicSize::Size128Bits | MnemonicSize::Size16Bytes | MnemonicSize::Size12Words => 128,
        MnemonicSize::Size256Bits | MnemonicSize::Size32Bytes | MnemonicSize::Size24Words => 256,
    }
}

/// Settings for making a [`Seed`]: the passphrase, the salt, and the number
/// of entropy bits.
pub struct SeedBuilder<'a> {
    /// Text appended to `"mnemonic"` to form the default salt.
    pub passphrase: &'a str,
    /// The salt the phrase is stretched with.
    pub salt: Option<Vec<u8>>,
    /// Whether the salt was set explicitly; such a salt outlasts a later
    /// passphrase.
    pub explicit_salt: bool,
    /// The number of entropy bits: 128 or 256.
    pub bits: usize,
}

/// The salt a builder stretches with.
pub open spec fn salt_of(builder: SeedBuilder) -> Seq<u8> {
    match builder.salt {
        Some(s) => s@,
        None => default_salt(builder.passphrase.spec_bytes()),
    }
}

/// The seed stretched from the phrase written for `entropy`.
pub open spec fn seed_of(list: Seq<Seq<char>>, entropy: Seq<u8>, salt: Seq<u8>) -> Seq<u8> {
    pbkdf2_sha512_of(phrase_bytes(mnemonic_of(list, entropy)), salt, PBKDF2_ITERATIONS)
}

/// Whether a phrase and a salt are short enough to be hashed.
pub open spec fn stretchable(list: Seq<Seq<char>>, entropy: Seq<u8>, salt: Seq<u8>) -> bool {
    &&& phrase_bytes(mnemonic_of(list, entropy)).len() < MAX_DIGEST_INPUT
    &&& salt.len() < MAX_DIGEST_INPUT
}

/// `seed` holds the phrase for `entropy`, the seed stretched from it with
/// `salt`, and that seed in hex.
pub open spec fn seed_holds(seed: Seed, list: Seq<Seq<char>>, entropy: Seq<u8>, salt: Seq<u8>) -> bool {
    &&& words_view(seed.mnemonic@) == mnemonic_of(list, entropy)
    &&& seed.entropy@ == seed_of(list, entropy, salt)
    &&& seed.hex@ == hex_lower(seed.entropy@)
    &&& seed.hex@.len() == 128
}

/// What making a seed from `entropy` with `builder` gives.
pub open spec fn built_from(
    builder: SeedBuilder,
    entropy: Seq<u8>,
    list: Seq<Seq<char>>,
    r: Result<Seed, Bip39Error>,
) -> bool {
    if !(entropy.len() == 16 || entropy.len() == 32) {
        r == Err::<Seed, Bip39Error>(Bip39Error::InvalidEntropySize)
    } else if !stretchable(list, entropy, salt_of(builder)) {
        r == Err::<Seed, Bip39Error>(Bip39Error::InputTooLong)
    } else {
        r matches Ok(seed) && seed_holds(seed, list, entropy, salt_of(builder))
    }
}

impl<'a> Default for SeedBuilder<'a> {
    /// Settings of 128 bits, an empty passphrase and the salt `"mnemonic"`.
    fn default() -> (r: Self)
        ensures
            r.passphrase@ == Seq::<char>::empty(),
            r.salt matches Some(s) && s@ == default_salt(Seq::empty()),
            r.bits == 128,
            !r.explicit_salt,
    {
        let passphrase = "";
        proof {
            reveal_strlit("");
        }
        let mut salt: Vec<u8> = Vec::new();
        append_bytes(&mut salt, DEFAULT_SALT_BASE.as_bytes());
        assert(salt@ =~= default_salt(Seq::empty()));
        SeedBuilder { passphrase, salt: Some(salt), explicit_salt: false, bits: 128 }
    }
}

impl<'a> SeedBuilder<'a> {
    /// Settings of 128 bits, an empty passphrase and the salt `"mnemonic"`.
    pub fn new() -> (r: Self)
        ensures
            r.passphrase@ == Seq::<char>::empty(),
            r.salt matches Some(s) && s@ == default_salt(Seq::empty()),
            r.bits == 128,
            !r.explicit_salt,
    {
        Self::default()
    }

    /// Sets the number of entropy bits from a named size.
    pub fn size(self, size: MnemonicSize) -> (r: Self)
        ensures
            r.bits == size_bits(size),
            r.passphrase == self.passphrase,
            r.salt == self.salt,
            r.explicit_salt == self.explicit_salt,
    {
        let bits: usize = match size {
            MnemonicSize::Size128Bits | MnemonicSize::Size16Bytes | MnemonicSize::Size12Words => 128,
            MnemonicSize::Size256Bits | MnemonicSize::Size32Bytes | MnemonicSize::Size24Words => 256,
        };
        SeedBuilder { bits, ..self }
    }

    /// Sets the number of entropy bits, 128 or 256; building with any other
    /// number fails with `InvalidEntropySize`.
    pub fn bits(self, bits: usize) -> (r: Self)
        ensures
            r.bits == bits,
            r.passphrase == self.passphrase,
            r.salt == self.salt,
            r.explicit_salt == self.explicit_salt,
    {
        SeedBuilder { bits, ..self }
    }

    /// Sets the salt, in place of `"mnemonic"` and the passphrase, whether
    /// the passphrase is set before or after.
    pub fn salt(self, salt: Vec<u8>) -> (r: Self)
        ensures
            r.salt == Some(salt),
            r.explicit_salt,
            r.passphrase == self.passphrase,
            r.bits == self.bits,
    {
        SeedBuilder { salt: Some(salt), explicit_salt: true, ..self }
    }

    /// Sets the passphrase. Unless a salt was set explicitly, the salt becomes
    /// `"mnemonic"` followed by the passphrase; an explicit salt stays.
    pub fn passphrase(self, passphrase: &'a str) -> (r: Self)
        ensures
            r.passphrase == passphrase,
            r.explicit_salt == self.explicit_salt,
            self.explicit_salt ==> r.salt == self.salt,
            !self.explicit_salt ==> (r.salt matches Some(s) && s@ == default_salt(
                passphrase.spec_bytes(),
            )),
            r.bits == self.bits,
    {
        if self.explicit_salt {
            return SeedBuilder { passphrase, ..self };
        }
        let mut salt: Vec<u8> = Vec::new();
        append_bytes(&mut salt, DEFAULT_SALT_BASE.as_bytes());
        append_bytes(&mut salt, passphrase.as_bytes());
        SeedBuilder { passphrase, salt: Some(salt), ..self }
    }

    /// The salt this builder stretches with.
    fn salt_bytes(&self) -> (r: Vec<u8>)
        ensures
            r@ == salt_of(*self),
    {
        match &self.salt {
            Some(s) => s.clone(),
            None => {
                let mut salt: Vec<u8> = Vec::new();
                append_bytes(&mut salt, DEFAULT_SALT_BASE.as_bytes());
                append_bytes(&mut salt, self.passphrase.as_bytes());
                salt
            },
        }
    }

    /// Makes a seed from given entropy of 16 or 32 bytes: its phrase, and the
    /// phrase stretched with the salt.
    pub fn build_from_entropy(&self, entropy: &[u8], list: &WordList) -> (r: Result<Seed, Bip39Error>)
        ensures
            built_from(*self, entropy@, list@, r),
    {
        let mnemonic = match encode(entropy, list) {
            Ok(words) => words,
            Err(e) => {
                return Err(e);
            },
        };
        let ghost words = words_view(mnemonic@);
        let mut password: Vec<u8> = Vec::new();
        let mut j: usize = 0;
        while j < mnemonic.len()
            invariant
                words == words_view(mnemonic@),
                j <= mnemonic@.len(),
                password@ == phrase_bytes(words.take(j as int)),
            decreases mnemonic@.len() - j,
        {
            let ghost before = password@;
            if j > 0 {
                password.push(32u8);
            }
            append_bytes(&mut password, mnemonic[j].as_str().as_bytes());
            proof {
                let next = words.take(j + 1);
                assert(next.drop_last() =~= words.take(j as int));
                assert(next.last() == mnemonic@[j as int]@);
                if j == 0 {
                    assert(before =~= Seq::<u8>::empty());
                    assert(password@ =~= encode_utf8(next[0]));
                }
            }
            j = j + 1;
        }
        assert(words.take(j as int) =~= words);
        let salt = self.salt_bytes();
        if password.len() as u64 >= MAX_DIGEST_INPUT || salt.len() as u64 >= MAX_DIGEST_INPUT {
            return Err(Bip39Error::InputTooLong);
        }
        let seed = pbkdf2_sha512(PBKDF2_ITERATIONS, salt.as_slice(), password.as_slice());
        let hex = hex_encode(&seed);
        Ok(Seed { mnemonic, entropy: seed, hex })
    }

    /// Draws entropy of the configured size, 128 or 256 bits, from the
    /// system's random source and makes a seed from it. Fails with
    /// `InvalidEntropySize` on another size, before drawing.
    pub fn build(self, list: &WordList) -> (r: Result<Seed, Bip39Error>)
        ensures
            !entropy_bits_ok(self.bits) ==> r == Err::<Seed, Bip39Error>(
                Bip39Error::InvalidEntropySize,
            ),
            entropy_bits_ok(self.bits) ==> (r == Err::<Seed, Bip39Error>(Bip39Error::EntropyUnavailable)
                || exists|entropy: Seq<u8>|
                entropy.len() == entropy_len_for(self.bits) && built_from(self, entropy, list@, r)),
    {
        if self.bits != 128 && self.bits != 256 {
            return Err(Bip39Error::InvalidEntropySize);
        }
        let n: usize = self.bits / 8;
        let mut entropy: Vec<u8> = vec![0u8; n];
        if !fill_random(&mut entropy) {
            return Err(Bip39Error::EntropyUnavailable);
        }
        self.build_from_entropy(entropy.as_slice(), list)
    }
}

/// A mnemonic phrase, the 64-byte seed stretched from it, and that seed in
/// hex.
pub struct Seed {
    /// The mnemonic phrase, one word per entry.
    pub mnemonic: Vec<String>,
    /// The 64-byte seed stretched from the phrase.
    pub entropy: [u8; 64],
    /// The seed in lowercase hex.
    pub hex: String,
}

impl Seed {
    /// Whether the phrase reads back to entropy under `list`: 12 or 24 known
    /// words whose checksum bits match.
    pub fn validate(&self, list: &WordList) -> (r: bool)
        ensures
            r == decode_spec(list@, words_view(self.mnemonic@)) is Ok,
    {
        validate(self.mnemonic.as_slice(), list)
    }

    /// The seed in hex, from the stored text where there is one.
    pub fn to_string(&self) -> (r: String)
        ensures
            r@ == if self.hex@.len() == 0 {
                hex_lower(self.entropy@)
            } else {
                self.hex@
            },
    {
        if self.hex.as_str().is_empty() {
            hex_encode(&self.entropy)
        } else {
            self.hex.clone()
        }
    }
}

/// Making a seed is a function of the entropy, the word list and the salt:
/// builders that agree on the salt give the same seed from the same entropy.
pub proof fn seed_is_deterministic(
    first: SeedBuilder,
    second: SeedBuilder,
    entropy: Seq<u8>,
    list: Seq<Seq<char>>,
    r1: Result<Seed, Bip39Error>,
    r2: Result<Seed, Bip39Error>,
)
    requires
        salt_of(first) == salt_of(second),
        built_from(first, entropy, list, r1),
        built_from(second, entropy, list, r2),
    ensures
        r1 is Ok <==> r2 is Ok,
        r1 matches Ok(s1) ==> (r2 matches Ok(s2) && s1.entropy@ == s2.entropy@ && s1.hex@ == s2.hex@
            && words_view(s1.mnemonic@) == words_view(s2.mnemonic@)),
{
}

/// Every seed made is 64 bytes, written as 128 hex digits, whatever the size
/// of the entropy.
pub proof fn seed_is_64_bytes(builder: SeedBuilder, entropy: Seq<u8>, list: Seq<Seq<char>>, r: Result<Seed, Bip39Error>)
    requires
        built_from(builder, entropy, list, r),
    ensures
        r matches Ok(seed) ==> seed.entropy@.len() == 64 && seed.hex@.len() == 128,
{
}

} // verus!
