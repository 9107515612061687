//! ECDSA signatures: DER-encoded, and compact with a recovery header.
use vstd::prelude::*;
use vstd::string::StringSliceAdditionalSpecFns;
use crate::bytes::{be_at_most, be_value, lemma_be_value_zero};
use crate::curve::{public_point_of, recover_point, recoverable_signature_of, valid_scalar};
use crate::error::Error;
use crate::public::{compress, public_key_of, PublicKey};
use crate::text::{hex_decode, hex_decoded, hex_encode, hex_lower};

verus! {

/// Half the order of the secp256k1 group, rounded down.
pub open spec fn half_order() -> nat {
    0x7FFF_FFFF_FFFF_FFFF_FFFF_FFFF_FFFF_FFFF_5D57_6E73_57A4_501D_DFE9_2F46_681B_20A0nat
}

/// Half the order of the group, big-endian.
const HALF_ORDER: [u8; 32] = [
    0x7f, 0xff, 0xff, 0xff, 0xff, 0xff, 0xff, 0xff, 0xff, 0xff, 0xff, 0xff, 0xff, 0xff, 0xff, 0xff,
    0x5d, 0x57, 0x6e, 0x73, 0x57, 0xa4, 0x50, 0x1d, 0xdf, 0xe9, 0x2f, 0x46, 0x68, 0x1b, 0x20, 0xa0,
];

proof fn lemma_half_order_bytes()
    ensures
        be_value(HALF_ORDER@) == half_order(),
{
    reveal_with_fuel(be_value, 33);
}

/// The s value of a DER-encoded signature `30 L 02 rl r 02 sl s`, where `L`
/// counts the bytes after it and neither integer is empty.
pub open spec fn der_s(sig: Seq<u8>) -> Option<Seq<u8>> {
    if sig.len() < 8 || sig[0] != 0x30 || sig[1] as int != sig.len() - 2 || sig[2] != 0x02 {
        None
    } else {
        let k = 4 + sig[3] as int;
        if sig[3] == 0 || k + 2 >= sig.len() || sig[k] != 0x02 {
            None
        } else if sig[k + 1] == 0 || k + 2 + sig[k + 1] as int != sig.len() {
            None
        } else {
            Some(sig.subrange(k + 2, sig.len() as int))
        }
    }
}

/// A DER-encoded ECDSA signature.
#[derive(Debug, PartialEq, Eq)]
pub struct Signature(pub Vec<u8>);

impl Signature {
    /// Whether the signature is well formed with its s value in the lower half
    /// of the group order, the form that cannot be altered into a second
    /// valid signature.
    pub fn check_low_s(&self) -> (r: bool)
        ensures
            r == (der_s(self.0@) matches Some(s) && 0 < be_value(s) <= half_order()),
    {
        let sig = self.0.as_slice();
        let len = sig.len();
        if len < 8 || sig[0] != 0x30 || sig[1] as usize != len - 2 || sig[2] != 0x02 {
            return false;
        }
        let k = 4 + sig[3] as usize;
        if sig[3] == 0 || k + 2 >= len || sig[k] != 0x02 {
            return false;
        }
        if sig[k + 1] == 0 || k + 2 + sig[k + 1] as usize != len {
            return false;
        }
        let s = &sig[k + 2..len];
        let mut nonzero = false;
        let mut i: usize = 0;
        while i < s.len()
            invariant
                i <= s@.len(),
                nonzero <==> exists|j: int| 0 <= j < i && s@[j] != 0,
            decreases s@.len() - i,
        {
            if s[i] != 0 {
                nonzero = true;
            }
            i = i + 1;
        }
        proof {
            lemma_be_value_zero(s@);
            lemma_half_order_bytes();
        }
        nonzero && be_at_most(s, &HALF_ORDER)
    }

    /// A signature from its hex text. Fails with `InvalidSignature` on text
    /// of odd length or with a character that is no hex digit.
    pub fn from_hex(text: &str) -> (r: Result<Signature, Error>)
        ensures
            hex_decoded(text.spec_bytes()) is None ==> r == Err::<Signature, Error>(Error::InvalidSignature),
            hex_decoded(text.spec_bytes()) matches Some(bytes) ==> (r matches Ok(sig) && sig.0@ == bytes),
    {
        match hex_decode(text) {
            Some(bytes) => Ok(Signature(bytes)),
            None => Err(Error::InvalidSignature),
        }
    }

    /// The signature in lowercase hex.
    pub fn to_hex(&self) -> (r: String)
        ensures
            r@ == hex_lower(self.0@),
    {
        hex_encode(self.0.as_slice())
    }
}

/// The compact signature of `message` made with `secret`: the header 27 plus
/// the recovery id, plus 4 for a compressed key, then r and s.
pub open spec fn compact_of(secret: Seq<u8>, message: Seq<u8>, compressed: bool) -> Seq<u8> {
    let s = recoverable_signature_of(secret, message);
    seq![(27 + s[0] + if compressed { 4int } else { 0int }) as u8] + s.subrange(1, 65)
}

/// `sig` is the compact signature of `message` made with `secret`.
pub open spec fn signed_compact(sig: CompactSignature, secret: Seq<u8>, message: Seq<u8>, compressed: bool) -> bool {
    &&& recoverable_signature_of(secret, message).len() == 65
    &&& recoverable_signature_of(secret, message)[0] < 4
    &&& sig@ == compact_of(secret, message, compressed)
}

/// What recovering a public key from `sig` and `message` may give.
pub open spec fn recovered_from(sig: CompactSignature, message: Seq<u8>, r: Result<PublicKey, Error>) -> bool {
    &&& r matches Ok(key) ==> key.well_formed()
    &&& forall|secret: Seq<u8>, compressed: bool|
        valid_scalar(secret) && #[trigger] signed_compact(sig, secret, message, compressed) ==> (r matches Ok(
            key,
        ) && key.bytes() == public_key_of(secret, compressed) && (key is Compressed <==> compressed))
}

/// A recoverable signature in 65 bytes: a header, then r and s.
#[derive(Debug, PartialEq, Eq)]
pub struct CompactSignature([u8; 65]);

impl View for CompactSignature {
    type V = Seq<u8>;

    closed spec fn view(&self) -> Seq<u8> {
        self.0@
    }
}

impl CompactSignature {
    /// A compact signature from its 65 bytes.
    pub fn new(bytes: [u8; 65]) -> (r: Self)
        ensures
            r@ == bytes@,
    {
        CompactSignature(bytes)
    }

    /// A compact signature from text whose UTF-8 bytes are its 65 bytes.
    /// Fails with `InvalidSignature` on text of another length.
    pub fn from_str(s: &str) -> (r: Result<Self, Error>)
        ensures
            s.spec_bytes().len() != 65 ==> r == Err::<CompactSignature, Error>(Error::InvalidSignature),
            s.spec_bytes().len() == 65 ==> (r matches Ok(sig) && sig@ == s.spec_bytes()),
    {
        let text = s.as_bytes();
        if text.len() != 65 {
            return Err(Error::InvalidSignature);
        }
        let mut bytes = [0u8; 65];
        let mut i: usize = 0;
        while i < 65
            invariant
                text@.len() == 65,
                i <= 65,
                forall|k: int| 0 <= k < i ==> bytes[k] == text@[k],
            decreases 65 - i,
        {
            bytes[i] = text[i];
            i = i + 1;
        }
        assert(bytes@ =~= s.spec_bytes());
        Ok(CompactSignature(bytes))
    }

    /// The 65 bytes.
    pub fn bytes(&self) -> (r: [u8; 65])
        ensures
            r@ == self@,
    {
        self.0
    }

    /// Recovers the signer's public key from the signature of `message`, in
    /// the form the header names. Fails with `InvalidSignature` on a header
    /// outside 27 to 34 or on bytes that are no signature of `message`.
    pub fn recover(&self, message: &[u8; 32]) -> (r: Result<PublicKey, Error>)
        ensures
            recovered_from(*self, message@, r),
    {
        let header = self.0[0];
        if header < 27 || header > 34 {
            return Err(Error::InvalidSignature);
        }
        let compressed = header >= 31;
        let id = if compressed {
            header - 31
        } else {
            header - 27
        };
        let mut data = [0u8; 64];
        let mut i: usize = 0;
        while i < 64
            invariant
                i <= 64,
                forall|k: int| 0 <= k < i ==> data[k] == self.0[k + 1],
            decreases 64 - i,
        {
            data[i] = self.0[i + 1];
            i = i + 1;
        }
        assert(data@ =~= self.0@.subrange(1, 65));
        let point = recover_point(message, id, &data);
        proof {
            assert forall|secret: Seq<u8>, c: bool|
                valid_scalar(secret) && #[trigger] signed_compact(*self, secret, message@, c) implies (
                point matches Some(p) && p@ == public_point_of(secret) && c == compressed) by {
                let s = recoverable_signature_of(secret, message@);
                assert(self@[0] == (27 + s[0] + if c { 4int } else { 0int }) as u8);
                assert(self.0@ == self@);
                assert(c == compressed);
                assert(id == s[0]);
                assert(seq![id] + data@ =~= s);
            }
        }
        match point {
            None => Err(Error::InvalidSignature),
            Some(point) => {
                if compressed {
                    Ok(PublicKey::Compressed(compress(&point)))
                } else {
                    Ok(PublicKey::Standard(point))
                }
            },
        }
    }

    /// The signature in lowercase hex.
    pub fn to_hex(&self) -> (r: String)
        ensures
            r@ == hex_lower(self@),
    {
        hex_encode(&self.0)
    }
}

/// The public key recovered from a compact signature is the signer's public
/// key, in the form the signer's key is used in.
pub proof fn recovery_gives_signer_key(
    sig: CompactSignature,
    secret: Seq<u8>,
    message: Seq<u8>,
    compressed: bool,
    r: Result<PublicKey, Error>,
)
    requires
        valid_scalar(secret),
        signed_compact(sig, secret, message, compressed),
        recovered_from(sig, message, r),
    ensures
        r matches Ok(key) && key.bytes() == public_key_of(secret, compressed) && key.well_formed(),
{
}

} // verus!
