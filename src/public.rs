//! Public keys, uncompressed or compressed.
use vstd::prelude::*;
use crate::curve::{public_point, public_point_of, valid_scalar};
use crate::text::{hex_encode, hex_lower};

verus! {

/// A public key: 65 bytes starting 0x04, or 33 bytes starting 0x02 or 0x03.
#[derive(Debug, Clone, Copy, PartialEq, Eq)]
pub enum PublicKey {
    Standard([u8; 65]),
    Compressed([u8; 33]),
}

/// The compressed form of a 65-byte uncompressed point: 0x02 for an even y,
/// 0x03 for an odd one, then x.
pub open spec fn compressed_of(point: Seq<u8>) -> Seq<u8> {
    seq![if point[64] % 2 == 0 { 2u8 } else { 3u8 }] + point.subrange(1, 33)
}

/// The public key of `secret` in one of its two forms.
pub open spec fn public_key_of(secret: Seq<u8>, compressed: bool) -> Seq<u8> {
    if compressed {
        compressed_of(public_point_of(secret))
    } else {
        public_point_of(secret)
    }
}

impl PublicKey {
    /// The bytes of the key.
    pub open spec fn bytes(self) -> Seq<u8> {
        match self {
            PublicKey::Standard(b) => b@,
            PublicKey::Compressed(b) => b@,
        }
    }

    /// The key starts with the tag of its form.
    pub open spec fn well_formed(self) -> bool {
        match self {
            PublicKey::Standard(b) => b[0] == 4,
            PublicKey::Compressed(b) => b[0] == 2 || b[0] == 3,
        }
    }

    /// The key in lowercase hex: 130 digits uncompressed, 66 compressed.
    pub fn to_hex(&self) -> (r: String)
        ensures
            r@ == hex_lower(self.bytes()),
    {
        match self {
            PublicKey::Standard(b) => hex_encode(b),
            PublicKey::Compressed(b) => hex_encode(b),
        }
    }
}

/// Compresses a 65-byte uncompressed point.
pub fn compress(point: &[u8; 65]) -> (r: [u8; 33])
    ensures
        r@ == compressed_of(point@),
{
    let mut out = [0u8; 33];
    out[0] = if point[64] % 2 == 0 { 2 } else { 3 };
    let mut i: usize = 1;
    while i < 33
        invariant
            1 <= i <= 33,
            out[0] == (if point[64] % 2 == 0 { 2u8 } else { 3u8 }),
            forall|k: int| 1 <= k < i ==> out[k] == point[k],
        decreases 33 - i,
    {
        out[i] = point[i];
        i = i + 1;
    }
    assert(out@ =~= compressed_of(point@));
    out
}

/// The public key of a valid secret, compressed or not.
pub fn public_key_from(secret: &[u8; 32], compressed: bool) -> (r: PublicKey)
    requires
        valid_scalar(secret@),
    ensures
        r.bytes() == public_key_of(secret@, compressed),
        r is Compressed <==> compressed,
        r.well_formed(),
{
    let point = public_point(secret);
    if compressed {
        PublicKey::Compressed(compress(&point))
    } else {
        PublicKey::Standard(point)
    }
}

} // verus!
