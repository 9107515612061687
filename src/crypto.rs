//! Double SHA-256 and the four-byte checksum built on it.
use vstd::prelude::*;
use crate::bytes::append_bytes;

verus! {

/// A bound on the length, in bytes, of what is handed to a digest. ring
/// panics on inputs whose length in bits does not fit in 64 bits; this bound
/// keeps well below that, room for HMAC's extra block included.
pub const MAX_DIGEST_INPUT: u64 = 0x1000_0000_0000_0000;

/// The SHA-256 digest of `data`.
pub uninterp spec fn sha256_of(data: Seq<u8>) -> Seq<u8>;

/// Relies on ring::digest::digest with SHA256: the 32-byte digest of the input.
#[verifier::external_body]
pub(crate) fn sha256(data: &[u8]) -> (r: [u8; 32])
    requires
        data@.len() < MAX_DIGEST_INPUT,
    ensures
        r@ == sha256_of(data@),
{
    let digest = ring::digest::digest(&ring::digest::SHA256, data);
    let mut out = [0u8; 32];
    out.copy_from_slice(digest.as_ref());
    out
}

/// SHA-256 applied twice.
pub open spec fn dhash256_of(data: Seq<u8>) -> Seq<u8> {
    sha256_of(sha256_of(data))
}

/// The first four bytes of the double SHA-256 of `data`.
pub open spec fn checksum_of(data: Seq<u8>) -> Seq<u8> {
    Seq::new(4, |i: int| dhash256_of(data)[i])
}

/// A double SHA-256 hasher: it gathers input and hashes it when finished.
pub struct DHash256 {
    buffer: Vec<u8>,
}

impl View for DHash256 {
    type V = Seq<u8>;

    /// The input gathered so far.
    closed spec fn view(&self) -> Seq<u8> {
        self.buffer@
    }
}

impl DHash256 {
    /// A hasher that has seen no input.
    pub fn new() -> (r: Self)
        ensures
            r@ == Seq::<u8>::empty(),
    {
        DHash256 { buffer: Vec::new() }
    }

    /// Adds `data` to the input.
    pub fn input(&mut self, data: &[u8])
        ensures
            final(self)@ == old(self)@ + data@,
    {
        append_bytes(&mut self.buffer, data);
    }

    /// Forgets the input gathered so far.
    pub fn reset(&mut self)
        ensures
            final(self)@ == Seq::<u8>::empty(),
    {
        self.buffer.clear();
    }

    /// Writes the double SHA-256 of the input to `out` and starts afresh.
    pub fn result(&mut self, out: &mut [u8; 32])
        requires
            old(self)@.len() < MAX_DIGEST_INPUT,
        ensures
            final(out)@ == dhash256_of(old(self)@),
            final(self)@ == Seq::<u8>::empty(),
    {
        *out = dhash256(self.buffer.as_slice());
        self.buffer.clear();
    }

    /// The double SHA-256 of the input.
    pub fn finish(self) -> (r: [u8; 32])
        requires
            self@.len() < MAX_DIGEST_INPUT,
        ensures
            r@ == dhash256_of(self@),
    {
        dhash256(self.buffer.as_slice())
    }
}

/// SHA-256 applied twice.
pub fn dhash256(input: &[u8]) -> (r: [u8; 32])
    requires
        input@.len() < MAX_DIGEST_INPUT,
    ensures
        r@ == dhash256_of(input@),
{
    let first = sha256(input);
    sha256(&first)
}

/// The first four bytes of the double SHA-256 of `data`.
pub fn checksum(data: &[u8]) -> (r: [u8; 4])
    requires
        data@.len() < MAX_DIGEST_INPUT,
    ensures
        r@ == checksum_of(data@),
{
    let digest = dhash256(data);
    let r = [digest[0], digest[1], digest[2], digest[3]];
    assert(r@ =~= checksum_of(data@));
    r
}

} // verus!
