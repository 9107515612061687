//! Private keys, their signatures, and their checksummed byte layout.
use vstd::prelude::*;
use crate::bytes::append_bytes;
use crate::crypto::{checksum, checksum_of};
use crate::curve::{is_valid_secret, sign_der, sign_recoverable, der_signature_of, valid_scalar};
use crate::error::Error;
use crate::network::Network;
use crate::signature::{compact_of, signed_compact, CompactSignature, Signature};
use crate::text::{base58_encode, base58_of};

verus! {

/// A 32-byte secret, the network it is for, and whether its public key is
/// used compressed.
#[derive(Debug, Clone, Copy, PartialEq, Eq)]
pub struct PrivateKey {
    /// The network on which this key is used.
    pub network: Network,
    /// The ECDSA secret.
    pub secret: [u8; 32],
    /// Whether the public key is used in its compressed form (33 bytes).
    pub compressed: bool,
}

/// A private key as plain values.
pub struct PrivateKeyView {
    pub network: Network,
    pub secret: Seq<u8>,
    pub compressed: bool,
}

impl View for PrivateKey {
    type V = PrivateKeyView;

    open spec fn view(&self) -> PrivateKeyView {
        PrivateKeyView { network: self.network, secret: self.secret@, compressed: self.compressed }
    }
}

/// The byte that names a network in a layout.
pub open spec fn network_byte(network: Network) -> u8 {
    match network {
        Network::Mainnet => 128,
        Network::Testnet => 239,
    }
}

/// The layout before its checksum: network byte, secret, and 0x01 when
/// compressed.
pub open spec fn layout_body(key: PrivateKeyView) -> Seq<u8> {
    seq![network_byte(key.network)] + key.secret + if key.compressed {
        seq![1u8]
    } else {
        Seq::<u8>::empty()
    }
}

/// The layout of a key: its body followed by the checksum of the body.
pub open spec fn layout_of(key: PrivateKeyView) -> Seq<u8> {
    layout_body(key) + checksum_of(layout_body(key))
}

/// What reading `data` as a layout gives.
pub open spec fn from_layout_spec(data: Seq<u8>) -> Result<PrivateKeyView, Error> {
    if !(data.len() == 37 || data.len() == 38) {
        Err(Error::InvalidPrivate)
    } else if data.len() == 38 && data[33] != 1 {
        Err(Error::InvalidPrivate)
    } else if data.subrange(data.len() - 4, data.len() as int) != checksum_of(
        data.subrange(0, data.len() - 4),
    ) {
        Err(Error::InvalidChecksum)
    } else if data[0] != 128 && data[0] != 239 {
        Err(Error::InvalidPrivate)
    } else {
        Ok(
            PrivateKeyView {
                network: if data[0] == 128 {
                    Network::Mainnet
                } else {
                    Network::Testnet
                },
                secret: data.subrange(1, 33),
                compressed: data.len() == 38,
            },
        )
    }
}

/// A read key seen as plain values.
pub open spec fn key_result(r: Result<PrivateKey, Error>) -> Result<PrivateKeyView, Error> {
    match r {
        Ok(key) => Ok(key@),
        Err(e) => Err(e),
    }
}

impl PrivateKey {
    /// Signs a 32-byte digest: the DER encoding of the deterministic ECDSA
    /// signature. Fails with `InvalidScalar` on a secret that is no key.
    pub fn sign(&self, message: &[u8; 32]) -> (r: Result<Signature, Error>)
        ensures
            !valid_scalar(self.secret@) ==> r == Err::<Signature, Error>(Error::InvalidScalar),
            valid_scalar(self.secret@) ==> (r matches Ok(sig) && sig.0@ == der_signature_of(
                self.secret@,
                message@,
            )),
    {
        if !is_valid_secret(&self.secret) {
            return Err(Error::InvalidScalar);
        }
        Ok(Signature(sign_der(&self.secret, message)))
    }

    /// Signs a 32-byte digest so that the public key can be recovered: a
    /// header byte of 27 plus the recovery id, plus 4 for a compressed key,
    /// then r and s. Fails with `InvalidScalar` on a secret that is no key.
    pub fn sign_compact(&self, message: &[u8; 32]) -> (r: Result<CompactSignature, Error>)
        ensures
            !valid_scalar(self.secret@) ==> r == Err::<CompactSignature, Error>(Error::InvalidScalar),
            valid_scalar(self.secret@) ==> (r matches Ok(sig) && signed_compact(
                sig,
                self.secret@,
                message@,
                self.compressed,
            )),
    {
        if !is_valid_secret(&self.secret) {
            return Err(Error::InvalidScalar);
        }
        let (id, data) = sign_recoverable(&self.secret, message);
        let mut bytes = [0u8; 65];
        bytes[0] = if self.compressed {
            27 + id + 4
        } else {
            27 + id
        };
        let mut i: usize = 0;
        while i < 64
            invariant
                i <= 64,
                bytes[0] == (if self.compressed {
                    27 + id + 4
                } else {
                    27 + id
                }),
                forall|k: int| 0 <= k < i ==> bytes[k + 1] == data[k],
            decreases 64 - i,
        {
            bytes[i + 1] = data[i];
            i = i + 1;
        }
        assert(bytes@ =~= compact_of(self.secret@, message@, self.compressed));
        Ok(CompactSignature::new(bytes))
    }

    /// The checksummed layout: network byte (128 for mainnet, 239 for
    /// testnet), secret, 0x01 when compressed, then the first four bytes of
    /// the double SHA-256 of all that.
    pub fn layout(&self) -> (r: Vec<u8>)
        ensures
            r@ == layout_of(self@),
    {
        let mut result: Vec<u8> = Vec::new();
        let network_byte: u8 = match self.network {
            Network::Mainnet => 128,
            Network::Testnet => 239,
        };
        result.push(network_byte);
        append_bytes(&mut result, &self.secret);
        if self.compressed {
            result.push(1);
        }
        assert(result@ =~= layout_body(self@));
        let cs = checksum(result.as_slice());
        append_bytes(&mut result, &cs);
        result
    }

    /// Reads a layout of 37 bytes (uncompressed) or 38 (compressed). Fails
    /// with `InvalidPrivate` on another length, a compression byte other than
    /// 1, or an unknown network byte, and with `InvalidChecksum` when the
    /// trailing four bytes are not the checksum of the rest.
    pub fn from_layout(data: &[u8]) -> (r: Result<PrivateKey, Error>)
        ensures
            key_result(r) == from_layout_spec(data@),
    {
        let len = data.len();
        if len != 37 && len != 38 {
            return Err(Error::InvalidPrivate);
        }
        let compressed = len == 38;
        if compressed && data[len - 5] != 1 {
            return Err(Error::InvalidPrivate);
        }
        let cs = checksum(&data[0..len - 4]);
        if data[len - 4] != cs[0] || data[len - 3] != cs[1] || data[len - 2] != cs[2] || data[len - 1]
            != cs[3] {
            assert(data@.subrange(len - 4, len as int)[0] == data@[len - 4]);
            assert(data@.subrange(len - 4, len as int)[1] == data@[len - 3]);
            assert(data@.subrange(len - 4, len as int)[2] == data@[len - 2]);
            assert(data@.subrange(len - 4, len as int)[3] == data@[len - 1]);
            return Err(Error::InvalidChecksum);
        }
        assert(data@.subrange(len - 4, len as int) =~= cs@);
        let network = if data[0] == 128 {
            Network::Mainnet
        } else if data[0] == 239 {
            Network::Testnet
        } else {
            return Err(Error::InvalidPrivate);
        };
        let mut secret = [0u8; 32];
        let mut i: usize = 0;
        while i < 32
            invariant
                len == data@.len(),
                len >= 37,
                i <= 32,
                forall|k: int| 0 <= k < i ==> secret[k] == data@[k + 1],
            decreases 32 - i,
        {
            secret[i] = data[i + 1];
            i = i + 1;
        }
        assert(secret@ =~= data@.subrange(1, 33));
        Ok(PrivateKey { network, secret, compressed })
    }

    /// The base58 text of the layout.
    pub fn to_base58(&self) -> (r: String)
        ensures
            r@ == base58_of(layout_of(self@)),
    {
        let bytes = self.layout();
        base58_encode(bytes.as_slice())
    }
}

/// A layout's length, its body and its checksum.
proof fn lemma_layout_shape(key: PrivateKeyView)
    requires
        key.secret.len() == 32,
    ensures
        layout_body(key).len() == if key.compressed {
            34int
        } else {
            33int
        },
        layout_of(key).len() == layout_body(key).len() + 4,
        layout_of(key).subrange(0, layout_body(key).len() as int) == layout_body(key),
        layout_of(key).subrange(layout_body(key).len() as int, layout_of(key).len() as int)
            == checksum_of(layout_body(key)),
{
    let body = layout_body(key);
    assert(layout_of(key).subrange(0, body.len() as int) =~= body);
    assert(layout_of(key).subrange(body.len() as int, layout_of(key).len() as int) =~= checksum_of(
        body,
    ));
}

/// Reading the layout of a key gives the key back, for either network and
/// either form.
pub proof fn from_layout_inverts_layout(key: PrivateKeyView)
    requires
        key.secret.len() == 32,
    ensures
        from_layout_spec(layout_of(key)) == Ok::<PrivateKeyView, Error>(key),
{
    lemma_layout_shape(key);
    let data = layout_of(key);
    let body = layout_body(key);
    assert(data[0] == network_byte(key.network));
    if key.compressed {
        assert(data[33] == 1);
    }
    assert(data.subrange(1, 33) =~= key.secret);
    let read = from_layout_spec(data)->Ok_0;
    assert(read.network == key.network);
    assert(read.compressed == key.compressed);
}

/// A changed byte in the body that the checksum does not notice, and that
/// leaves a known network byte and the compression byte in place: the only
/// change that reading a layout can miss.
pub open spec fn checksum_blind_change(key: PrivateKeyView, i: int, v: u8) -> bool {
    let body = layout_body(key);
    let changed = layout_of(key).update(i, v);
    &&& i < body.len()
    &&& checksum_of(changed.subrange(0, body.len() as int)) == checksum_of(body)
    &&& (i == 0 ==> v == 128 || v == 239)
    &&& !(key.compressed && i == 33)
}

/// Changing any one byte of a layout makes reading it fail with
/// `InvalidChecksum` or `InvalidPrivate`, unless the change is one the
/// checksum cannot see.
pub proof fn changed_layout_is_rejected(key: PrivateKeyView, i: int, v: u8)
    requires
        key.secret.len() == 32,
        0 <= i < layout_of(key).len(),
        v != layout_of(key)[i],
        !checksum_blind_change(key, i, v),
    ensures
        from_layout_spec(layout_of(key).update(i, v)) == Err::<PrivateKeyView, Error>(
            Error::InvalidChecksum,
        ) || from_layout_spec(layout_of(key).update(i, v)) == Err::<PrivateKeyView, Error>(
            Error::InvalidPrivate,
        ),
{
    lemma_layout_shape(key);
    let data = layout_of(key);
    let changed = data.update(i, v);
    let body = layout_body(key);
    let n = data.len();
    assert(changed.len() == n);
    if key.compressed {
        assert(data[33] == 1);
    }
    if i >= body.len() {
        assert(changed.subrange(0, n - 4) =~= body);
        assert(changed.subrange(n - 4, n as int)[i - body.len()] == v);
        assert(data.subrange(body.len() as int, n as int)[i - body.len()] == data[i]);
        assert(changed.subrange(n - 4, n as int) != checksum_of(body));
    } else {
        assert(changed.subrange(n - 4, n as int) =~= data.subrange(n - 4, n as int));
        assert(changed.subrange(0, n - 4) =~= changed.subrange(0, body.len() as int));
        if i == 0 {
            assert(changed[0] == v);
        }
    }
}

} // verus!
