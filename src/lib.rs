//! Deterministic wallet keys from mnemonic phrases: mnemonic encoding with a
//! checksum, seed stretching, master key derivation, key pairs, signatures and
//! the checksummed byte layout of private keys.
use vstd::prelude::*;

pub mod bip32;
pub mod bip39;
pub mod bytes;
pub mod crypto;
pub mod curve;
pub mod error;
pub mod mnemonic;
pub mod network;
pub mod private;
pub mod public;
pub mod scalar;
pub mod signature;
pub mod text;

pub use bip32::{Bip32Error, ChainCode, KeyPair, MasterExtendedKeys};
pub use bip39::{Bip39Error, MnemonicSize, Seed, SeedBuilder};
pub use crypto::{checksum, dhash256, DHash256};
pub use error::Error;
pub use mnemonic::WordList;
pub use network::Network;
pub use private::PrivateKey;
pub use public::PublicKey;
pub use scalar::{BytesArray, Mod, Scalar};
pub use signature::{CompactSignature, Signature};

verus! {

/// A 32-byte secret key.
pub type Secret = [u8; 32];

/// A 32-byte digest to be signed.
pub type Message = [u8; 32];

} // verus!
