//! The network a key is meant for.
use vstd::prelude::*;

verus! {

/// The network a private key is meant for.
#[derive(Debug, Clone, Copy, PartialEq, Eq, Structural)]
pub enum Network {
    Mainnet,
    Testnet,
}

} // verus!
