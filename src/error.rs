//! Errors of key handling, signatures and scalar arithmetic.
use vstd::prelude::*;

verus! {

/// What can go wrong when keys, signatures or scalars are read or used.
#[derive(Debug, Clone, Copy, PartialEq, Eq, Structural)]
pub enum Error {
    /// A secret is zero or not below the order of the curve.
    InvalidScalar,
    /// Bytes that do not form a signature.
    InvalidSignature,
    /// Bytes that do not form a private key layout.
    InvalidPrivate,
    /// A layout whose trailing checksum does not match its contents.
    InvalidChecksum,
    /// Two operands of unequal length.
    LengthMismatch,
    /// A remainder asked for with a zero divisor.
    DivisionByZero,
}

} // verus!
