//! Modular arithmetic on big-endian byte arrays of one fixed width.
use vstd::prelude::*;
use vstd::arithmetic::div_mod::lemma_fundamental_div_mod_converse;
use crate::bytes::{
    be_value, byte_power, lemma_be_value_append, lemma_be_value_bound, lemma_be_value_leading_nonzero,
    lemma_be_value_leading_zeros, lemma_be_value_single, lemma_be_value_zero, lemma_byte_power_monotonic,
    lemma_byte_power_positive,
};
use crate::error::Error;

verus! {

/// Relies on num's BigUint: `from_bytes_be` reads both operands, `%` takes the
/// remainder, and `to_bytes_be` writes it in the fewest bytes (a single zero
/// byte for zero).
#[verifier::external_body]
fn big_remainder(a: &[u8], b: &[u8]) -> (r: Vec<u8>)
    requires
        be_value(b@) != 0,
    ensures
        be_value(r@) == be_value(a@) % be_value(b@),
        r@.len() >= 1,
        r@.len() == 1 || r@[0] != 0,
{
    let x = num::BigUint::from_bytes_be(a);
    let y = num::BigUint::from_bytes_be(b);
    (x % y).to_bytes_be()
}

/// The value of a suffix grows by one byte at a time from the right.
proof fn lemma_suffix_step(s: Seq<u8>, k: int)
    requires
        0 < k <= s.len(),
    ensures
        be_value(s.subrange(k - 1, s.len() as int)) == s[k - 1] * byte_power((s.len() - k) as nat)
            + be_value(s.subrange(k, s.len() as int)),
{
    let tail = s.subrange(k, s.len() as int);
    assert(s.subrange(k - 1, s.len() as int) =~= seq![s[k - 1]] + tail);
    lemma_be_value_append(seq![s[k - 1]], tail);
    lemma_be_value_single(s[k - 1]);
}

/// Adds two big-endian numbers of one width, dropping the carry out of the
/// top byte.
fn add_bytes(a: Vec<u8>, b: Vec<u8>) -> (r: Result<Vec<u8>, Error>)
    ensures
        a@.len() != b@.len() ==> r == Err::<Vec<u8>, Error>(Error::LengthMismatch),
        a@.len() == b@.len() ==> r is Ok && r->Ok_0@.len() == a@.len() && be_value(r->Ok_0@) == (be_value(
            a@,
        ) + be_value(b@)) % byte_power(a@.len()),
{
    if a.len() != b.len() {
        return Err(Error::LengthMismatch);
    }
    let n = a.len();
    let mut out: Vec<u8> = vec![0u8; n];
    let mut carry: u16 = 0;
    let mut k: usize = n;
    while k > 0
        invariant
            n == a@.len(),
            n == b@.len(),
            n == out@.len(),
            k <= n,
            carry <= 1,
            be_value(out@.subrange(k as int, n as int)) + carry * byte_power((n - k) as nat)
                == be_value(a@.subrange(k as int, n as int)) + be_value(b@.subrange(k as int, n as int)),
        decreases k,
    {
        let ghost old_out = out@;
        let sum: u16 = a[k - 1] as u16 + b[k - 1] as u16 + carry;
        out.set(k - 1, (sum % 256) as u8);
        let ghost c = carry;
        carry = sum / 256;
        proof {
            assert(out@.subrange(k as int, n as int) =~= old_out.subrange(k as int, n as int));
            lemma_suffix_step(out@, k as int);
            lemma_suffix_step(a@, k as int);
            lemma_suffix_step(b@, k as int);
            let p = byte_power((n - k) as nat);
            assert(byte_power((n - (k - 1)) as nat) == 256 * p);
            let lo = (sum % 256) as int;
            assert(lo + 256 * carry == sum);
            assert(lo * p + carry * (256 * p) == (a[k - 1] + b[k - 1] + c) * p) by (nonlinear_arith)
                requires
                    lo + 256 * carry == a[k - 1] + b[k - 1] + c,
            ;
            assert((a[k - 1] + b[k - 1] + c) * p == a[k - 1] * p + b[k - 1] * p + c * p) by (nonlinear_arith);
        }
        k = k - 1;
    }
    proof {
        assert(out@.subrange(0, n as int) =~= out@);
        assert(a@.subrange(0, n as int) =~= a@);
        assert(b@.subrange(0, n as int) =~= b@);
        lemma_be_value_bound(out@);
        lemma_byte_power_positive(n as nat);
        lemma_fundamental_div_mod_converse(
            (be_value(a@) + be_value(b@)) as int,
            byte_power(n as nat) as int,
            carry as int,
            be_value(out@) as int,
        );
    }
    Ok(out)
}

/// The remainder of one big-endian number by another of the same width,
/// written in that width.
fn modulo(a: Vec<u8>, b: Vec<u8>) -> (r: Result<Vec<u8>, Error>)
    ensures
        a@.len() != b@.len() ==> r == Err::<Vec<u8>, Error>(Error::LengthMismatch),
        a@.len() == b@.len() && be_value(b@) == 0 ==> r == Err::<Vec<u8>, Error>(
            Error::DivisionByZero,
        ),
        a@.len() == b@.len() && be_value(b@) != 0 ==> r is Ok && r->Ok_0@.len() == a@.len() && be_value(
            r->Ok_0@,
        ) == be_value(a@) % be_value(b@),
{
    if a.len() != b.len() {
        return Err(Error::LengthMismatch);
    }
    let mut nonzero = false;
    let mut i: usize = 0;
    while i < b.len()
        invariant
            i <= b@.len(),
            nonzero <==> exists|j: int| 0 <= j < i && b@[j] != 0,
        decreases b@.len() - i,
    {
        if b[i] != 0 {
            nonzero = true;
        }
        i = i + 1;
    }
    proof {
        lemma_be_value_zero(b@);
    }
    if !nonzero {
        return Err(Error::DivisionByZero);
    }
    let rem = big_remainder(a.as_slice(), b.as_slice());
    let n = a.len();
    proof {
        lemma_be_value_bound(b@);
        if rem@.len() > n {
            lemma_be_value_leading_nonzero(rem@);
            lemma_byte_power_monotonic(n as nat, (rem@.len() - 1) as nat);
        }
    }
    let pad = n - rem.len();
    let mut out: Vec<u8> = vec![0u8; pad];
    let mut j: usize = 0;
    while j < rem.len()
        invariant
            pad + rem@.len() == n,
            j <= rem@.len(),
            out@.len() == pad + j,
            forall|t: int| 0 <= t < pad ==> out@[t] == 0,
            out@.subrange(pad as int, out@.len() as int) == rem@.take(j as int),
        decreases rem@.len() - j,
    {
        out.push(rem[j]);
        j = j + 1;
        assert(out@.subrange(pad as int, out@.len() as int) =~= rem@.take(j as int));
    }
    proof {
        let zeros = out@.take(pad as int);
        assert(rem@.take(j as int) =~= rem@);
        assert forall|t: int| pad <= t < out@.len() implies out@[t] == rem@[t - pad] by {
            assert(out@.subrange(pad as int, out@.len() as int)[t - pad] == out@[t]);
        }
        assert(out@ =~= zeros + rem@);
        lemma_be_value_leading_zeros(zeros, rem@);
    }
    Ok(out)
}

/// Arithmetic modulo a divisor.
pub trait Mod: Sized {
    type Output;

    /// The remainder of `self` by `other`.
    fn modulo(self, other: Self) -> Self::Output;
}

/// A number that can be added and reduced.
pub trait Scalar: Mod {
    /// The sum of `self` and `other`.
    fn add(self, other: Self) -> Self::Output;
}

/// A number written as big-endian bytes.
pub struct BytesArray(pub Vec<u8>);

impl BytesArray {
    /// Wraps big-endian bytes.
    pub fn new(bytes: Vec<u8>) -> (r: Self)
        ensures
            r.0@ == bytes@,
    {
        BytesArray(bytes)
    }
}

impl Mod for BytesArray {
    type Output = Result<BytesArray, Error>;

    /// Fails with `LengthMismatch` on operands of unequal width and with
    /// `DivisionByZero` on a zero divisor.
    fn modulo(self, divisor: Self) -> (r: Result<BytesArray, Error>)
        ensures
            self.0@.len() != divisor.0@.len() ==> r == Err::<BytesArray, Error>(Error::LengthMismatch),
            self.0@.len() == divisor.0@.len() && be_value(divisor.0@) == 0 ==> r == Err::<
                BytesArray,
                Error,
            >(Error::DivisionByZero),
            self.0@.len() == divisor.0@.len() && be_value(divisor.0@) != 0 ==> (r matches Ok(q)
                && q.0@.len() == self.0@.len() && be_value(q.0@) == be_value(self.0@) % be_value(
                divisor.0@,
            )),
    {
        match modulo(self.0, divisor.0) {
            Ok(v) => Ok(BytesArray(v)),
            Err(e) => Err(e),
        }
    }
}

impl Scalar for BytesArray {
    /// Fails with `LengthMismatch` on operands of unequal width; a carry out
    /// of the top byte is dropped.
    fn add(self, other: Self) -> (r: Result<BytesArray, Error>)
        ensures
            self.0@.len() != other.0@.len() ==> r == Err::<BytesArray, Error>(Error::LengthMismatch),
            self.0@.len() == other.0@.len() ==> (r matches Ok(s) && s.0@.len() == self.0@.len()
                && be_value(s.0@) == (be_value(self.0@) + be_value(other.0@)) % byte_power(
                self.0@.len(),
            )),
    {
        match add_bytes(self.0, other.0) {
            Ok(v) => Ok(BytesArray(v)),
            Err(e) => Err(e),
        }
    }
}

} // verus!
