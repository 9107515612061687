//! Numbers written as byte strings and bit strings, most significant first.
use vstd::prelude::*;
use vstd::arithmetic::div_mod::{lemma_div_denominator, lemma_fundamental_div_mod};

verus! {

/// `256` raised to `n`.
pub open spec fn byte_power(n: nat) -> nat
    decreases n,
{
    if n == 0 {
        1
    } else {
        256 * byte_power((n - 1) as nat)
    }
}

/// `2` raised to `n`.
pub open spec fn bit_power(n: nat) -> nat
    decreases n,
{
    if n == 0 {
        1
    } else {
        2 * bit_power((n - 1) as nat)
    }
}

/// The number a byte string denotes, most significant byte first.
pub open spec fn be_value(s: Seq<u8>) -> nat
    decreases s.len(),
{
    if s.len() == 0 {
        0
    } else {
        be_value(s.drop_last()) * 256 + s.last() as nat
    }
}

/// The number a bit string denotes, most significant bit first.
pub open spec fn bits_value(s: Seq<bool>) -> nat
    decreases s.len(),
{
    if s.len() == 0 {
        0
    } else {
        bits_value(s.drop_last()) * 2 + if s.last() {
            1nat
        } else {
            0nat
        }
    }
}

/// Bit `k` of the `w`-bit number `v`, counting from the most significant end.
pub open spec fn bit_at(v: nat, w: nat, k: int) -> bool {
    (v / bit_power((w - 1 - k) as nat)) % 2 == 1
}

/// `v` written with `w` bits, most significant first.
pub open spec fn bits_of(v: nat, w: nat) -> Seq<bool> {
    Seq::new(w, |k: int| bit_at(v, w, k))
}

/// The bits of a byte string: eight per byte, most significant first.
pub open spec fn byte_bits(s: Seq<u8>) -> Seq<bool> {
    Seq::new(8 * s.len(), |i: int| bit_at(s[i / 8] as nat, 8, i % 8))
}

pub proof fn lemma_byte_power_positive(n: nat)
    ensures
        byte_power(n) >= 1,
    decreases n,
{
    if n > 0 {
        lemma_byte_power_positive((n - 1) as nat);
    }
}

pub proof fn lemma_byte_power_monotonic(m: nat, n: nat)
    requires
        m <= n,
    ensures
        byte_power(m) <= byte_power(n),
    decreases n,
{
    if m < n {
        lemma_byte_power_monotonic(m, (n - 1) as nat);
    }
}

pub proof fn lemma_bit_power_positive(n: nat)
    ensures
        bit_power(n) >= 1,
    decreases n,
{
    if n > 0 {
        lemma_bit_power_positive((n - 1) as nat);
    }
}

pub proof fn lemma_bit_power_monotonic(m: nat, n: nat)
    requires
        m <= n,
    ensures
        bit_power(m) <= bit_power(n),
    decreases n,
{
    if m < n {
        lemma_bit_power_monotonic(m, (n - 1) as nat);
    }
}

/// A byte string of length `n` denotes a number below `256^n`.
pub proof fn lemma_be_value_bound(s: Seq<u8>)
    ensures
        be_value(s) < byte_power(s.len()),
    decreases s.len(),
{
    if s.len() > 0 {
        let d = s.drop_last();
        lemma_be_value_bound(d);
        let v = be_value(d);
        let p = byte_power(d.len());
        assert(v * 256 + s.last() < 256 * p) by (nonlinear_arith)
            requires
                v < p,
                s.last() < 256,
        ;
    }
}

/// Splitting a byte string splits its value.
pub proof fn lemma_be_value_append(a: Seq<u8>, b: Seq<u8>)
    ensures
        be_value(a + b) == be_value(a) * byte_power(b.len()) + be_value(b),
    decreases b.len(),
{
    if b.len() == 0 {
        assert(a + b =~= a);
        assert(be_value(b) == 0);
        assert(byte_power(0) == 1);
        assert(be_value(a) * 1 == be_value(a));
    } else {
        let b1 = b.drop_last();
        assert((a + b).drop_last() =~= a + b1);
        assert((a + b).last() == b.last());
        lemma_be_value_append(a, b1);
        let va = be_value(a);
        let p1 = byte_power(b1.len());
        let vb1 = be_value(b1);
        assert(be_value(a + b) == be_value(a + b1) * 256 + b.last());
        assert(be_value(b) == vb1 * 256 + b.last());
        assert(byte_power(b.len()) == 256 * p1);
        assert((va * p1 + vb1) * 256 == va * (256 * p1) + vb1 * 256) by (nonlinear_arith);
        assert(be_value(a + b) == va * byte_power(b.len()) + be_value(b));
    }
}

/// The value of a one-byte string is that byte.
pub proof fn lemma_be_value_single(x: u8)
    ensures
        be_value(seq![x]) == x,
{
    assert(seq![x].drop_last() =~= Seq::<u8>::empty());
    assert(be_value(Seq::<u8>::empty()) == 0);
    assert(seq![x].last() == x);
}

/// A byte string denotes zero exactly when all its bytes are zero.
pub proof fn lemma_be_value_zero(s: Seq<u8>)
    ensures
        be_value(s) == 0 <==> (forall|i: int| 0 <= i < s.len() ==> s[i] == 0),
    decreases s.len(),
{
    if s.len() > 0 {
        let d = s.drop_last();
        lemma_be_value_zero(d);
        if be_value(s) == 0 {
            assert forall|i: int| 0 <= i < s.len() implies s[i] == 0 by {
                if i < s.len() - 1 {
                    assert(s[i] == d[i]);
                }
            }
        }
        if forall|i: int| 0 <= i < s.len() ==> s[i] == 0 {
            assert forall|i: int| 0 <= i < d.len() implies d[i] == 0 by {
                assert(d[i] == s[i]);
            }
        }
    }
}

/// Zero bytes in front leave the value unchanged.
pub proof fn lemma_be_value_leading_zeros(z: Seq<u8>, s: Seq<u8>)
    requires
        forall|i: int| 0 <= i < z.len() ==> z[i] == 0,
    ensures
        be_value(z + s) == be_value(s),
{
    lemma_be_value_append(z, s);
    lemma_be_value_zero(z);
}

/// A byte string whose first byte is not zero is at least `256^(n-1)`.
pub proof fn lemma_be_value_leading_nonzero(s: Seq<u8>)
    requires
        s.len() > 0,
        s[0] != 0,
    ensures
        be_value(s) >= byte_power((s.len() - 1) as nat),
{
    let rest = s.subrange(1, s.len() as int);
    assert(s =~= seq![s[0]] + rest);
    lemma_be_value_append(seq![s[0]], rest);
    lemma_be_value_single(s[0]);
    let p = byte_power(rest.len());
    assert(s[0] * p >= p) by (nonlinear_arith)
        requires
            s[0] >= 1,
            p >= 0,
    ;
}

/// Of two byte strings of one length, the one that is smaller at the first
/// byte where they differ denotes the smaller number.
pub proof fn lemma_be_value_lexicographic(a: Seq<u8>, b: Seq<u8>, i: int)
    requires
        a.len() == b.len(),
        0 <= i < a.len(),
        a.take(i) == b.take(i),
        a[i] < b[i],
    ensures
        be_value(a) < be_value(b),
{
    let n = a.len();
    let p = byte_power((n - i - 1) as nat);
    let ha = a.take(i + 1);
    let hb = b.take(i + 1);
    let ta = a.skip(i + 1);
    let tb = b.skip(i + 1);
    assert(a =~= ha + ta);
    assert(b =~= hb + tb);
    lemma_be_value_append(ha, ta);
    lemma_be_value_append(hb, tb);
    assert(ha.drop_last() =~= a.take(i));
    assert(hb.drop_last() =~= b.take(i));
    lemma_be_value_bound(ta);
    let va = be_value(ha);
    let vb = be_value(hb);
    assert(va + 1 <= vb);
    let ra = be_value(ta);
    let rb = be_value(tb);
    assert(va * p + ra < vb * p + rb) by (nonlinear_arith)
        requires
            va + 1 <= vb,
            ra < p,
            rb >= 0,
    ;
}

/// Dropping the last bit halves a number; bit `k` of `v` is bit `k` of `v / 2`
/// one place further up.
pub proof fn lemma_bit_at_halve(v: nat, w: nat, k: int)
    requires
        0 <= k < w - 1,
    ensures
        bit_at(v, w, k) == bit_at(v / 2, (w - 1) as nat, k),
{
    let m = (w - 2 - k) as nat;
    assert(((w - 1 - k) as nat) == m + 1);
    lemma_bit_power_positive(m);
    lemma_div_denominator(v as int, 2, bit_power(m) as int);
    assert(bit_power(m + 1) == 2 * bit_power(m));
}

/// Reading a number back from its bits gives the number.
pub proof fn lemma_bits_value_of_bits(v: nat, w: nat)
    requires
        v < bit_power(w),
    ensures
        bits_value(bits_of(v, w)) == v,
    decreases w,
{
    if w == 0 {
    } else {
        let s = bits_of(v, w);
        let h = (v / 2) as nat;
        assert(h < bit_power((w - 1) as nat));
        assert forall|k: int| 0 <= k < w - 1 implies #[trigger] s.drop_last()[k] == bits_of(
            h,
            (w - 1) as nat,
        )[k] by {
            lemma_bit_at_halve(v, w, k);
        }
        assert(s.drop_last() =~= bits_of(h, (w - 1) as nat));
        lemma_bits_value_of_bits(h, (w - 1) as nat);
        assert(bit_power(0) == 1);
        assert(((w - 1 - (w - 1)) as nat) == 0);
        assert(s.last() == bit_at(v, w, w - 1));
        assert(v / 1 == v);
        assert(s.last() == (v % 2 == 1));
        lemma_fundamental_div_mod(v as int, 2);
    }
}

/// The bits of the number a bit string denotes are that bit string.
pub proof fn lemma_bits_of_bits_value(s: Seq<bool>)
    ensures
        bits_of(bits_value(s), s.len()) == s,
        bits_value(s) < bit_power(s.len()),
    decreases s.len(),
{
    if s.len() > 0 {
        let d = s.drop_last();
        let v = bits_value(s);
        let w = s.len();
        lemma_bits_of_bits_value(d);
        let b: nat = if s.last() {
            1
        } else {
            0
        };
        assert(v == bits_value(d) * 2 + b);
        assert(v / 2 == bits_value(d));
        assert(v % 2 == b);
        assert forall|k: int| 0 <= k < w implies #[trigger] bits_of(v, w)[k] == s[k] by {
            if k < w - 1 {
                lemma_bit_at_halve(v, w, k);
                assert(bits_of(bits_value(d), d.len())[k] == d[k]);
            } else {
                assert(bit_power(0) == 1);
                assert(((w - 1 - k) as nat) == 0);
                assert(v / 1 == v);
                assert(s[k] == s.last());
            }
        }
        assert(bits_of(v, w) =~= s);
    }
}

/// The powers of two that bit strings of bytes and of word indices reach.
pub proof fn lemma_bit_power_values()
    ensures
        bit_power(8) == 256,
        bit_power(11) == 2048,
{
    reveal_with_fuel(bit_power, 12);
}

/// Bit `k` of the `w`-bit number `v`, counting from the most significant end.
pub fn bit_of(v: u32, w: u32, k: u32) -> (r: bool)
    requires
        k < w,
    ensures
        r == bit_at(v as nat, w as nat, k as int),
{
    let shift = w - 1 - k;
    let mut x = v;
    let mut i: u32 = 0;
    assert(bit_power(0) == 1);
    assert(v as nat / 1 == v);
    while i < shift
        invariant
            i <= shift,
            x == v as nat / bit_power(i as nat),
        decreases shift - i,
    {
        proof {
            lemma_bit_power_positive(i as nat);
            lemma_div_denominator(v as int, bit_power(i as nat) as int, 2);
            assert(bit_power((i + 1) as nat) == 2 * bit_power(i as nat));
            assert(bit_power(i as nat) * 2 == bit_power((i + 1) as nat));
        }
        x = x / 2;
        i = i + 1;
    }
    x % 2 == 1
}

/// Appends `bytes` to `v`.
pub fn append_bytes(v: &mut Vec<u8>, bytes: &[u8])
    ensures
        final(v)@ == old(v)@ + bytes@,
{
    let mut i: usize = 0;
    while i < bytes.len()
        invariant
            i <= bytes@.len(),
            v@ == old(v)@ + bytes@.take(i as int),
        decreases bytes@.len() - i,
    {
        v.push(bytes[i]);
        i = i + 1;
        assert(bytes@.take(i as int) =~= bytes@.take(i - 1) + seq![bytes@[i - 1]]);
    }
    assert(bytes@.take(i as int) =~= bytes@);
}

/// Whether the number `a` denotes is at most the number `b` denotes, for byte
/// strings of any lengths.
pub fn be_at_most(a: &[u8], b: &[u8]) -> (r: bool)
    ensures
        r == (be_value(a@) <= be_value(b@)),
{
    let la = a.len();
    let lb = b.len();
    let n = if la > lb {
        la
    } else {
        lb
    };
    let ghost za = Seq::new((n - la) as nat, |k: int| 0u8);
    let ghost zb = Seq::new((n - lb) as nat, |k: int| 0u8);
    let ghost pa = za + a@;
    let ghost pb = zb + b@;
    proof {
        lemma_be_value_leading_zeros(za, a@);
        lemma_be_value_leading_zeros(zb, b@);
    }
    let mut i: usize = 0;
    while i < n
        invariant
            la == a@.len(),
            lb == b@.len(),
            la <= n,
            lb <= n,
            pa == za + a@,
            pb == zb + b@,
            za.len() == n - la,
            zb.len() == n - lb,
            forall|k: int| 0 <= k < za.len() ==> za[k] == 0,
            forall|k: int| 0 <= k < zb.len() ==> zb[k] == 0,
            be_value(pa) == be_value(a@),
            be_value(pb) == be_value(b@),
            i <= n,
            pa.take(i as int) == pb.take(i as int),
        decreases n - i,
    {
        let da: u8 = if i < n - la {
            0
        } else {
            a[i - (n - la)]
        };
        let db: u8 = if i < n - lb {
            0
        } else {
            b[i - (n - lb)]
        };
        assert(da == pa[i as int]);
        assert(db == pb[i as int]);
        if da < db {
            proof {
                lemma_be_value_lexicographic(pa, pb, i as int);
            }
            return true;
        }
        if da > db {
            proof {
                lemma_be_value_lexicographic(pb, pa, i as int);
            }
            return false;
        }
        i = i + 1;
        assert(pa.take(i as int) =~= pa.take(i - 1) + seq![pa[i - 1]]);
        assert(pb.take(i as int) =~= pb.take(i - 1) + seq![pb[i - 1]]);
    }
    assert(pa =~= pa.take(n as int));
    assert(pb =~= pb.take(n as int));
    true
}

} // verus!
