//! Big-endian byte-string arithmetic: the 32-byte words that contract-ABI
//! heads, lengths and call arguments are made of.

use vstd::prelude::*;
use vstd::arithmetic::div_mod::{lemma_div_denominator, lemma_fundamental_div_mod};
use vstd::arithmetic::mul::lemma_mul_inequality;

verus! {

/// 256 to the power k: the number of values a k-byte string can hold.
pub open spec fn pow256(k: nat) -> nat
    decreases k,
{
    if k == 0 {
        1
    } else {
        256 * pow256((k - 1) as nat)
    }
}

/// The value of a byte string read as a big-endian number.
pub open spec fn value_be(s: Seq<u8>) -> nat
    decreases s.len(),
{
    if s.len() == 0 {
        0
    } else {
        (value_be(s.drop_last()) * 256 + s.last()) as nat
    }
}

/// The k-byte big-endian encoding of n (truncated to k bytes).
pub open spec fn bytes_be(n: nat, k: nat) -> Seq<u8>
    decreases k,
{
    if k == 0 {
        Seq::empty()
    } else {
        bytes_be(n / 256, (k - 1) as nat).push((n % 256) as u8)
    }
}

/// A string of n zero bytes.
pub open spec fn zeros(n: nat) -> Seq<u8> {
    Seq::new(n, |i: int| 0u8)
}

pub proof fn lemma_pow256_pos(k: nat)
    ensures
        pow256(k) >= 1,
    decreases k,
{
    if k > 0 {
        lemma_pow256_pos((k - 1) as nat);
    }
}

pub proof fn lemma_bytes_be_len(n: nat, k: nat)
    ensures
        bytes_be(n, k).len() == k,
    decreases k,
{
    if k > 0 {
        lemma_bytes_be_len(n / 256, (k - 1) as nat);
    }
}

pub proof fn lemma_value_be_bound(s: Seq<u8>)
    ensures
        value_be(s) < pow256(s.len()),
    decreases s.len(),
{
    if s.len() > 0 {
        lemma_value_be_bound(s.drop_last());
        let v = value_be(s.drop_last());
        let p = pow256((s.len() - 1) as nat);
        assert(v * 256 + s.last() < p * 256) by (nonlinear_arith)
            requires
                v < p,
                s.last() < 256,
        ;
        assert(pow256(s.len()) == 256 * p);
        assert(p * 256 == 256 * p) by (nonlinear_arith);
    }
}

/// Encoding n in k bytes and reading the value back gives n, whenever n fits.
pub proof fn lemma_value_bytes(n: nat, k: nat)
    requires
        n < pow256(k),
    ensures
        value_be(bytes_be(n, k)) == n,
    decreases k,
{
    if k == 0 {
        assert(pow256(0) == 1);
    } else {
        let p = pow256((k - 1) as nat);
        lemma_pow256_pos((k - 1) as nat);
        assert(n / 256 < p) by (nonlinear_arith)
            requires
                n < 256 * p,
                p >= 1,
        ;
        lemma_value_bytes(n / 256, (k - 1) as nat);
        lemma_bytes_be_len(n / 256, (k - 1) as nat);
        let s = bytes_be(n, k);
        assert(s.drop_last() =~= bytes_be(n / 256, (k - 1) as nat));
        lemma_fundamental_div_mod(n as int, 256);
    }
}

/// A byte string is the encoding of its own value.
pub proof fn lemma_bytes_value(s: Seq<u8>)
    ensures
        bytes_be(value_be(s), s.len()) =~= s,
    decreases s.len(),
{
    if s.len() > 0 {
        let v = value_be(s);
        let hd = value_be(s.drop_last());
        let b = s.last();
        assert(v == hd * 256 + b);
        assert(v / 256 == hd && v % 256 == b) by (nonlinear_arith)
            requires
                v == hd * 256 + b,
                0 <= b < 256,
                hd >= 0,
        ;
        lemma_bytes_value(s.drop_last());
        lemma_bytes_be_len(v / 256, (s.len() - 1) as nat);
    }
}

/// Big-endian value of a concatenation: the left part is shifted by the
/// length of the right part.
pub proof fn lemma_value_be_concat(a: Seq<u8>, b: Seq<u8>)
    ensures
        value_be(a + b) == value_be(a) * pow256(b.len()) + value_be(b),
    decreases b.len(),
{
    if b.len() == 0 {
        assert(a + b =~= a);
        assert(pow256(0) == 1);
        assert(value_be(a) * 1 == value_be(a)) by (nonlinear_arith);
    } else {
        lemma_value_be_concat(a, b.drop_last());
        assert((a + b).drop_last() =~= a + b.drop_last());
        let va = value_be(a);
        let vb = value_be(b.drop_last());
        let p = pow256((b.len() - 1) as nat);
        assert(value_be(a + b) == (va * p + vb) * 256 + b.last());
        assert((va * p + vb) * 256 == va * (256 * p) + vb * 256) by (nonlinear_arith);
        assert(pow256(b.len()) == 256 * p);
        assert(va * (256 * p) == va * pow256(b.len()));
        assert(value_be(b) == vb * 256 + b.last());
        assert(value_be(a + b) == va * pow256(b.len()) + (vb * 256 + b.last()));
    }
}

pub proof fn lemma_value_be_zeros(n: nat)
    ensures
        value_be(zeros(n)) == 0,
    decreases n,
{
    if n > 0 {
        assert(zeros(n).drop_last() =~= zeros((n - 1) as nat));
        lemma_value_be_zeros((n - 1) as nat);
    }
}

/// A value that fits in k2 bytes encodes into k >= k2 bytes as zero padding
/// followed by the short encoding.
pub proof fn lemma_bytes_be_zero_prefix(n: nat, k: nat, k2: nat)
    requires
        k2 <= k,
        n < pow256(k2),
    ensures
        bytes_be(n, k) =~= zeros((k - k2) as nat) + bytes_be(n, k2),
    decreases k,
{
    lemma_bytes_be_len(n, k);
    lemma_bytes_be_len(n, k2);
    if k == k2 {
        assert(zeros(0) + bytes_be(n, k2) =~= bytes_be(n, k2));
    } else {
        lemma_value_be_bound(bytes_be(n, k));
        lemma_value_bytes(n, k2);
        lemma_pow256_pos(k2);
        // value fits in k2 bytes, so splitting off the high byte keeps n whole
        let s = bytes_be(n, k);
        if k2 == 0 {
            assert(n == 0);
            lemma_bytes_be_all_zero(k);
        } else {
            assert(s == bytes_be(n / 256, (k - 1) as nat).push((n % 256) as u8));
            let p = pow256((k2 - 1) as nat);
            assert(n / 256 < p) by (nonlinear_arith)
                requires
                    n < 256 * p,
                    p >= 1,
            ;
            lemma_bytes_be_zero_prefix(n / 256, (k - 1) as nat, (k2 - 1) as nat);
            assert(bytes_be(n, k2) == bytes_be(n / 256, (k2 - 1) as nat).push((n % 256) as u8));
            lemma_bytes_be_len(n / 256, (k2 - 1) as nat);
        }
    }
}

/// Zero encodes as all zero bytes.
pub proof fn lemma_bytes_be_all_zero(k: nat)
    ensures
        bytes_be(0, k) =~= zeros(k),
    decreases k,
{
    if k > 0 {
        lemma_bytes_be_all_zero((k - 1) as nat);
        lemma_bytes_be_len(0nat, (k - 1) as nat);
    }
}

/// Appends the 32-byte big-endian word holding v.
pub fn push_be_word(out: &mut Vec<u8>, v: u64)
    ensures
        final(out)@ =~= old(out)@ + bytes_be(v as nat, 32),
{
    proof {
        reveal_with_fuel(pow256, 9);
        assert(pow256(8) == 0x1_0000_0000_0000_0000);
        lemma_bytes_be_zero_prefix(v as nat, 32, 8);
    }
    let mut i: usize = 0;
    while i < 24
        invariant
            i <= 24,
            out@ =~= old(out)@ + zeros(i as nat),
        decreases 24 - i,
    {
        out.push(0u8);
        proof {
            assert(old(out)@ + zeros(i as nat) + seq![0u8] =~= old(out)@ + zeros(
                (i + 1) as nat,
            ));
        }
        i = i + 1;
    }
    // the low 8 bytes, most significant first
    let mut j: usize = 8;
    while j > 0
        invariant
            j <= 8,
            pow256(8) == 0x1_0000_0000_0000_0000,
            out@ =~= old(out)@ + zeros(24) + bytes_be((v as nat / pow256(j as nat)) as nat, (8 - j) as nat),
        decreases j,
    {
        proof {
            lemma_pow256_pos((j - 1) as nat);
            lemma_div_denominator(v as int, pow256((j - 1) as nat) as int, 256);
            assert(pow256((j - 1) as nat) * 256 == 256 * pow256((j - 1) as nat)) by (nonlinear_arith);
            assert(v as nat / pow256((j - 1) as nat) / 256 == v as nat / pow256(j as nat));
        }
        let q = shift_div(v, (j - 1) as u32);
        let b: u8 = (q % 256) as u8;
        out.push(b);
        proof {
            let lo = v as nat / pow256((j - 1) as nat);
            assert(bytes_be(lo, (8 - (j - 1)) as nat) == bytes_be(lo / 256, (8 - j) as nat).push(
                (lo % 256) as u8,
            ));
            assert(out@ =~= old(out)@ + zeros(24) + bytes_be(lo, (8 - (j - 1)) as nat));
        }
        j = j - 1;
    }
    proof {
        assert(pow256(0) == 1);
        assert(v as nat / 1 == v as nat);
    }
}

/// Appends the 32-byte big-endian word holding a 128-bit value.
pub fn push_be_word_u128(out: &mut Vec<u8>, v: u128)
    ensures
        final(out)@ =~= old(out)@ + bytes_be(v as nat, 32),
{
    proof {
        reveal_with_fuel(pow256, 17);
        assert(pow256(16) == 0x1_0000_0000_0000_0000_0000_0000_0000_0000);
        lemma_bytes_be_zero_prefix(v as nat, 32, 16);
    }
    let mut i: usize = 0;
    while i < 16
        invariant
            i <= 16,
            out@ =~= old(out)@ + zeros(i as nat),
        decreases 16 - i,
    {
        out.push(0u8);
        proof {
            assert(old(out)@ + zeros(i as nat) + seq![0u8] =~= old(out)@ + zeros(
                (i + 1) as nat,
            ));
        }
        i = i + 1;
    }
    let mut j: usize = 16;
    while j > 0
        invariant
            j <= 16,
            out@ =~= old(out)@ + zeros(16) + bytes_be(
                (v as nat / pow256(j as nat)) as nat,
                (16 - j) as nat,
            ),
        decreases j,
    {
        proof {
            lemma_pow256_pos((j - 1) as nat);
            lemma_div_denominator(v as int, pow256((j - 1) as nat) as int, 256);
            assert(pow256((j - 1) as nat) * 256 == 256 * pow256((j - 1) as nat)) by (nonlinear_arith);
            assert(v as nat / pow256((j - 1) as nat) / 256 == v as nat / pow256(j as nat));
        }
        let q = shift_div_u128(v, (j - 1) as u32);
        let b: u8 = (q % 256) as u8;
        out.push(b);
        proof {
            let lo = v as nat / pow256((j - 1) as nat);
            assert(bytes_be(lo, (16 - (j - 1)) as nat) == bytes_be(lo / 256, (16 - j) as nat).push(
                (lo % 256) as u8,
            ));
            assert(out@ =~= old(out)@ + zeros(16) + bytes_be(lo, (16 - (j - 1)) as nat));
        }
        j = j - 1;
    }
    proof {
        assert(pow256(0) == 1);
        assert(v as nat / 1 == v as nat);
    }
}

/// v divided by 256^e, for e < 16.
fn shift_div_u128(v: u128, e: u32) -> (r: u128)
    requires
        e < 16,
    ensures
        r as nat == v as nat / pow256(e as nat),
{
    proof {
        vstd::arithmetic::div_mod::lemma_div_basics(v as int);
        assert(pow256(0) == 1);
    }
    let mut r: u128 = v;
    let mut i: u32 = 0;
    while i < e
        invariant
            i <= e,
            e < 16,
            r as nat == v as nat / pow256(i as nat),
        decreases e - i,
    {
        proof {
            lemma_pow256_pos(i as nat);
            lemma_div_denominator(v as int, pow256(i as nat) as int, 256);
            assert(pow256(i as nat) * 256 == 256 * pow256(i as nat)) by (nonlinear_arith);
        }
        r = r / 256;
        i = i + 1;
    }
    r
}

/// v divided by 256^e, for e < 8.
fn shift_div(v: u64, e: u32) -> (r: u64)
    requires
        e < 8,
    ensures
        r as nat == v as nat / pow256(e as nat),
{
    proof {
        vstd::arithmetic::div_mod::lemma_div_basics(v as int);
        assert(pow256(0) == 1);
    }
    let mut r: u64 = v;
    let mut i: u32 = 0;
    while i < e
        invariant
            i <= e,
            e < 8,
            r as nat == v as nat / pow256(i as nat),
        decreases e - i,
    {
        proof {
            lemma_pow256_pos(i as nat);
            lemma_div_denominator(v as int, pow256(i as nat) as int, 256);
            assert(pow256(i as nat) * 256 == 256 * pow256(i as nat)) by (nonlinear_arith);
        }
        r = r / 256;
        i = i + 1;
    }
    r
}

/// Reads the 32-byte word starting at `pos` as a number, failing when it
/// does not fit in 64 bits.
pub fn read_be_word(d: &[u8], pos: usize) -> (r: Option<u64>)
    requires
        pos + 32 <= d@.len(),
    ensures
        match r {
            Some(v) => v as nat == value_be(d@.subrange(pos as int, pos + 32)),
            None => value_be(d@.subrange(pos as int, pos + 32)) >= pow256(8),
        },
{
    let n: usize = d.len();
    let w = Ghost(d@.subrange(pos as int, pos + 32));
    let mut i: usize = 0;
    while i < 24
        invariant
            i <= 24,
            n == d@.len(),
            pos + 32 <= n,
            pos + 32 <= d@.len(),
            w@ =~= d@.subrange(pos as int, pos + 32),
            forall|t: int| 0 <= t < i ==> w@[t] == 0u8,
        decreases 24 - i,
    {
        if d[pos + i] != 0 {
            proof {
                lemma_high_byte_nonzero(w@, i as int);
            }
            return None;
        }
        i = i + 1;
    }
    proof {
        assert(w@ =~= w@.subrange(0, 24) + w@.subrange(24, 32));
        assert(w@.subrange(0, 24) =~= zeros(24));
        lemma_value_be_zeros(24);
        lemma_value_be_concat(w@.subrange(0, 24), w@.subrange(24, 32));
        lemma_value_be_bound(w@.subrange(24, 32));
        reveal_with_fuel(pow256, 9);
        assert(pow256(8) == 0x1_0000_0000_0000_0000);
    }
    let mut acc: u64 = 0;
    let mut j: usize = 0;
    while j < 8
        invariant
            j <= 8,
            n == d@.len(),
            pos + 32 <= n,
            pos + 32 <= d@.len(),
            w@ =~= d@.subrange(pos as int, pos + 32),
            acc as nat == value_be(w@.subrange(24, 24 + j)),
            (acc as nat) < pow256(j as nat),
            pow256(8) == 0x1_0000_0000_0000_0000,
            value_be(w@) == value_be(w@.subrange(24, 32)),
        decreases 8 - j,
    {
        proof {
            lemma_pow256_bytes_bound(j as nat);
            assert(acc as nat * 256 + 255 < pow256((j + 1) as nat)) by (nonlinear_arith)
                requires
                    (acc as nat) < pow256(j as nat),
                    pow256((j + 1) as nat) == 256 * pow256(j as nat),
            ;
            lemma_pow256_le(((j + 1) as nat), 8);
        }
        let b = d[pos + 24 + j];
        proof {
            assert(w@.subrange(24, 24 + (j + 1)).drop_last() =~= w@.subrange(24, 24 + j));
            assert(w@.subrange(24, 24 + (j + 1)).last() == w@[24 + j as int]);
        }
        acc = acc * 256 + (b as u64);
        j = j + 1;
        proof {
            lemma_value_be_bound(w@.subrange(24, 24 + j as int));
        }
    }
    proof {
        assert(w@.subrange(24, 32) =~= w@.subrange(24, 24 + 8int));
    }
    Some(acc)
}

/// pow256 is monotone in the exponent.
pub proof fn lemma_pow256_le(a: nat, b: nat)
    requires
        a <= b,
    ensures
        pow256(a) <= pow256(b),
    decreases b,
{
    if a < b {
        lemma_pow256_le(a, (b - 1) as nat);
        lemma_pow256_pos((b - 1) as nat);
        assert(pow256(b) == 256 * pow256((b - 1) as nat));
        lemma_mul_inequality(1, 256, pow256((b - 1) as nat) as int);
        assert(256 * pow256((b - 1) as nat) >= 1 * pow256((b - 1) as nat)) by (nonlinear_arith)
            requires
                pow256((b - 1) as nat) >= 1,
        ;
    }
}

proof fn lemma_pow256_bytes_bound(j: nat)
    ensures
        pow256((j + 1) as nat) == 256 * pow256(j),
{
}

/// A 32-byte word with a nonzero byte among the first 24 holds a value of
/// at least 2^64.
proof fn lemma_high_byte_nonzero(w: Seq<u8>, i: int)
    requires
        w.len() == 32,
        0 <= i < 24,
        w[i] != 0,
    ensures
        value_be(w) >= pow256(8),
{
    let a = w.subrange(0, i + 1);
    let b = w.subrange(i + 1, 32);
    assert(w =~= a + b);
    lemma_value_be_concat(a, b);
    assert(a.drop_last() =~= w.subrange(0, i));
    assert(a.last() == w[i]);
    assert(value_be(a) >= 1);
    let bl = b.len();
    lemma_pow256_pos(bl);
    assert(value_be(a) * pow256(bl) >= 1 * pow256(bl)) by (nonlinear_arith)
        requires
            value_be(a) >= 1,
            pow256(bl) >= 1,
    ;
    lemma_pow256_le(8, bl);
}

} // verus!
