//! The contract-ABI layout of a creation event's data payload: two
//! dynamically sized byte strings (token name and symbol), laid out as two
//! offset words, then for each string a length word and the bytes padded
//! with zeros to a 32-byte boundary.

use vstd::prelude::*;
use crate::word::{bytes_be, lemma_bytes_be_len, lemma_value_bytes, pow256, push_be_word, read_be_word, value_be, zeros};

verus! {

/// The error reported for a log that does not decode.
#[derive(Clone, Copy, Debug, PartialEq, Eq, Structural)]
pub enum DecodeError {
    /// A creation log carries exactly three topics.
    WrongTopicCount,
    /// Every topic word is 32 bytes long.
    WrongTopicLength,
    /// The first topic is not the creation-event signature.
    WrongSignature,
    /// An address topic is not a zero-padded 20-byte address.
    BadAddressPadding,
    /// The data payload is not a canonical encoding of two strings.
    BadPayload,
}

/// n rounded up to a multiple of 32.
pub open spec fn pad32(n: nat) -> nat {
    ((n + 31) / 32) * 32
}

/// The canonical payload encoding of the two byte strings a and b.
pub open spec fn spec_encode_two(a: Seq<u8>, b: Seq<u8>) -> Seq<u8> {
    bytes_be(64, 32) + bytes_be(96 + pad32(a.len()), 32) + bytes_be(a.len(), 32) + a + zeros(
        (pad32(a.len()) - a.len()) as nat,
    ) + bytes_be(b.len(), 32) + b + zeros((pad32(b.len()) - b.len()) as nat)
}

/// The two byte strings held by a canonical payload, or None where the
/// payload is not canonical.
pub open spec fn spec_decode_two(d: Seq<u8>) -> Option<(Seq<u8>, Seq<u8>)> {
    if d.len() < 128 {
        None
    } else {
        let off1 = value_be(d.subrange(0, 32));
        let off2 = value_be(d.subrange(32, 64));
        let len1 = value_be(d.subrange(64, 96));
        if off1 != 64 {
            None
        } else {
            let p1 = pad32(len1);
            if off2 != 96 + p1 {
                None
            } else if d.len() < 128 + p1 {
                None
            } else {
                let len2 = value_be(d.subrange(96 + p1 as int, 128 + p1 as int));
                let p2 = pad32(len2);
                if d.len() != 128 + p1 + p2 {
                    None
                } else if !(forall|i: int| 96 + len1 <= i < 96 + p1 ==> d[i] == 0u8) {
                    None
                } else if !(forall|i: int| 128 + p1 + len2 <= i < d.len() ==> d[i] == 0u8) {
                    None
                } else {
                    Some((d.subrange(96, 96 + len1 as int), d.subrange(128 + p1 as int, 128 + p1 as int + len2 as int)))
                }
            }
        }
    }
}

pub proof fn lemma_pad32_bounds(n: nat)
    ensures
        n <= pad32(n) < n + 32,
        pad32(n) % 32 == 0,
{
    let q = (n + 31) / 32;
    let r = (n + 31) % 32;
    vstd::arithmetic::div_mod::lemma_fundamental_div_mod((n + 31) as int, 32);
    assert(q * 32 == n + 31 - r) by (nonlinear_arith)
        requires
            n + 31 == 32 * q + r,
    ;
    vstd::arithmetic::div_mod::lemma_mod_multiples_basic(q as int, 32);
    assert(q * 32 == 32 * q) by (nonlinear_arith);
}

/// Appends a copy of the slice.
pub fn push_bytes(out: &mut Vec<u8>, s: &[u8])
    ensures
        final(out)@ =~= old(out)@ + s@,
{
    let n = s.len();
    let mut i: usize = 0;
    while i < n
        invariant
            i <= n,
            n == s@.len(),
            out@ =~= old(out)@ + s@.subrange(0, i as int),
        decreases n - i,
    {
        out.push(s[i]);
        proof {
            assert(old(out)@ + s@.subrange(0, i as int) + seq![s@[i as int]] =~= old(out)@
                + s@.subrange(0, i + 1));
        }
        i = i + 1;
    }
    proof {
        assert(s@.subrange(0, n as int) =~= s@);
    }
}

/// Appends k zero bytes.
pub fn push_zeros(out: &mut Vec<u8>, k: usize)
    ensures
        final(out)@ =~= old(out)@ + zeros(k as nat),
{
    let mut i: usize = 0;
    while i < k
        invariant
            i <= k,
            out@ =~= old(out)@ + zeros(i as nat),
        decreases k - i,
    {
        out.push(0u8);
        proof {
            assert(old(out)@ + zeros(i as nat) + seq![0u8] =~= old(out)@ + zeros((i + 1) as nat));
        }
        i = i + 1;
    }
}

/// Lengths small enough that the whole payload fits in a vector.
pub open spec fn encodable(a: Seq<u8>, b: Seq<u8>) -> bool {
    a.len() + b.len() + 200 <= usize::MAX
}

/// Builds the canonical payload for the two strings.
pub fn encode_two_strings(a: &[u8], b: &[u8]) -> (r: Vec<u8>)
    requires
        encodable(a@, b@),
    ensures
        r@ =~= spec_encode_two(a@, b@),
{
    let la = a.len();
    let lb = b.len();
    let pa: usize = ((la + 31) / 32) * 32;
    let pb: usize = ((lb + 31) / 32) * 32;
    proof {
        lemma_pad32_bounds(la as nat);
        lemma_pad32_bounds(lb as nat);
    }
    let mut out: Vec<u8> = Vec::new();
    push_be_word(&mut out, 64);
    push_be_word(&mut out, (96 + pa) as u64);
    push_be_word(&mut out, la as u64);
    push_bytes(&mut out, a);
    push_zeros(&mut out, pa - la);
    push_be_word(&mut out, lb as u64);
    push_bytes(&mut out, b);
    push_zeros(&mut out, pb - lb);
    proof {
        assert(pa as nat == pad32(a@.len()));
        assert(pb as nat == pad32(b@.len()));
        assert(out@ =~= spec_encode_two(a@, b@));
    }
    out
}

/// Reads the two strings out of a canonical payload, rejecting every
/// payload that `spec_encode_two` could not have produced.
pub fn decode_two_strings(d: &[u8]) -> (r: Result<(Vec<u8>, Vec<u8>), DecodeError>)
    ensures
        match r {
            Ok(p) => spec_decode_two(d@) == Some((p.0@, p.1@)),
            Err(e) => spec_decode_two(d@) is None && e == DecodeError::BadPayload,
        },
{
    let n = d.len();
    proof {
        reveal_with_fuel(pow256, 9);
        assert(pow256(8) == 0x1_0000_0000_0000_0000);
    }
    if n < 128 {
        return Err(DecodeError::BadPayload);
    }
    let off1 = match read_be_word(d, 0) {
        None => {
            return Err(DecodeError::BadPayload);
        },
        Some(v) => v,
    };
    if off1 != 64 {
        return Err(DecodeError::BadPayload);
    }
    let off2 = match read_be_word(d, 32) {
        None => {
            proof {
                let len1s = value_be(d@.subrange(64, 96));
                lemma_pad32_bounds(len1s);
            }
            return Err(DecodeError::BadPayload);
        },
        Some(v) => v,
    };
    let len1 = match read_be_word(d, 64) {
        None => {
            proof {
                let len1s = value_be(d@.subrange(64, 96));
                lemma_pad32_bounds(len1s);
            }
            return Err(DecodeError::BadPayload);
        },
        Some(v) => v,
    };
    let p1w: u128 = ((len1 as u128 + 31) / 32) * 32;
    proof {
        assert(p1w as nat == pad32(len1 as nat));
        lemma_pad32_bounds(len1 as nat);
    }
    if (off2 as u128) != 96 + p1w {
        return Err(DecodeError::BadPayload);
    }
    if (n as u128) < 128 + p1w {
        return Err(DecodeError::BadPayload);
    }
    let p1: usize = p1w as usize;
    let len1u: usize = len1 as usize;
    let len2 = match read_be_word(d, 96 + p1) {
        None => {
            proof {
                let len2s = value_be(d@.subrange(96 + p1 as int, 128 + p1 as int));
                lemma_pad32_bounds(len2s);
            }
            return Err(DecodeError::BadPayload);
        },
        Some(v) => v,
    };
    let p2w: u128 = ((len2 as u128 + 31) / 32) * 32;
    proof {
        assert(p2w as nat == pad32(len2 as nat));
        lemma_pad32_bounds(len2 as nat);
    }
    if (n as u128) != 128 + p1w + p2w {
        return Err(DecodeError::BadPayload);
    }
    let len2u: usize = len2 as usize;
    let mut i: usize = 96 + len1u;
    while i < 96 + p1
        invariant
            96 + len1u <= i <= 96 + p1,
            128 + p1 <= n == d@.len(),
            value_be(d@.subrange(0, 32)) == 64,
            value_be(d@.subrange(32, 64)) == 96 + p1,
            len1u as nat == value_be(d@.subrange(64, 96)),
            p1 as nat == pad32(len1u as nat),
            len2u as nat == value_be(d@.subrange(96 + p1 as int, 128 + p1 as int)),
            n as nat == 128 + p1 + pad32(len2u as nat),
            len1u <= p1,
            forall|t: int| 96 + len1u <= t < i ==> d@[t] == 0u8,
        decreases 96 + p1 - i,
    {
        if d[i] != 0 {
            return Err(DecodeError::BadPayload);
        }
        i = i + 1;
    }
    let mut j: usize = 128 + p1 + len2u;
    while j < n
        invariant
            128 + p1 + len2u <= j <= n,
            128 + p1 <= n == d@.len(),
            value_be(d@.subrange(0, 32)) == 64,
            value_be(d@.subrange(32, 64)) == 96 + p1,
            len1u as nat == value_be(d@.subrange(64, 96)),
            p1 as nat == pad32(len1u as nat),
            len2u as nat == value_be(d@.subrange(96 + p1 as int, 128 + p1 as int)),
            n as nat == 128 + p1 + pad32(len2u as nat),
            len1u <= p1,
            forall|t: int| 96 + len1u <= t < 96 + p1 ==> d@[t] == 0u8,
            forall|t: int| 128 + p1 + len2u <= t < j ==> d@[t] == 0u8,
        decreases n - j,
    {
        if d[j] != 0 {
            return Err(DecodeError::BadPayload);
        }
        j = j + 1;
    }
    let s1 = vstd::slice::slice_to_vec(vstd::slice::slice_subrange(d, 96, 96 + len1u));
    let s2 = vstd::slice::slice_to_vec(
        vstd::slice::slice_subrange(d, 128 + p1, 128 + p1 + len2u),
    );
    Ok((s1, s2))
}

/// Every payload the encoder builds decodes back to exactly the strings it
/// was built from.
pub proof fn lemma_decode_encode(a: Seq<u8>, b: Seq<u8>)
    requires
        a.len() < pow256(8),
        b.len() < pow256(8),
    ensures
        spec_decode_two(spec_encode_two(a, b)) == Some((a, b)),
{
    let la = a.len();
    let lb = b.len();
    let pa = pad32(la);
    let pb = pad32(lb);
    lemma_pad32_bounds(la);
    lemma_pad32_bounds(lb);
    let w0 = bytes_be(64, 32);
    let w1 = bytes_be(96 + pa, 32);
    let w2 = bytes_be(la, 32);
    let z1 = zeros((pa - la) as nat);
    let w3 = bytes_be(lb, 32);
    let z2 = zeros((pb - lb) as nat);
    let d = spec_encode_two(a, b);
    lemma_bytes_be_len(64, 32);
    lemma_bytes_be_len(96 + pa, 32);
    lemma_bytes_be_len(la, 32);
    lemma_bytes_be_len(lb, 32);
    assert(d.len() == 128 + pa + pb);
    crate::word::lemma_pow256_le(1, 32);
    crate::word::lemma_pow256_le(9, 32);
    crate::word::lemma_pow256_le(8, 9);
    reveal_with_fuel(pow256, 2);
    assert(pow256(9) == 256 * pow256(8));
    lemma_value_bytes(64, 32);
    lemma_value_bytes(96 + pa, 32);
    lemma_value_bytes(la, 32);
    lemma_value_bytes(lb, 32);
    assert(d.subrange(0, 32) =~= w0);
    assert(d.subrange(32, 64) =~= w1);
    assert(d.subrange(64, 96) =~= w2);
    assert(d.subrange(96, 96 + la as int) =~= a);
    assert(d.subrange(96 + la as int, 96 + pa as int) =~= z1);
    assert(d.subrange(96 + pa as int, 128 + pa as int) =~= w3);
    assert(d.subrange(128 + pa as int, 128 + pa as int + lb as int) =~= b);
    assert(d.subrange(128 + pa as int + lb as int, d.len() as int) =~= z2);
    assert(value_be(d.subrange(0, 32)) == 64);
    assert(value_be(d.subrange(32, 64)) == 96 + pa);
    assert(value_be(d.subrange(64, 96)) == la);
    assert(value_be(d.subrange(96 + pa as int, 128 + pa as int)) == lb);
    assert(forall|i: int|
        96 + la <= i < 96 + pa ==> d[i] == z1[i - 96 - la as int] && d[i] == 0u8);
    assert(forall|i: int|
        128 + pa + lb <= i < d.len() ==> d[i] == z2[i - 128 - pa as int - lb as int] && d[i]
            == 0u8);
}

/// A payload that decodes is exactly the canonical encoding of what it
/// decodes to: re-encoding the extracted strings recovers the bytes.
pub proof fn lemma_encode_decode(d: Seq<u8>, a: Seq<u8>, b: Seq<u8>)
    requires
        spec_decode_two(d) == Some((a, b)),
    ensures
        d =~= spec_encode_two(a, b),
{
    let off1 = value_be(d.subrange(0, 32));
    let off2 = value_be(d.subrange(32, 64));
    let len1 = value_be(d.subrange(64, 96));
    let p1 = pad32(len1);
    let len2 = value_be(d.subrange(96 + p1 as int, 128 + p1 as int));
    let p2 = pad32(len2);
    lemma_pad32_bounds(len1);
    lemma_pad32_bounds(len2);
    assert(a == d.subrange(96, 96 + len1 as int));
    assert(b == d.subrange(128 + p1 as int, 128 + p1 as int + len2 as int));
    assert(a.len() == len1);
    assert(b.len() == len2);
    crate::word::lemma_bytes_value(d.subrange(0, 32));
    crate::word::lemma_bytes_value(d.subrange(32, 64));
    crate::word::lemma_bytes_value(d.subrange(64, 96));
    crate::word::lemma_bytes_value(d.subrange(96 + p1 as int, 128 + p1 as int));
    assert(d.subrange(0, 32) =~= bytes_be(64, 32));
    assert(d.subrange(32, 64) =~= bytes_be(96 + p1, 32));
    assert(d.subrange(64, 96) =~= bytes_be(len1, 32));
    assert(d.subrange(96 + p1 as int, 128 + p1 as int) =~= bytes_be(len2, 32));
    assert(d.subrange(96 + len1 as int, 96 + p1 as int) =~= zeros((p1 - len1) as nat));
    assert(d.subrange(128 + p1 as int + len2 as int, d.len() as int) =~= zeros(
        (p2 - len2) as nat,
    ));
    lemma_bytes_be_len(64, 32);
    lemma_bytes_be_len(96 + p1, 32);
    lemma_bytes_be_len(len1, 32);
    lemma_bytes_be_len(len2, 32);
    assert(d =~= spec_encode_two(a, b));
}

} // verus!
