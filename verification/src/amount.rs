//! Converting a human-entered decimal quantity into the token's base
//! units: multiply by ten to the token's decimals and truncate, in integer
//! arithmetic throughout, so the conversion never rounds up and never
//! loses precision to floating point.

use vstd::prelude::*;
use vstd::string::StringSliceAdditionalSpecFns;
use vstd::arithmetic::div_mod::lemma_fundamental_div_mod;

verus! {

/// An ASCII decimal digit.
pub open spec fn is_digit(b: u8) -> bool {
    48 <= b <= 57
}

/// Every byte a digit.
pub open spec fn all_digits(s: Seq<u8>) -> bool {
    forall|i: int| 0 <= i < s.len() ==> is_digit(#[trigger] s[i])
}

/// The number a digit string denotes.
pub open spec fn digits_value(s: Seq<u8>) -> nat
    decreases s.len(),
{
    if s.len() == 0 {
        0
    } else {
        (digits_value(s.drop_last()) * 10 + (s.last() - 48)) as nat
    }
}

/// Ten to the power k.
pub open spec fn pow10(k: nat) -> nat
    decreases k,
{
    if k == 0 {
        1
    } else {
        10 * pow10((k - 1) as nat)
    }
}

/// Position i splits the string into an integer part, one dot, and a
/// fraction part, both parts all digits and at least one digit present.
pub open spec fn dot_split_ok(s: Seq<u8>, i: int) -> bool {
    0 <= i < s.len() && s.len() >= 2 && s[i] == 46u8 && all_digits(s.take(i)) && all_digits(
        s.skip(i + 1),
    )
}

/// The base-unit value of a dotted string split at i, truncating the
/// fraction beyond d digits.
pub open spec fn dotted_value(s: Seq<u8>, i: int, d: nat) -> nat {
    let ip = s.take(i);
    let fp = s.skip(i + 1);
    let fl = if fp.len() <= d {
        fp.len()
    } else {
        d
    };
    digits_value(ip) * pow10(d) + digits_value(fp.take(fl as int)) * pow10((d - fl) as nat)
}

/// The base-unit value a decimal string denotes with d decimals, or None
/// where the string is not a decimal number.
pub open spec fn spec_base_units(s: Seq<u8>, d: nat) -> Option<nat> {
    if s.len() > 0 && all_digits(s) {
        Some(digits_value(s) * pow10(d))
    } else if exists|i: int| dot_split_ok(s, i) {
        Some(dotted_value(s, choose|i: int| dot_split_ok(s, i), d))
    } else {
        None
    }
}

pub proof fn lemma_pow10_pos(k: nat)
    ensures
        pow10(k) >= 1,
    decreases k,
{
    if k > 0 {
        lemma_pow10_pos((k - 1) as nat);
    }
}

pub proof fn lemma_pow10_le(a: nat, b: nat)
    requires
        a <= b,
    ensures
        pow10(a) <= pow10(b),
    decreases b,
{
    if a < b {
        lemma_pow10_le(a, (b - 1) as nat);
        lemma_pow10_pos((b - 1) as nat);
        assert(10 * pow10((b - 1) as nat) >= 1 * pow10((b - 1) as nat)) by (nonlinear_arith)
            requires
                pow10((b - 1) as nat) >= 1,
        ;
    }
}

/// A digit string is worth at least any of its prefixes.
pub proof fn lemma_digits_prefix_le(s: Seq<u8>, j: int)
    requires
        0 <= j <= s.len(),
        all_digits(s),
    ensures
        digits_value(s.take(j)) <= digits_value(s),
    decreases s.len(),
{
    if j < s.len() {
        assert(s.drop_last().take(j) =~= s.take(j));
        assert(all_digits(s.drop_last()));
        lemma_digits_prefix_le(s.drop_last(), j);
        let dv = digits_value(s.drop_last());
        assert(dv * 10 >= dv) by (nonlinear_arith)
            requires
                dv >= 0,
        ;
    } else {
        assert(s.take(j) =~= s);
    }
}

/// Reads the digit run bs[from..to] as a number, or reports that it is
/// too large for 128 bits.
fn parse_digits(bs: &[u8], from: usize, to: usize) -> (r: Option<u128>)
    requires
        from <= to <= bs@.len(),
        forall|t: int| from <= t < to ==> is_digit(#[trigger] bs@[t]),
    ensures
        match r {
            Some(v) => v as nat == digits_value(bs@.subrange(from as int, to as int)),
            None => digits_value(bs@.subrange(from as int, to as int)) > u128::MAX,
        },
{
    let ghost seg = bs@.subrange(from as int, to as int);
    let mut acc: u128 = 0;
    let mut i: usize = from;
    while i < to
        invariant
            from <= i <= to <= bs@.len(),
            seg =~= bs@.subrange(from as int, to as int),
            forall|t: int| from <= t < to ==> is_digit(#[trigger] bs@[t]),
            acc as nat == digits_value(bs@.subrange(from as int, i as int)),
        decreases to - i,
    {
        let dig = bs[i] - 48;
        if acc > (u128::MAX - dig as u128) / 10 {
            proof {
                let pre = bs@.subrange(from as int, i + 1);
                assert(pre.drop_last() =~= bs@.subrange(from as int, i as int));
                assert(pre.last() == bs@[i as int]);
                let m = u128::MAX - dig;
                lemma_fundamental_div_mod(m as int, 10);
                assert(acc as nat * 10 + dig > u128::MAX) by (nonlinear_arith)
                    requires
                        acc as nat >= (m as nat) / 10 + 1,
                        m as nat == 10 * ((m as nat) / 10) + (m as nat) % 10,
                        (m as nat) % 10 < 10,
                        u128::MAX == m as nat + dig,
                ;
                assert(digits_value(pre) > u128::MAX);
                assert(all_digits(seg));
                lemma_digits_prefix_le(seg, i + 1 - from);
                assert(seg.take(i + 1 - from) =~= pre);
            }
            return None;
        }
        proof {
            let m = u128::MAX - dig;
            lemma_fundamental_div_mod(m as int, 10);
            assert(acc as nat * 10 + dig <= u128::MAX) by (nonlinear_arith)
                requires
                    acc as nat <= (m as nat) / 10,
                    m as nat == 10 * ((m as nat) / 10) + (m as nat) % 10,
                    0 <= (m as nat) % 10,
                    u128::MAX == m as nat + dig,
            ;
            let pre = bs@.subrange(from as int, i + 1);
            assert(pre.drop_last() =~= bs@.subrange(from as int, i as int));
            assert(pre.last() == bs@[i as int]);
        }
        acc = acc * 10 + dig as u128;
        i = i + 1;
    }
    Some(acc)
}

/// Ten to the power k where it fits in 128 bits.
fn pow10_exec(k: u32) -> (r: Option<u128>)
    ensures
        match r {
            Some(v) => v as nat == pow10(k as nat),
            None => pow10(k as nat) > u128::MAX,
        },
{
    let mut acc: u128 = 1;
    let mut i: u32 = 0;
    while i < k
        invariant
            i <= k,
            acc as nat == pow10(i as nat),
        decreases k - i,
    {
        if acc > u128::MAX / 10 {
            proof {
                lemma_fundamental_div_mod(u128::MAX as int, 10);
                assert(10 * acc as nat > u128::MAX) by (nonlinear_arith)
                    requires
                        acc as nat >= (u128::MAX as nat) / 10 + 1,
                        u128::MAX as nat == 10 * ((u128::MAX as nat) / 10) + (u128::MAX as nat)
                            % 10,
                        (u128::MAX as nat) % 10 < 10,
                ;
                lemma_pow10_le((i + 1) as nat, k as nat);
            }
            return None;
        }
        proof {
            lemma_fundamental_div_mod(u128::MAX as int, 10);
            assert(10 * acc as nat <= u128::MAX) by (nonlinear_arith)
                requires
                    acc as nat <= (u128::MAX as nat) / 10,
                    u128::MAX as nat == 10 * ((u128::MAX as nat) / 10) + (u128::MAX as nat) % 10,
                    0 <= (u128::MAX as nat) % 10,
            ;
        }
        acc = acc * 10;
        i = i + 1;
    }
    Some(acc)
}

/// a * b where it fits in 128 bits; None exactly on overflow.
fn mul_checked(a: u128, b: u128) -> (r: Option<u128>)
    ensures
        match r {
            Some(v) => v as nat == a as nat * b as nat,
            None => a as nat * b as nat > u128::MAX,
        },
{
    if a == 0 {
        proof {
            assert(0nat * b as nat == 0) by (nonlinear_arith);
        }
        return Some(0);
    }
    if b > u128::MAX / a {
        proof {
            lemma_fundamental_div_mod(u128::MAX as int, a as int);
            assert(a as nat * b as nat > u128::MAX) by (nonlinear_arith)
                requires
                    a as nat >= 1,
                    b as nat >= (u128::MAX as nat) / (a as nat) + 1,
                    u128::MAX as nat == (a as nat) * ((u128::MAX as nat) / (a as nat)) + (
                    u128::MAX as nat) % (a as nat),
                    (u128::MAX as nat) % (a as nat) < a as nat,
            ;
        }
        return None;
    }
    proof {
        lemma_fundamental_div_mod(u128::MAX as int, a as int);
        assert(a as nat * b as nat <= u128::MAX) by (nonlinear_arith)
            requires
                a as nat >= 1,
                b as nat <= (u128::MAX as nat) / (a as nat),
                u128::MAX as nat == (a as nat) * ((u128::MAX as nat) / (a as nat)) + (
                u128::MAX as nat) % (a as nat),
                0 <= (u128::MAX as nat) % (a as nat),
        ;
    }
    Some(a * b)
}

/// Converts a decimal quantity string to base units with d decimals:
/// the value times ten to the d, truncated, in integer arithmetic. None
/// exactly where the string is not a decimal number or the result does
/// not fit in 128 bits.
pub fn to_base_units(s: &str, decimals: u8) -> (r: Option<u128>)
    ensures
        match spec_base_units(s.spec_bytes(), decimals as nat) {
            Some(n) => if n <= u128::MAX {
                r == Some(n as u128)
            } else {
                r is None
            },
            None => r is None,
        },
{
    let bs = s.as_bytes();
    let n = bs.len();
    let mut dot: Option<usize> = None;
    let mut i: usize = 0;
    while i < n
        invariant
            i <= n,
            n == bs@.len(),
            bs@ == s.spec_bytes(),
            match dot {
                Some(p) => p < i && bs@[p as int] == 46u8 && forall|t: int|
                    0 <= t < i && t != p ==> is_digit(#[trigger] bs@[t]),
                None => forall|t: int| 0 <= t < i ==> is_digit(#[trigger] bs@[t]),
            },
        decreases n - i,
    {
        let b = bs[i];
        if b == 46 {
            match dot {
                Some(p) => {
                    proof {
                        assert(!is_digit(bs@[p as int]));
                        assert(!all_digits(bs@));
                        assert forall|j: int| !dot_split_ok(bs@, j) by {
                            if dot_split_ok(bs@, j) {
                                let q: int = if j == p as int {
                                    i as int
                                } else {
                                    p as int
                                };
                                assert(bs@[q] == 46u8);
                                if q < j {
                                    assert(bs@.take(j)[q] == bs@[q]);
                                } else {
                                    assert(bs@.skip(j + 1)[q - j - 1] == bs@[q]);
                                }
                            }
                        }
                        lemma_no_parse(bs@, decimals as nat);
                    }
                    return None;
                },
                None => {
                    dot = Some(i);
                },
            }
        } else if b < 48 || b > 57 {
            proof {
                lemma_no_parse_bad_byte(bs@, i as int, decimals as nat);
            }
            return None;
        }
        i = i + 1;
    }
    match dot {
        None => {
            if n == 0 {
                return None;
            }
            proof {
                assert(bs@.subrange(0, n as int) =~= bs@);
            }
            let v = match parse_digits(bs, 0, n) {
                None => {
                    proof {
                        lemma_whole_overflow(bs@, decimals as nat);
                    }
                    return None;
                },
                Some(v) => v,
            };
            let p = match pow10_exec(decimals as u32) {
                None => {
                    if v == 0 {
                        proof {
                            assert(0nat * pow10(decimals as nat) == 0) by (nonlinear_arith);
                        }
                        return Some(0);
                    }
                    proof {
                        lemma_pow10_pos(decimals as nat);
                        assert(digits_value(bs@) * pow10(decimals as nat) >= 1nat * pow10(
                            decimals as nat,
                        )) by (nonlinear_arith)
                            requires
                                digits_value(bs@) >= 1,
                                pow10(decimals as nat) >= 1,
                        ;
                    }
                    return None;
                },
                Some(p) => p,
            };
            mul_checked(v, p)
        },
        Some(p) => {
            if n < 2 {
                proof {
                    lemma_no_parse(bs@, decimals as nat);
                }
                return None;
            }
            proof {
                assert(dot_split_ok(bs@, p as int));
                lemma_dot_unique(bs@, p as int);
            }
            let fp_len = n - (p + 1);
            let d = decimals as usize;
            let fl = if fp_len <= d {
                fp_len
            } else {
                d
            };
            let ghost ips = bs@.take(p as int);
            let ghost fps = bs@.skip(p as int + 1);
            proof {
                assert(ips =~= bs@.subrange(0, p as int));
                assert(fps.take(fl as int) =~= bs@.subrange(p as int + 1, p as int + 1 + fl));
            }
            let iv = match parse_digits(bs, 0, p) {
                None => {
                    proof {
                        lemma_dotted_overflow_int(bs@, p as int, decimals as nat);
                    }
                    return None;
                },
                Some(v) => v,
            };
            let fv = match parse_digits(bs, p + 1, p + 1 + fl) {
                None => {
                    proof {
                        lemma_dotted_overflow_frac(bs@, p as int, fl as nat, decimals as nat);
                    }
                    return None;
                },
                Some(v) => v,
            };
            let hi = match pow10_exec(decimals as u32) {
                None => {
                    if iv > 0 {
                        proof {
                            lemma_term_large(iv as nat, decimals as nat);
                        }
                        return None;
                    }
                    let lo = match pow10_exec((d - fl) as u32) {
                        None => {
                            if fv > 0 {
                                proof {
                                    lemma_term_large(fv as nat, (d - fl) as nat);
                                }
                                return None;
                            }
                            proof {
                                lemma_zero_terms(iv as nat, fv as nat, decimals as nat, (d
                                    - fl) as nat);
                            }
                            return Some(0);
                        },
                        Some(lo) => lo,
                    };
                    proof {
                        assert(0nat * pow10(decimals as nat) == 0) by (nonlinear_arith);
                    }
                    return mul_checked(fv, lo);
                },
                Some(hi) => hi,
            };
            let lo = match pow10_exec((d - fl) as u32) {
                None => {
                    if fv > 0 {
                        proof {
                            lemma_term_large(fv as nat, (d - fl) as nat);
                        }
                        return None;
                    }
                    proof {
                        assert(0nat * pow10((d - fl) as nat) == 0) by (nonlinear_arith);
                    }
                    return mul_checked(iv, hi);
                },
                Some(lo) => lo,
            };
            let t1 = match mul_checked(iv, hi) {
                None => {
                    return None;
                },
                Some(v) => v,
            };
            let t2 = match mul_checked(fv, lo) {
                None => {
                    return None;
                },
                Some(v) => v,
            };
            if t1 > u128::MAX - t2 {
                return None;
            }
            Some(t1 + t2)
        },
    }
}

/// A string with no valid split parses to nothing.
proof fn lemma_no_parse(s: Seq<u8>, d: nat)
    requires
        !(s.len() > 0 && all_digits(s)),
        forall|i: int| !dot_split_ok(s, i),
    ensures
        spec_base_units(s, d) is None,
{
}

/// A byte that is neither a digit nor the single dot rules every branch
/// out.
proof fn lemma_no_parse_bad_byte(s: Seq<u8>, i: int, d: nat)
    requires
        0 <= i < s.len(),
        s[i] != 46u8,
        !is_digit(s[i]),
    ensures
        spec_base_units(s, d) is None,
{
    assert(!all_digits(s));
    assert forall|j: int| !dot_split_ok(s, j) by {
        if dot_split_ok(s, j) {
            if i < j {
                assert(s.take(j)[i] == s[i]);
            } else if i > j {
                assert(s.skip(j + 1)[i - j - 1] == s[i]);
            }
        }
    }
}

/// The dot position of a valid split is unique.
proof fn lemma_dot_unique(s: Seq<u8>, p: int)
    requires
        dot_split_ok(s, p),
    ensures
        forall|j: int| dot_split_ok(s, j) ==> j == p,
{
    assert forall|j: int| dot_split_ok(s, j) implies j == p by {
        if j < p {
            assert(s.take(p)[j] == s[j]);
        } else if j > p {
            assert(s.skip(p + 1)[j - p - 1] == s[j]);
        }
    }
}

proof fn lemma_whole_overflow(s: Seq<u8>, d: nat)
    requires
        digits_value(s) > u128::MAX,
    ensures
        digits_value(s) * pow10(d) > u128::MAX,
{
    lemma_pow10_pos(d);
    assert(digits_value(s) * pow10(d) >= digits_value(s) * 1) by (nonlinear_arith)
        requires
            pow10(d) >= 1,
            digits_value(s) >= 0,
    ;
}

proof fn lemma_term_large(v: nat, k: nat)
    requires
        v >= 1,
        pow10(k) > u128::MAX,
    ensures
        v * pow10(k) > u128::MAX,
{
    assert(v * pow10(k) >= 1nat * pow10(k)) by (nonlinear_arith)
        requires
            v >= 1,
            pow10(k) >= 0,
    ;
}

proof fn lemma_zero_terms(a: nat, b: nat, k1: nat, k2: nat)
    requires
        a == 0,
        b == 0,
    ensures
        a * pow10(k1) + b * pow10(k2) == 0,
{
    assert(0nat * pow10(k1) == 0) by (nonlinear_arith);
    assert(0nat * pow10(k2) == 0) by (nonlinear_arith);
}

proof fn lemma_dotted_overflow_int(s: Seq<u8>, p: int, d: nat)
    requires
        dot_split_ok(s, p),
        digits_value(s.subrange(0, p)) > u128::MAX,
    ensures
        dotted_value(s, p, d) > u128::MAX,
{
    assert(s.take(p) =~= s.subrange(0, p));
    lemma_pow10_pos(d);
    let iv = digits_value(s.take(p));
    assert(iv * pow10(d) >= iv * 1) by (nonlinear_arith)
        requires
            pow10(d) >= 1,
            iv >= 0,
    ;
}

proof fn lemma_dotted_overflow_frac(s: Seq<u8>, p: int, fl: nat, d: nat)
    requires
        dot_split_ok(s, p),
        fl == if s.skip(p + 1).len() <= d {
            s.skip(p + 1).len()
        } else {
            d
        },
        digits_value(s.subrange(p + 1, p + 1 + fl)) > u128::MAX,
    ensures
        dotted_value(s, p, d) > u128::MAX,
{
    assert(s.skip(p + 1).take(fl as int) =~= s.subrange(p + 1, p + 1 + fl));
    lemma_pow10_pos((d - fl) as nat);
    let fv = digits_value(s.skip(p + 1).take(fl as int));
    assert(fv * pow10((d - fl) as nat) >= fv * 1) by (nonlinear_arith)
        requires
            pow10((d - fl) as nat) >= 1,
            fv >= 0,
    ;
}

} // verus!
