//! The pipeline's configuration: the subscription endpoint, the factory
//! contract address, and the optional signing key. The values come from
//! the environment at the edge of the process; validating an address
//! string is done here.

use vstd::prelude::*;
use vstd::string::StringSliceAdditionalSpecFns;
use crate::types::Address;

verus! {

/// The pipeline's configuration, validated at startup.
#[derive(Debug, Clone)]
pub struct Config {
    pub wss_url: String,
    pub factory_address: Address,
    pub private_key: Option<String>,
}

/// An ASCII hexadecimal digit.
pub open spec fn is_hex_digit(b: u8) -> bool {
    (48 <= b <= 57) || (97 <= b <= 102) || (65 <= b <= 70)
}

/// The value of a hexadecimal digit.
pub open spec fn hex_val(b: u8) -> nat {
    if 48 <= b <= 57 {
        (b - 48) as nat
    } else if 97 <= b <= 102 {
        (b - 87) as nat
    } else if 65 <= b <= 70 {
        (b - 55) as nat
    } else {
        0
    }
}

/// The address a 0x-prefixed 40-digit hexadecimal string denotes, or None
/// where the string is not one.
pub open spec fn spec_parse_address(s: Seq<u8>) -> Option<Seq<u8>> {
    if s.len() == 42 && s[0] == 48u8 && s[1] == 120u8 && (forall|i: int|
        2 <= i < 42 ==> is_hex_digit(#[trigger] s[i])) {
        Some(Seq::new(20, |i: int| (hex_val(s[2 + 2 * i]) * 16 + hex_val(s[3 + 2 * i])) as u8))
    } else {
        None
    }
}

/// The value of one hexadecimal digit byte.
fn hex_digit_val(b: u8) -> (r: Option<u8>)
    ensures
        r is Some <==> is_hex_digit(b),
        r is Some ==> r->0 as nat == hex_val(b),
{
    if 48 <= b && b <= 57 {
        Some(b - 48)
    } else if 97 <= b && b <= 102 {
        Some(b - 87)
    } else if 65 <= b && b <= 70 {
        Some(b - 55)
    } else {
        None
    }
}

/// Parses a 0x-prefixed hexadecimal account address, as configuration and
/// operator input write them.
pub fn parse_address(s: &str) -> (r: Option<Address>)
    ensures
        match r {
            Some(a) => spec_parse_address(s.spec_bytes()) == Some(a@) && a.wf(),
            None => spec_parse_address(s.spec_bytes()) is None,
        },
{
    let bs = s.as_bytes();
    if bs.len() != 42 {
        return None;
    }
    if bs[0] != 48 || bs[1] != 120 {
        return None;
    }
    let mut out: Vec<u8> = Vec::new();
    let mut i: usize = 0;
    while i < 20
        invariant
            i <= 20,
            bs@ == s.spec_bytes(),
            bs@.len() == 42,
            bs@[0] == 48u8,
            bs@[1] == 120u8,
            out@.len() == i,
            forall|u: int| 2 <= u < 2 + 2 * i ==> is_hex_digit(#[trigger] bs@[u]),
            forall|t: int|
                0 <= t < i ==> (#[trigger] out@[t]) as nat == hex_val(bs@[2 + 2 * t]) * 16
                    + hex_val(bs@[3 + 2 * t]),
        decreases 20 - i,
    {
        let hi = match hex_digit_val(bs[2 + 2 * i]) {
            None => {
                proof {
                    assert(!is_hex_digit(bs@[2 + 2 * i as int]));
                }
                return None;
            },
            Some(v) => v,
        };
        let lo = match hex_digit_val(bs[3 + 2 * i]) {
            None => {
                proof {
                    assert(!is_hex_digit(bs@[3 + 2 * i as int]));
                }
                return None;
            },
            Some(v) => v,
        };
        let ghost before = out@;
        out.push(hi * 16 + lo);
        proof {
            assert forall|t: int|
                0 <= t < i + 1 implies (#[trigger] out@[t]) as nat == hex_val(bs@[2 + 2 * t]) * 16
                    + hex_val(bs@[3 + 2 * t]) by {
                if t < i {
                    assert(out@[t] == before[t]);
                } else {
                    assert(out@[t] == hi * 16 + lo);
                }
            }
        }
        i = i + 1;
    }
    proof {
        let expected = spec_parse_address(s.spec_bytes())->Some_0;
        assert forall|t: int| 0 <= t < 20 implies out@[t] == expected[t] by {
            assert(is_hex_digit(bs@[2 + 2 * t]));
            assert(is_hex_digit(bs@[3 + 2 * t]));
            assert(out@[t] as nat == hex_val(bs@[2 + 2 * t]) * 16 + hex_val(bs@[3 + 2 * t]));
        }
        assert(out@ =~= expected);
    }
    Some(Address::new(out))
}

} // verus!
