//! Domain values carried between the pipeline stages, modelled as plain
//! bytes: a 20-byte account address, a 32-byte transaction hash, a raw
//! chain log, and the events the stages exchange.

use vstd::prelude::*;

verus! {

/// A 20-byte account address.
#[derive(Debug, Clone, PartialEq, Eq, Hash)]
pub struct Address {
    pub bytes: Vec<u8>,
}

impl View for Address {
    type V = Seq<u8>;

    open spec fn view(&self) -> Seq<u8> {
        self.bytes@
    }
}

impl Address {
    /// A well-formed address holds exactly 20 bytes.
    pub open spec fn wf(&self) -> bool {
        self.bytes@.len() == 20
    }

    pub fn new(bytes: Vec<u8>) -> (r: Address)
        requires
            bytes@.len() == 20,
        ensures
            r@ == bytes@,
            r.wf(),
    {
        Address { bytes }
    }

    /// A copy with the same bytes.
    pub fn duplicate(&self) -> (r: Address)
        ensures
            r@ == self@,
            self.wf() ==> r.wf(),
    {
        let mut out: Vec<u8> = Vec::new();
        let n = self.bytes.len();
        let mut i: usize = 0;
        while i < n
            invariant
                i <= n,
                n == self.bytes@.len(),
                out@ =~= self.bytes@.subrange(0, i as int),
            decreases n - i,
        {
            out.push(self.bytes[i]);
            proof {
                assert(self.bytes@.subrange(0, i as int).push(self.bytes@[i as int])
                    =~= self.bytes@.subrange(0, i + 1));
            }
            i = i + 1;
        }
        proof {
            assert(self.bytes@.subrange(0, n as int) =~= self.bytes@);
        }
        Address { bytes: out }
    }
}

/// Byte-for-byte slice equality.
pub fn eq_bytes(a: &[u8], b: &[u8]) -> (r: bool)
    ensures
        r <==> a@ =~= b@,
{
    let na = a.len();
    let nb = b.len();
    if na != nb {
        return false;
    }
    let mut i: usize = 0;
    while i < na
        invariant
            i <= na,
            na == a@.len(),
            na == b@.len(),
            forall|t: int| 0 <= t < i ==> a@[t] == b@[t],
        decreases na - i,
    {
        if a[i] != b[i] {
            return false;
        }
        i = i + 1;
    }
    true
}

/// Address equality by bytes.
pub fn eq_address(a: &Address, b: &Address) -> (r: bool)
    ensures
        r <==> a@ =~= b@,
{
    eq_bytes(a.bytes.as_slice(), b.bytes.as_slice())
}

/// Relies on String::from_utf8: returns a string exactly on valid UTF-8
/// input, carrying those very bytes.
#[verifier::external_body]
fn string_from_utf8(b: Vec<u8>) -> (r: Option<String>)
    ensures
        r is Some <==> vstd::utf8::valid_utf8(b@),
        r is Some ==> r->0@ == vstd::utf8::decode_utf8(b@),
{
    String::from_utf8(b).ok()
}

/// The ticker a decoded symbol yields: its characters for valid UTF-8,
/// and the empty string otherwise.
pub open spec fn spec_ticker(bytes: Seq<u8>) -> Seq<char> {
    if vstd::utf8::valid_utf8(bytes) {
        vstd::utf8::decode_utf8(bytes)
    } else {
        Seq::empty()
    }
}

/// Turns decoded symbol bytes into the displayable ticker.
pub fn ticker_string(b: Vec<u8>) -> (r: String)
    ensures
        r@ == spec_ticker(b@),
{
    match string_from_utf8(b) {
        Some(s) => s,
        None => String::new(),
    }
}

/// A raw chain log: the indexed topic words and the data payload.
#[derive(Debug, Clone)]
pub struct RawLog {
    pub topics: Vec<Vec<u8>>,
    pub data: Vec<u8>,
}

impl RawLog {
    /// The topic words as byte strings.
    pub open spec fn topics_view(&self) -> Seq<Seq<u8>> {
        self.topics@.map_values(|t: Vec<u8>| t@)
    }
}

/// A token-creation event delivered to the trader, in the shape the
/// original queue carries.
#[derive(Debug, Clone)]
pub struct TokenEvent {
    pub contract: Address,
    pub ticker: String,
    pub creator: Option<Address>,
    pub tx_hash: Option<Vec<u8>>,
    /// The configured purchase size, in the token's base units.
    pub buy_amount: u128,
}

/// The trader's confirmation that a token was bought.
#[derive(Debug, Clone)]
pub struct BoughtEvent {
    pub token: Address,
}

/// An event on one of the pipeline queues.
#[derive(Debug, Clone)]
pub enum BotEvent {
    TokenCreated(TokenEvent),
    SellRequest { token_address: Address },
}

} // verus!
