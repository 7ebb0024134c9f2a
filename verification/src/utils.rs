//! Decoding a factory creation log into a `TokenCreated` event, the
//! canonical encoding in the other direction, and the round trip between
//! them; with the event-signature digest taken from the chain's hash.

use vstd::prelude::*;
use vstd::string::StringSliceAdditionalSpecFns;
use crate::abi::{
    decode_two_strings, encodable, spec_decode_two, spec_encode_two, DecodeError,
    lemma_decode_encode, lemma_encode_decode, push_bytes, push_zeros,
};
use crate::listener::TokenCreated;
use crate::types::{eq_bytes, Address, RawLog};
use crate::word::{pow256, zeros};

verus! {

/// The Keccak-256 digest that names an event signature, as a function of
/// the hashed bytes alone.
pub uninterp spec fn keccak256_of(bytes: Seq<u8>) -> Seq<u8>;

/// Relies on ethers::utils::keccak256: the Keccak-256 digest of the
/// signature string's bytes, a function of its input alone.
#[verifier::external_body]
pub fn keccak256_hex(sig: &str) -> (r: [u8; 32])
    ensures
        r@ == keccak256_of(sig.spec_bytes()),
{
    ethers::utils::keccak256(sig)
}

/// What parsing a log against the expected signature topic yields: the
/// creator and token addresses and the name and symbol strings, or the
/// error naming the first malformation.
pub open spec fn spec_parse_log(topics: Seq<Seq<u8>>, data: Seq<u8>, sig: Seq<u8>) -> Result<
    (Seq<u8>, Seq<u8>, Seq<u8>, Seq<u8>),
    DecodeError,
> {
    if topics.len() != 3 {
        Err(DecodeError::WrongTopicCount)
    } else if !(topics[0].len() == 32 && topics[1].len() == 32 && topics[2].len() == 32) {
        Err(DecodeError::WrongTopicLength)
    } else if topics[0] != sig {
        Err(DecodeError::WrongSignature)
    } else if !(forall|i: int| 0 <= i < 12 ==> topics[1][i] == 0u8 && topics[2][i] == 0u8) {
        Err(DecodeError::BadAddressPadding)
    } else {
        match spec_decode_two(data) {
            Option::None => Err(DecodeError::BadPayload),
            Option::Some(p) => Ok(
                (topics[1].subrange(12, 32), topics[2].subrange(12, 32), p.0, p.1),
            ),
        }
    }
}

/// The canonical log for an event: the signature topic, the two addresses
/// as zero-padded topic words, and the name and symbol as the payload.
pub open spec fn spec_encode_log(
    creator: Seq<u8>,
    token: Seq<u8>,
    name: Seq<u8>,
    symbol: Seq<u8>,
    sig: Seq<u8>,
) -> (Seq<Seq<u8>>, Seq<u8>) {
    (seq![sig, zeros(12) + creator, zeros(12) + token], spec_encode_two(name, symbol))
}

/// Decodes a creation log, returning the event exactly when the log is
/// canonical and the error naming its first malformation otherwise.
pub fn parse_token_created_log(log: &RawLog, sig: &[u8]) -> (r: Result<TokenCreated, DecodeError>)
    ensures
        match r {
            Ok(ev) => spec_parse_log(log.topics_view(), log.data@, sig@) == Ok::<
                _,
                DecodeError,
            >(ev.fields()) && ev.creator.wf() && ev.token.wf(),
            Err(e) => spec_parse_log(log.topics_view(), log.data@, sig@) == Err::<
                (Seq<u8>, Seq<u8>, Seq<u8>, Seq<u8>),
                _,
            >(e),
        },
{
    let ghost tv = log.topics_view();
    if log.topics.len() != 3 {
        return Err(DecodeError::WrongTopicCount);
    }
    proof {
        assert(tv.len() == 3);
        assert(tv[0] == log.topics@[0]@);
        assert(tv[1] == log.topics@[1]@);
        assert(tv[2] == log.topics@[2]@);
    }
    let t0 = &log.topics[0];
    let t1 = &log.topics[1];
    let t2 = &log.topics[2];
    if !(t0.len() == 32 && t1.len() == 32 && t2.len() == 32) {
        return Err(DecodeError::WrongTopicLength);
    }
    if !eq_bytes(t0.as_slice(), sig) {
        return Err(DecodeError::WrongSignature);
    }
    let mut i: usize = 0;
    while i < 12
        invariant
            i <= 12,
            tv == log.topics_view(),
            tv.len() == 3,
            tv[0].len() == 32,
            tv[0] == sig@,
            t1@.len() == 32,
            t2@.len() == 32,
            t1@ == tv[1],
            t2@ == tv[2],
            forall|t: int| 0 <= t < i ==> t1@[t] == 0u8 && t2@[t] == 0u8,
        decreases 12 - i,
    {
        if t1[i] != 0 || t2[i] != 0 {
            return Err(DecodeError::BadAddressPadding);
        }
        i = i + 1;
    }
    let creator = Address::new(
        vstd::slice::slice_to_vec(vstd::slice::slice_subrange(t1.as_slice(), 12, 32)),
    );
    let token = Address::new(
        vstd::slice::slice_to_vec(vstd::slice::slice_subrange(t2.as_slice(), 12, 32)),
    );
    match decode_two_strings(log.data.as_slice()) {
        Err(_) => Err(DecodeError::BadPayload),
        Ok(p) => {
            let (name, symbol) = p;
            Ok(TokenCreated { creator, token, name, symbol })
        },
    }
}

/// Builds the canonical log for an event, the inverse of
/// `parse_token_created_log`.
pub fn encode_token_created(ev: &TokenCreated, sig: &[u8]) -> (r: RawLog)
    requires
        ev.creator.wf(),
        ev.token.wf(),
        sig@.len() == 32,
        encodable(ev.name@, ev.symbol@),
    ensures
        r.topics_view() =~~= spec_encode_log(ev.creator@, ev.token@, ev.name@, ev.symbol@, sig@).0,
        r.data@ =~= spec_encode_log(ev.creator@, ev.token@, ev.name@, ev.symbol@, sig@).1,
{
    let mut topics: Vec<Vec<u8>> = Vec::new();
    let t0 = vstd::slice::slice_to_vec(sig);
    topics.push(t0);
    let mut t1: Vec<u8> = Vec::new();
    push_zeros(&mut t1, 12);
    push_bytes(&mut t1, ev.creator.bytes.as_slice());
    topics.push(t1);
    let mut t2: Vec<u8> = Vec::new();
    push_zeros(&mut t2, 12);
    push_bytes(&mut t2, ev.token.bytes.as_slice());
    topics.push(t2);
    let data = crate::abi::encode_two_strings(ev.name.as_slice(), ev.symbol.as_slice());
    let r = RawLog { topics, data };
    proof {
        assert(r.topics_view() =~~= spec_encode_log(
            ev.creator@,
            ev.token@,
            ev.name@,
            ev.symbol@,
            sig@,
        ).0);
    }
    r
}

/// Decoding and re-encoding recover the original log: a log that parses is
/// exactly the canonical encoding of the event parsed out of it.
pub proof fn lemma_log_round_trip(
    topics: Seq<Seq<u8>>,
    data: Seq<u8>,
    sig: Seq<u8>,
    ev: (Seq<u8>, Seq<u8>, Seq<u8>, Seq<u8>),
)
    requires
        spec_parse_log(topics, data, sig) == Ok::<_, DecodeError>(ev),
    ensures
        spec_encode_log(ev.0, ev.1, ev.2, ev.3, sig).0 =~~= topics,
        spec_encode_log(ev.0, ev.1, ev.2, ev.3, sig).1 =~= data,
{
    assert(zeros(12) + topics[1].subrange(12, 32) =~= topics[1]);
    assert(zeros(12) + topics[2].subrange(12, 32) =~= topics[2]);
    let p = spec_decode_two(data)->Some_0;
    lemma_encode_decode(data, p.0, p.1);
}

/// Encoding an event and parsing the log back yields the event again.
pub proof fn lemma_log_parse_encode(
    creator: Seq<u8>,
    token: Seq<u8>,
    name: Seq<u8>,
    symbol: Seq<u8>,
    sig: Seq<u8>,
)
    requires
        creator.len() == 20,
        token.len() == 20,
        sig.len() == 32,
        name.len() < pow256(8),
        symbol.len() < pow256(8),
    ensures
        spec_parse_log(
            spec_encode_log(creator, token, name, symbol, sig).0,
            spec_encode_log(creator, token, name, symbol, sig).1,
            sig,
        ) == Ok::<_, DecodeError>((creator, token, name, symbol)),
{
    let topics = spec_encode_log(creator, token, name, symbol, sig).0;
    lemma_decode_encode(name, symbol);
    assert((zeros(12) + creator).subrange(12, 32) =~= creator);
    assert((zeros(12) + token).subrange(12, 32) =~= token);
    assert(forall|i: int| 0 <= i < 12 ==> topics[1][i] == 0u8 && topics[2][i] == 0u8);
}

} // verus!
