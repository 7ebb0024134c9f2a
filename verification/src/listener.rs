//! The listener stage: turning the raw logs delivered by the chain
//! subscription into typed creation events, skipping whatever does not
//! decode, so that one malformed log never stops the stage.

use vstd::prelude::*;
use crate::types::RawLog;
use crate::types::Address;
use crate::utils::{parse_token_created_log, spec_parse_log};

verus! {

/// A decoded token-creation event.
#[derive(Debug, Clone, PartialEq, Eq)]
pub struct TokenCreated {
    pub creator: Address,
    pub token: Address,
    pub name: Vec<u8>,
    pub symbol: Vec<u8>,
}

impl TokenCreated {
    /// The four decoded fields as byte strings.
    pub open spec fn fields(&self) -> (Seq<u8>, Seq<u8>, Seq<u8>, Seq<u8>) {
        (self.creator@, self.token@, self.name@, self.symbol@)
    }
}

/// Shapes a decoded event into the queue item the trader consumes, with
/// the configured purchase size attached.
pub fn to_token_event(ev: TokenCreated, buy_amount: u128) -> (r: crate::types::TokenEvent)
    ensures
        r.contract@ == ev.token@,
        r.ticker@ == crate::types::spec_ticker(ev.symbol@),
        r.creator matches Some(c) && c@ == ev.creator@,
        r.tx_hash is None,
        r.buy_amount == buy_amount,
{
    crate::types::TokenEvent {
        contract: ev.token,
        ticker: crate::types::ticker_string(ev.symbol),
        creator: Some(ev.creator),
        tx_hash: None,
        buy_amount,
    }
}

/// The events that decoding a batch of logs yields, in delivery order,
/// with the logs that do not decode left out.
pub open spec fn spec_decoded(logs: Seq<RawLog>, sig: Seq<u8>) -> Seq<
    (Seq<u8>, Seq<u8>, Seq<u8>, Seq<u8>),
>
    decreases logs.len(),
{
    if logs.len() == 0 {
        Seq::empty()
    } else {
        spec_decoded(logs.drop_last(), sig) + (match spec_parse_log(
            logs.last().topics_view(),
            logs.last().data@,
            sig,
        ) {
            Ok(ev) => seq![ev],
            Err(_) => Seq::empty(),
        })
    }
}

/// Decodes every log in the batch, skipping the malformed ones: decoding
/// never fails the whole batch, and every well-formed log is kept in
/// delivery order.
pub fn process_logs(logs: &Vec<RawLog>, sig: &[u8]) -> (r: Vec<TokenCreated>)
    ensures
        r@.map_values(|e: TokenCreated| e.fields()) =~= spec_decoded(logs@, sig@),
{
    let n = logs.len();
    let mut out: Vec<TokenCreated> = Vec::new();
    let mut i: usize = 0;
    while i < n
        invariant
            i <= n,
            n == logs@.len(),
            out@.map_values(|e: TokenCreated| e.fields()) =~= spec_decoded(
                logs@.subrange(0, i as int),
                sig@,
            ),
        decreases n - i,
    {
        proof {
            assert(logs@.subrange(0, i + 1).drop_last() =~= logs@.subrange(0, i as int));
            assert(logs@.subrange(0, i + 1).last() == logs@[i as int]);
        }
        match parse_token_created_log(&logs[i], sig) {
            Ok(ev) => {
                let ghost before = out@;
                out.push(ev);
                proof {
                    assert(out@.map_values(|e: TokenCreated| e.fields()) =~= before.map_values(
                        |e: TokenCreated| e.fields(),
                    ).push(out@.last().fields()));
                }
            },
            Err(_) => {
            },
        }
        i = i + 1;
    }
    proof {
        assert(logs@.subrange(0, n as int) =~= logs@);
    }
    out
}

} // verus!
