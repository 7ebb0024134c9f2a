//! The trader stage: reacting to creation events with a buy, and handing
//! the seller a request only for a buy that was confirmed. A failed buy is
//! dropped: nothing was acquired, so nothing is ever sold for it.

use vstd::prelude::*;
use crate::types::{Address, BotEvent};

verus! {

/// The operator-configured sizing policy for a buy.
#[derive(Debug, Clone, Copy)]
pub enum BuyMode {
    /// Buy an exact token quantity, spending at most `max_funds`.
    ExactAmount { amount: u128, max_funds: u128 },
    /// Spend exactly `funds`, requiring at least `min_amount` tokens back.
    ExactSpend { funds: u128, min_amount: u128 },
}

/// A buy transaction's outcome after confirmation.
#[derive(Debug, Clone)]
pub struct BuyOutcome {
    pub token: Address,
    pub tx_hash: Vec<u8>,
    pub amount_bought: u128,
    pub success: bool,
}

/// A set of token addresses: the per-token approval cache, so that a max
/// allowance is granted once and never re-submitted, and the in-flight
/// set that keeps duplicate creation events from racing with themselves.
#[derive(Debug)]
pub struct TokenSet {
    pub items: Vec<Address>,
}

impl TokenSet {
    /// Whether the set holds the address with these bytes.
    pub open spec fn has(&self, t: Seq<u8>) -> bool {
        exists|i: int| 0 <= i < self.items@.len() && (#[trigger] self.items@[i])@ == t
    }

    /// An empty set.
    pub fn new() -> (r: TokenSet)
        ensures
            forall|t: Seq<u8>| !r.has(t),
    {
        TokenSet { items: Vec::new() }
    }

    /// Membership by address bytes.
    pub fn contains(&self, a: &Address) -> (r: bool)
        ensures
            r <==> self.has(a@),
    {
        let n = self.items.len();
        let mut i: usize = 0;
        while i < n
            invariant
                i <= n,
                n == self.items@.len(),
                forall|t: int| 0 <= t < i ==> (#[trigger] self.items@[t])@ != a@,
            decreases n - i,
        {
            if crate::types::eq_address(&self.items[i], a) {
                return true;
            }
            i = i + 1;
        }
        false
    }

    /// Adds an address; everything already held stays held.
    pub fn insert(&mut self, a: Address)
        ensures
            final(self).has(a@),
            forall|t: Seq<u8>| old(self).has(t) ==> final(self).has(t),
            forall|t: Seq<u8>| final(self).has(t) ==> old(self).has(t) || t == a@,
    {
        let ghost before = self.items@;
        self.items.push(a);
        proof {
            assert(self.items@.last()@ == self.items@[self.items@.len() - 1]@);
            assert forall|t: Seq<u8>| old(self).has(t) implies final(self).has(t) by {
                let i = choose|i: int| 0 <= i < before.len() && (#[trigger] before[i])@ == t;
                assert(self.items@[i]@ == t);
            }
        }
    }
}

/// Whether a queued event is a sell request.
pub open spec fn is_sell_request(e: BotEvent) -> bool {
    e matches BotEvent::SellRequest { token_address }
}

/// The token a queued event asks to sell, where it is a sell request.
pub open spec fn sell_token(e: BotEvent) -> Seq<u8> {
    match e {
        BotEvent::SellRequest { token_address } => token_address@,
        _ => Seq::empty(),
    }
}

/// The sell stream a run of buy outcomes owes: one request per confirmed
/// buy, in order, and nothing for a failed one.
pub open spec fn spec_sells(outcomes: Seq<BuyOutcome>) -> Seq<Seq<u8>>
    decreases outcomes.len(),
{
    if outcomes.len() == 0 {
        Seq::empty()
    } else {
        spec_sells(outcomes.drop_last()) + (if outcomes.last().success {
            seq![outcomes.last().token@]
        } else {
            Seq::empty()
        })
    }
}

/// Emits the sell request a confirmed buy owes, and nothing otherwise.
pub fn trader_step(outcome: &BuyOutcome) -> (r: Option<BotEvent>)
    ensures
        outcome.success <==> r is Some,
        outcome.success ==> (r matches Some(BotEvent::SellRequest { token_address })
            && token_address@ == outcome.token@),
{
    if outcome.success {
        Some(BotEvent::SellRequest { token_address: outcome.token.duplicate() })
    } else {
        None
    }
}

/// Turns a stream of buy outcomes into the sell requests they owe: exactly
/// the confirmed buys, in order.
pub fn run_trader(outcomes: &Vec<BuyOutcome>) -> (r: Vec<BotEvent>)
    ensures
        r@.map_values(|e: BotEvent| sell_token(e)) =~= spec_sells(outcomes@),
        forall|i: int| 0 <= i < r@.len() ==> is_sell_request(#[trigger] r@[i]),
{
    let n = outcomes.len();
    let mut out: Vec<BotEvent> = Vec::new();
    let mut i: usize = 0;
    while i < n
        invariant
            i <= n,
            n == outcomes@.len(),
            out@.map_values(|e: BotEvent| sell_token(e)) =~= spec_sells(
                outcomes@.subrange(0, i as int),
            ),
            forall|t: int| 0 <= t < out@.len() ==> is_sell_request(#[trigger] out@[t]),
        decreases n - i,
    {
        proof {
            assert(outcomes@.subrange(0, i + 1).drop_last() =~= outcomes@.subrange(0, i as int));
            assert(outcomes@.subrange(0, i + 1).last() == outcomes@[i as int]);
        }
        let ghost before = out@;
        match trader_step(&outcomes[i]) {
            Some(ev) => {
                out.push(ev);
                proof {
                    assert(out@.map_values(|e: BotEvent| sell_token(e)) =~= before.map_values(
                        |e: BotEvent| sell_token(e),
                    ).push(sell_token(out@.last())));
                }
            },
            None => {
            },
        }
        i = i + 1;
    }
    proof {
        assert(outcomes@.subrange(0, n as int) =~= outcomes@);
    }
    out
}

/// No sell without a confirmed buy: every token in the owed sell stream
/// has a successful buy outcome earlier in the run.
pub proof fn lemma_no_sell_without_buy(outcomes: Seq<BuyOutcome>, i: int)
    requires
        0 <= i < spec_sells(outcomes).len(),
    ensures
        exists|j: int|
            0 <= j < outcomes.len() && outcomes[j].success && outcomes[j].token@ == spec_sells(
                outcomes,
            )[i],
    decreases outcomes.len(),
{
    let s = spec_sells(outcomes);
    let prefix = spec_sells(outcomes.drop_last());
    if i < prefix.len() {
        lemma_no_sell_without_buy(outcomes.drop_last(), i);
        let j = choose|j: int|
            0 <= j < outcomes.drop_last().len() && outcomes.drop_last()[j].success
                && outcomes.drop_last()[j].token@ == prefix[i];
        assert(outcomes[j].success && outcomes[j].token@ == s[i]);
    } else {
        let j = outcomes.len() - 1;
        assert(outcomes[j].success && outcomes[j].token@ == s[i]);
    }
}

} // verus!
