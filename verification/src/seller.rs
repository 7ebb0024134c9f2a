//! The seller stage's decisions: what to do with one dequeued sell
//! request, given the pause flag and the live balance, and the deferred
//! set that keeps paused items from being lost. The waiting, the balance
//! read and the transactions themselves are outside work; every decision
//! about them is here.

use vstd::prelude::*;
use crate::types::Address;

verus! {

/// The default cool-down between a confirmed buy and its sell, in
/// seconds, letting the market settle after the launch.
pub const SELL_COOLDOWN_SECS: u64 = 40;

/// The action decided for one sell request.
#[derive(Debug, Clone, Copy, PartialEq, Eq, Structural)]
pub enum SellPlan {
    /// Selling is paused: hold the item until resumed, submit nothing.
    Defer,
    /// The live balance is zero: submit nothing and move on.
    NothingToSell,
    /// Approve and sell exactly the full live balance.
    Sell { amount: u128 },
}

/// The seller's decision for one request: nothing is ever submitted while
/// paused or for an empty balance, and a sell is always for the full live
/// balance, never a stale amount.
pub fn seller_decide(paused: bool, balance: u128) -> (r: SellPlan)
    ensures
        paused ==> r == SellPlan::Defer,
        !paused && balance == 0 ==> r == SellPlan::NothingToSell,
        !paused && balance > 0 ==> r == (SellPlan::Sell { amount: balance }),
{
    if paused {
        SellPlan::Defer
    } else if balance == 0 {
        SellPlan::NothingToSell
    } else {
        SellPlan::Sell { amount: balance }
    }
}

/// The seller's own state: the requests deferred while selling was paused.
#[derive(Debug)]
pub struct SellerState {
    pub pending: Vec<Address>,
}

impl SellerState {
    /// A fresh seller holds no deferred request.
    pub fn new() -> (r: SellerState)
        ensures
            r.pending@.len() == 0,
    {
        SellerState { pending: Vec::new() }
    }
}

/// Handles one dequeued request: decides as `seller_decide` does, and a
/// deferred request is kept in the pending set rather than dropped.
pub fn seller_handle(state: &mut SellerState, req: Address, paused: bool, balance: u128) -> (r:
    SellPlan)
    ensures
        paused ==> r == SellPlan::Defer,
        !paused && balance == 0 ==> r == SellPlan::NothingToSell,
        !paused && balance > 0 ==> r == (SellPlan::Sell { amount: balance }),
        paused ==> final(state).pending@ =~= old(state).pending@.push(req),
        !paused ==> final(state).pending@ =~= old(state).pending@,
{
    let plan = seller_decide(paused, balance);
    if paused {
        state.pending.push(req);
    }
    plan
}

/// Takes every deferred request back out for processing, in the order
/// deferred: called when the operator resumes selling.
pub fn drain_pending(state: &mut SellerState) -> (r: Vec<Address>)
    ensures
        r@ =~= old(state).pending@,
        final(state).pending@.len() == 0,
{
    let mut drained: Vec<Address> = Vec::new();
    core::mem::swap(&mut drained, &mut state.pending);
    drained
}

} // verus!
