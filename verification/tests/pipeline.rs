//! The pipeline stages: listener resilience, the trader's no-sell-without-
//! buy rule, the seller's decisions, and the queue-item shaping.

use creation_dev_buy::listener::{process_logs, to_token_event, TokenCreated};
use creation_dev_buy::seller::{drain_pending, seller_decide, seller_handle, SellerState, SellPlan};
use creation_dev_buy::trader::{run_trader, trader_step, BuyOutcome, TokenSet};
use creation_dev_buy::types::{Address, BotEvent, RawLog};
use creation_dev_buy::utils::{encode_token_created, keccak256_hex};

fn addr(last: u8) -> Address {
    let mut b = vec![0u8; 20];
    b[19] = last;
    Address::new(b)
}

fn sig_topic() -> Vec<u8> {
    keccak256_hex("TokenCreate(address,address,string,string)").to_vec()
}

fn creation_log(token_last: u8, name: &[u8], symbol: &[u8]) -> RawLog {
    let ev = TokenCreated {
        creator: addr(0x01),
        token: addr(token_last),
        name: name.to_vec(),
        symbol: symbol.to_vec(),
    };
    encode_token_created(&ev, &sig_topic())
}

#[test]
fn malformed_log_does_not_stop_the_batch() {
    let sig = sig_topic();
    let good1 = creation_log(0x0A, b"First", b"F1");
    let mut bad = creation_log(0x0B, b"Broken", b"BR");
    bad.data.truncate(10);
    let good2 = creation_log(0x0C, b"Third", b"T3");
    let events = process_logs(&vec![good1, bad, good2], &sig);
    assert_eq!(events.len(), 2);
    assert_eq!(events[0].token.bytes, addr(0x0A).bytes);
    assert_eq!(events[1].token.bytes, addr(0x0C).bytes);
}

#[test]
fn listener_to_trader_scenario() {
    // a synthetic creation log yields exactly one sell request on success
    let sig = sig_topic();
    let log = creation_log(0xAA, b"Alpha", b"AAA");
    let events = process_logs(&vec![log], &sig);
    assert_eq!(events.len(), 1);
    let token = events[0].token.duplicate();
    let outcome = BuyOutcome {
        token,
        tx_hash: vec![0x22u8; 32],
        amount_bought: 1_000,
        success: true,
    };
    let sells = run_trader(&vec![outcome]);
    assert_eq!(sells.len(), 1);
    match &sells[0] {
        BotEvent::SellRequest { token_address } => {
            assert_eq!(token_address.bytes, addr(0xAA).bytes)
        }
        other => panic!("expected a sell request, got {:?}", other),
    }
}

#[test]
fn failed_buy_produces_no_sell_request() {
    let outcome = BuyOutcome {
        token: addr(0xBB),
        tx_hash: vec![0u8; 32],
        amount_bought: 0,
        success: false,
    };
    assert!(trader_step(&outcome).is_none());
}

#[test]
fn sells_match_successful_buys_in_order() {
    let outcomes = vec![
        BuyOutcome { token: addr(1), tx_hash: vec![0; 32], amount_bought: 5, success: true },
        BuyOutcome { token: addr(2), tx_hash: vec![0; 32], amount_bought: 0, success: false },
        BuyOutcome { token: addr(3), tx_hash: vec![0; 32], amount_bought: 7, success: true },
    ];
    let sells = run_trader(&outcomes);
    assert_eq!(sells.len(), 2);
    let tokens: Vec<Vec<u8>> = sells
        .iter()
        .map(|e| match e {
            BotEvent::SellRequest { token_address } => token_address.bytes.clone(),
            other => panic!("expected a sell request, got {:?}", other),
        })
        .collect();
    assert_eq!(tokens, vec![addr(1).bytes, addr(3).bytes]);
}

#[test]
fn zero_balance_submits_nothing() {
    // a sell request whose balance check comes back empty
    assert_eq!(seller_decide(false, 0), SellPlan::NothingToSell);
    let mut state = SellerState::new();
    let plan = seller_handle(&mut state, addr(0xBB), false, 0);
    assert_eq!(plan, SellPlan::NothingToSell);
    assert!(state.pending.is_empty());
}

#[test]
fn positive_balance_sells_the_full_live_amount() {
    assert_eq!(seller_decide(false, 123_456), SellPlan::Sell { amount: 123_456 });
}

#[test]
fn paused_seller_defers_and_keeps_the_item() {
    let mut state = SellerState::new();
    let plan = seller_handle(&mut state, addr(0xCC), true, 999);
    assert_eq!(plan, SellPlan::Defer);
    assert_eq!(state.pending.len(), 1);
    assert_eq!(state.pending[0].bytes, addr(0xCC).bytes);
    let drained = drain_pending(&mut state);
    assert_eq!(drained.len(), 1);
    assert_eq!(drained[0].bytes, addr(0xCC).bytes);
    assert!(state.pending.is_empty());
    // once resumed, the drained item sells its live balance
    assert_eq!(seller_decide(false, 999), SellPlan::Sell { amount: 999 });
}

#[test]
fn token_event_shaping() {
    let ev = TokenCreated {
        creator: addr(0x01),
        token: addr(0x02),
        name: b"Name".to_vec(),
        symbol: b"SYM".to_vec(),
    };
    let qe = to_token_event(ev, 42);
    assert_eq!(qe.contract.bytes, addr(0x02).bytes);
    assert_eq!(qe.ticker, "SYM");
    assert_eq!(qe.creator.as_ref().map(|a| a.bytes.clone()), Some(addr(0x01).bytes));
    assert!(qe.tx_hash.is_none());
    assert_eq!(qe.buy_amount, 42);
}

#[test]
fn token_event_ticker_of_invalid_utf8_is_empty() {
    let ev = TokenCreated {
        creator: addr(0x01),
        token: addr(0x02),
        name: b"Name".to_vec(),
        symbol: vec![0xFF, 0xFE],
    };
    let qe = to_token_event(ev, 0);
    assert_eq!(qe.ticker, "");
}

#[test]
fn approval_cache_grants_once() {
    let mut approved = TokenSet::new();
    assert!(!approved.contains(&addr(0x10)));
    approved.insert(addr(0x10));
    assert!(approved.contains(&addr(0x10)));
    assert!(!approved.contains(&addr(0x11)));
    approved.insert(addr(0x11));
    assert!(approved.contains(&addr(0x10)));
    assert!(approved.contains(&addr(0x11)));
}
