//! The operator console, the amount conversion, the address parsing and
//! the call-data builders.

use creation_dev_buy::amount::to_base_units;
use creation_dev_buy::calldata::{
    build_approve_call, build_balance_of_call, build_buy_call, build_decimals_call,
    build_sell_all_call, build_sell_call,
};
use creation_dev_buy::config::parse_address;
use creation_dev_buy::console::{apply_command, parse_command, Command, ControlState, Effect};
use creation_dev_buy::trader::BuyMode;
use creation_dev_buy::utils::keccak256_hex;

#[test]
fn verbs_parse() {
    assert_eq!(parse_command("status"), Command::Status);
    assert_eq!(parse_command("sell"), Command::PauseSelling);
    assert_eq!(parse_command("pause"), Command::PauseSelling);
    assert_eq!(parse_command("resume"), Command::Resume);
    assert_eq!(parse_command("exit"), Command::Exit);
    assert_eq!(parse_command(""), Command::Blank);
    assert_eq!(parse_command("buy"), Command::Unknown);
    assert_eq!(parse_command("SELL"), Command::Unknown);
}

#[test]
fn pause_then_resume_round_trip() {
    // the operator sends sell then resume: Active -> Paused -> Active
    let mut state = ControlState::new();
    assert!(!state.selling_paused);
    let e1 = apply_command(&mut state, parse_command("sell"));
    assert_eq!(e1, Effect::AnnouncePaused);
    assert!(state.selling_paused);
    let e2 = apply_command(&mut state, parse_command("resume"));
    assert_eq!(e2, Effect::AnnounceResumed);
    assert!(!state.selling_paused);
}

#[test]
fn exit_terminates_from_any_state() {
    let mut active = ControlState::new();
    assert_eq!(apply_command(&mut active, Command::Exit), Effect::Terminate);
    let mut paused = ControlState::new();
    apply_command(&mut paused, Command::PauseSelling);
    assert_eq!(apply_command(&mut paused, Command::Exit), Effect::Terminate);
    assert!(paused.selling_paused);
}

#[test]
fn status_and_unknown_change_nothing() {
    let mut state = ControlState::new();
    assert_eq!(apply_command(&mut state, Command::Status), Effect::ReportStatus);
    assert!(!state.selling_paused);
    assert_eq!(apply_command(&mut state, Command::Unknown), Effect::UnknownCommand);
    assert!(!state.selling_paused);
}

#[test]
fn base_units_exact_values() {
    assert_eq!(to_base_units("1", 18), Some(1_000_000_000_000_000_000));
    assert_eq!(to_base_units("1.5", 18), Some(1_500_000_000_000_000_000));
    assert_eq!(to_base_units("0.000000000000000001", 18), Some(1));
    assert_eq!(to_base_units("7", 0), Some(7));
    assert_eq!(to_base_units(".5", 1), Some(5));
    assert_eq!(to_base_units("5.", 1), Some(50));
}

#[test]
fn base_units_truncate_never_round_up() {
    assert_eq!(to_base_units("1.239", 2), Some(123));
    assert_eq!(to_base_units("0.999", 0), Some(0));
}

#[test]
fn base_units_reject_malformed() {
    assert_eq!(to_base_units("", 18), None);
    assert_eq!(to_base_units(".", 18), None);
    assert_eq!(to_base_units("1.2.3", 18), None);
    assert_eq!(to_base_units("12a", 18), None);
    assert_eq!(to_base_units("-1", 18), None);
}

#[test]
fn base_units_reject_overflow() {
    // 2^128 is about 3.4e38
    assert_eq!(to_base_units("400000000000000000000", 18), None);
    assert_eq!(to_base_units("340282366920938463463374607431768211455", 0), Some(u128::MAX));
    assert_eq!(to_base_units("340282366920938463463374607431768211456", 0), None);
}

#[test]
fn addresses_parse() {
    let a = parse_address("0x79c7909097a2a5cedb8da900e3192cee671521a6").expect("valid address");
    assert_eq!(a.bytes.len(), 20);
    assert_eq!(a.bytes[0], 0x79);
    assert_eq!(a.bytes[19], 0xa6);
    let b = parse_address("0x79C7909097A2A5CEDB8DA900E3192CEE671521A6").expect("upper case");
    assert_eq!(a.bytes, b.bytes);
    assert!(parse_address("79c7909097a2a5cedb8da900e3192cee671521a6").is_none());
    assert!(parse_address("0x79c7").is_none());
    assert!(parse_address("0x79c7909097a2a5cedb8da900e3192cee671521g6").is_none());
}

fn test_addr(last: u8) -> creation_dev_buy::types::Address {
    let mut b = vec![0u8; 20];
    b[19] = last;
    creation_dev_buy::types::Address::new(b)
}

#[test]
fn approve_calldata_layout() {
    let call = build_approve_call(&test_addr(0x42), u128::MAX);
    assert_eq!(call.len(), 4 + 32 + 32);
    // the well-known approve selector
    assert_eq!(&call[0..4], &[0x09, 0x5e, 0xa7, 0xb3]);
    assert_eq!(&call[4..16], &[0u8; 12]);
    assert_eq!(call[35], 0x42);
    assert_eq!(&call[36..52], &[0u8; 16]);
    assert_eq!(&call[52..68], &[0xFFu8; 16]);
}

#[test]
fn buy_calldata_shapes() {
    let exact = build_buy_call(
        &BuyMode::ExactAmount { amount: 1000, max_funds: 5 },
        &test_addr(0x01),
    );
    let sig = keccak256_hex("buyToken(address,uint256,uint256)");
    assert_eq!(&exact[0..4], &sig[0..4]);
    assert_eq!(exact.len(), 4 + 3 * 32);
    assert_eq!(exact[66], 0x03);
    assert_eq!(exact[67], 0xe8);
    assert_eq!(exact[99], 0x05);

    let amap = build_buy_call(
        &BuyMode::ExactSpend { funds: 256, min_amount: 1 },
        &test_addr(0x01),
    );
    let sig2 = keccak256_hex("buyTokenAMAP(address,uint256,uint256)");
    assert_eq!(&amap[0..4], &sig2[0..4]);
    assert_eq!(amap[66], 0x01);
    assert_eq!(amap[67], 0x00);
    assert_eq!(amap[99], 0x01);
}

#[test]
fn sell_and_read_calldata_shapes() {
    let sell = build_sell_call(&test_addr(0x02), 7);
    assert_eq!(&sell[0..4], &keccak256_hex("sellToken(address,uint256)")[0..4]);
    assert_eq!(sell.len(), 4 + 2 * 32);
    assert_eq!(sell[67], 7);

    let sell_all = build_sell_all_call(&test_addr(0x02), 7, 0);
    assert_eq!(
        &sell_all[0..4],
        &keccak256_hex("sellTokenAMAP(address,uint256,uint256)")[0..4]
    );
    assert_eq!(sell_all.len(), 4 + 3 * 32);

    let bal = build_balance_of_call(&test_addr(0x03));
    // the well-known balanceOf selector
    assert_eq!(&bal[0..4], &[0x70, 0xa0, 0x82, 0x31]);
    assert_eq!(bal.len(), 36);

    let dec = build_decimals_call();
    assert_eq!(&dec[0..4], &[0x31, 0x3c, 0xe5, 0x67]);
    assert_eq!(dec.len(), 4);
}
