//! The call data for every transaction the pipeline submits to the token
//! manager and to a token contract: the four trade shapes, the approval,
//! and the balance and decimals reads. Each is the four-byte selector of
//! the method's signature digest followed by the arguments as 32-byte
//! words.

use vstd::prelude::*;
use vstd::string::StringSliceAdditionalSpecFns;
use crate::trader::BuyMode;
use crate::types::Address;
use crate::utils::{keccak256_hex, keccak256_of};
use crate::word::{bytes_be, push_be_word_u128, zeros};
use crate::abi::push_bytes;

verus! {

/// The selector of a method signature: the first four bytes of its digest.
pub open spec fn spec_selector(sig: Seq<u8>) -> Seq<u8> {
    keccak256_of(sig).take(4)
}

/// An address as an argument word: zero-padded to 32 bytes.
pub open spec fn spec_address_word(a: Seq<u8>) -> Seq<u8> {
    zeros(12) + a
}

/// An amount as an argument word.
pub open spec fn spec_amount_word(v: nat) -> Seq<u8> {
    bytes_be(v, 32)
}

/// Computes a method selector from its signature string.
pub fn selector(sig: &str) -> (r: Vec<u8>)
    ensures
        r@ =~= spec_selector(sig.spec_bytes()),
{
    let h = keccak256_hex(sig);
    let mut out: Vec<u8> = Vec::new();
    out.push(h[0]);
    out.push(h[1]);
    out.push(h[2]);
    out.push(h[3]);
    out
}

/// Appends the 32-byte word holding an address.
pub fn push_address_word(out: &mut Vec<u8>, a: &Address)
    requires
        a.wf(),
    ensures
        final(out)@ =~= old(out)@ + spec_address_word(a@),
{
    crate::abi::push_zeros(out, 12);
    push_bytes(out, a.bytes.as_slice());
}

/// The call data of `buyToken(address,uint256,uint256)`: buy an exact
/// quantity with a spend cap.
pub open spec fn spec_buy_exact_calldata(token: Seq<u8>, amount: nat, max_funds: nat) -> Seq<u8> {
    spec_selector("buyToken(address,uint256,uint256)".spec_bytes()) + spec_address_word(token)
        + spec_amount_word(amount) + spec_amount_word(max_funds)
}

/// The call data of `buyTokenAMAP(address,uint256,uint256)`: spend a fixed
/// amount with a minimum received quantity.
pub open spec fn spec_buy_amap_calldata(token: Seq<u8>, funds: nat, min_amount: nat) -> Seq<u8> {
    spec_selector("buyTokenAMAP(address,uint256,uint256)".spec_bytes()) + spec_address_word(token)
        + spec_amount_word(funds) + spec_amount_word(min_amount)
}

/// The call data of `sellToken(address,uint256)`: sell an exact quantity.
pub open spec fn spec_sell_calldata(token: Seq<u8>, amount: nat) -> Seq<u8> {
    spec_selector("sellToken(address,uint256)".spec_bytes()) + spec_address_word(token)
        + spec_amount_word(amount)
}

/// The call data of `sellTokenAMAP(address,uint256,uint256)`: sell the
/// full quantity accepting any proceeds at or above the floor.
pub open spec fn spec_sell_amap_calldata(token: Seq<u8>, amount: nat, min_proceeds: nat) -> Seq<
    u8,
> {
    spec_selector("sellTokenAMAP(address,uint256,uint256)".spec_bytes()) + spec_address_word(token)
        + spec_amount_word(amount) + spec_amount_word(min_proceeds)
}

/// The call data of `approve(address,uint256)` on a token.
pub open spec fn spec_approve_calldata(spender: Seq<u8>, amount: nat) -> Seq<u8> {
    spec_selector("approve(address,uint256)".spec_bytes()) + spec_address_word(spender)
        + spec_amount_word(amount)
}

/// The call data of `balanceOf(address)` on a token.
pub open spec fn spec_balance_of_calldata(owner: Seq<u8>) -> Seq<u8> {
    spec_selector("balanceOf(address)".spec_bytes()) + spec_address_word(owner)
}

/// The call data of `decimals()` on a token.
pub open spec fn spec_decimals_calldata() -> Seq<u8> {
    spec_selector("decimals()".spec_bytes())
}

/// Builds the buy call a sizing policy asks for: the exact-amount shape
/// for a quantity target, the fixed-spend shape otherwise.
pub fn build_buy_call(mode: &BuyMode, token: &Address) -> (r: Vec<u8>)
    requires
        token.wf(),
    ensures
        match *mode {
            BuyMode::ExactAmount { amount, max_funds } => r@ =~= spec_buy_exact_calldata(
                token@,
                amount as nat,
                max_funds as nat,
            ),
            BuyMode::ExactSpend { funds, min_amount } => r@ =~= spec_buy_amap_calldata(
                token@,
                funds as nat,
                min_amount as nat,
            ),
        },
{
    match *mode {
        BuyMode::ExactAmount { amount, max_funds } => {
            let mut out = selector("buyToken(address,uint256,uint256)");
            push_address_word(&mut out, token);
            push_be_word_u128(&mut out, amount);
            push_be_word_u128(&mut out, max_funds);
            out
        },
        BuyMode::ExactSpend { funds, min_amount } => {
            let mut out = selector("buyTokenAMAP(address,uint256,uint256)");
            push_address_word(&mut out, token);
            push_be_word_u128(&mut out, funds);
            push_be_word_u128(&mut out, min_amount);
            out
        },
    }
}

/// Builds the exact-quantity sell call.
pub fn build_sell_call(token: &Address, amount: u128) -> (r: Vec<u8>)
    requires
        token.wf(),
    ensures
        r@ =~= spec_sell_calldata(token@, amount as nat),
{
    let mut out = selector("sellToken(address,uint256)");
    push_address_word(&mut out, token);
    push_be_word_u128(&mut out, amount);
    out
}

/// Builds the sell-all call for the full live balance, with the floor on
/// proceeds.
pub fn build_sell_all_call(token: &Address, amount: u128, min_proceeds: u128) -> (r: Vec<u8>)
    requires
        token.wf(),
    ensures
        r@ =~= spec_sell_amap_calldata(token@, amount as nat, min_proceeds as nat),
{
    let mut out = selector("sellTokenAMAP(address,uint256,uint256)");
    push_address_word(&mut out, token);
    push_be_word_u128(&mut out, amount);
    push_be_word_u128(&mut out, min_proceeds);
    out
}

/// Builds the approval call for a spender.
pub fn build_approve_call(spender: &Address, amount: u128) -> (r: Vec<u8>)
    requires
        spender.wf(),
    ensures
        r@ =~= spec_approve_calldata(spender@, amount as nat),
{
    let mut out = selector("approve(address,uint256)");
    push_address_word(&mut out, spender);
    push_be_word_u128(&mut out, amount);
    out
}

/// Builds the balance read for an owner.
pub fn build_balance_of_call(owner: &Address) -> (r: Vec<u8>)
    requires
        owner.wf(),
    ensures
        r@ =~= spec_balance_of_calldata(owner@),
{
    let mut out = selector("balanceOf(address)");
    push_address_word(&mut out, owner);
    out
}

/// Builds the decimals read.
pub fn build_decimals_call() -> (r: Vec<u8>)
    ensures
        r@ =~= spec_decimals_calldata(),
{
    selector("decimals()")
}

} // verus!
