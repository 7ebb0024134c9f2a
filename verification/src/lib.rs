//! An event-driven trading pipeline for a token-factory contract: decoding
//! creation logs, planning buy and sell transactions, and the operator
//! control plane, with the decision logic verified.

pub mod abi;
pub mod amount;
pub mod calldata;
pub mod config;
pub mod console;
pub mod listener;
pub mod seller;
pub mod trader;
pub mod types;
pub mod utils;
pub mod word;
