//! Stake-tiered bandwidth for fee-exempt calls, and the binding of EVM addresses to accounts.

pub mod primitives;
pub mod storage;
pub mod tier;
pub mod currency;
pub mod model;
pub mod laws;
pub mod feeless;
pub mod encoding;
pub mod crypto;
pub mod evm_account;
