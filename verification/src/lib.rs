//! A fungible-token ledger with a transfer-time fee skimmed into a pool,
//! threshold-triggered disbursement of that pool to a marketing wallet,
//! and a time-gated airdrop allocation that is excluded from an account's
//! spendable balance until a global vesting instant passes.
//!
//! The host environment (message dispatch, clock, caller identity, event
//! transport) stays outside: every entry point takes the caller identity
//! and, where it matters, the current time as plain arguments.

pub mod account_map;
pub mod fee;
pub mod token;
