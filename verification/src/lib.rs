//! Time-locked, multi-asset escrow ledger.
//!
//! Depositors place native coins and fungible tokens under a lock that is
//! named by its owner and an identifier. The funds can be withdrawn by the
//! owner, and only once the lock's expiry time has passed.
//!
//! - [`contract`] holds the operations, each with the effect it has on the
//!   store and the response it hands back.
//! - [`state`] holds the configuration, the locks and the ledger that keeps
//!   them in the order of their keys.
//! - [`balance`] holds coins, deposits and the funds of a lock; [`asset`]
//!   says what amounts are and how deposits add up.
//! - [`msg`] holds the calls, the answers and the transfer messages;
//!   [`encoding`] encodes the request that a token contract reads.
//! - [`laws`] states what holds over all calls.

pub mod asset;
pub mod balance;
pub mod contract;
pub mod encoding;
pub mod error;
pub mod laws;
pub mod msg;
pub mod order;
pub mod state;
pub mod time;

pub use crate::error::ContractError;
