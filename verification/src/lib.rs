//! A privacy-preserving batched swap engine.
//!
//! Fixed-denomination deposits are pooled per denomination, guarded by
//! commitments and globally unique nullifiers, and settled in batches: the
//! largest qualifying subset of pending deposits is swapped through an
//! external constant-product pair in one aggregated trade, and every
//! participant's recipient receives the same equal share of the proceeds.
//!
//! The engine itself is pure: ledger reads (timestamps, pair reserves,
//! authorization) enter as arguments, and ledger writes (token transfers,
//! the pair swap) leave as [`settle::SettlementPlan`] values for the host
//! to perform.

pub mod batcher;
pub mod coinjoin;
pub mod denomination;
pub mod error;
pub mod payout;
pub mod selector;
pub mod settle;
