//! Per-address statistics over a stream of asset transfers: total volume,
//! average buy and sell prices, and the peak single-transfer amount, kept
//! either by a one-shot batch pass or by incremental per-event updates
//! against a store.
//!
//! Amounts and prices are fixed-point integers; the caller picks the scale.
//! The batch pass computes volume-weighted averages and is order-
//! independent; the incremental updater applies a pairwise running average
//! that depends on event order. The two rules are distinct on purpose.

pub mod generator;
pub mod model;
pub mod pipeline;
pub mod storage;

pub use model::Transfer;
pub use model::UserStats;
