//! Registry of time-boxed polls ("vote boxes"): creation, ballots with
//! duplicate-voter prevention, owner-gated lifecycle control, pooled-fund
//! escrow with pro-rata claims, and read-side aggregation.
pub mod error;
pub mod state;
pub mod msg;
pub mod helpers;
pub mod contract;
pub mod laws;
