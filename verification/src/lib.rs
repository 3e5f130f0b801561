//! Competitive-intelligence analysis for Solana validators: stake models,
//! threat, decay, queue, cohort and gaming analysis, with machine-checked contracts.
use vstd::prelude::*;

pub mod models;
pub mod text;
pub mod ordering;
pub mod analysis;
pub mod snapshot;
pub mod rpc;
pub mod config;
pub mod alert;
pub mod commands;
pub mod output;
pub mod laws;
pub mod finding_laws;
pub mod pools;

verus! {

} // verus!
