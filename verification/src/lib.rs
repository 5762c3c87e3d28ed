//! A production-chain planner.
//!
//! Given a catalog of recipes, a catalog of machine configurations, a policy
//! and a set of target rates, the solver expands each target into a forest of
//! crafting steps: the machine chosen for each step, how many of it are
//! needed, the craft rate, and where every ingredient comes from.  Demand for
//! declared merge points is pooled across trees and resolved once; raw
//! sources and unknown items accumulate into a totals report, the unknown
//! ones annotated with near-name suggestions.
//!
//! Rates, costs, speeds and per-craft quantities are fixed-point numbers
//! carried as `u64` values scaled by [`SCALE`] (millionths of a unit), so the
//! whole resolution is exact integer arithmetic, clamped at the `u64` range.

use vstd::prelude::*;

mod num;
pub mod cfg_file;
pub mod config;
pub mod dec;
pub mod error;
pub mod flows;
pub mod graph;
pub mod near_name;
pub mod processer;
pub mod recipe;
pub mod solution;
pub mod solver;
pub mod sources;
pub mod stack;
pub mod strings;
pub mod target;
pub mod technology;
pub mod text;
pub mod tier;

pub use num::SCALE;

verus! {

} // verus!
