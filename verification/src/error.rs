//! Errors a solve can end with.

use vstd::prelude::*;

verus! {

/// Why a resolution was abandoned.
///
/// A missing recipe is not an error: it degrades to an implicit source.
/// Only a machine that cannot be found, or a resolution that would not
/// settle, aborts the whole solve.
#[derive(Debug, Clone, Copy, PartialEq, Eq, Structural)]
pub enum SolveError {
    /// No machine configuration passes the policy for a required process.
    NoProcesser,
    /// The demand queue or the expansion recursion went past its budget.
    ResolutionLimit,
}

} // verus!
