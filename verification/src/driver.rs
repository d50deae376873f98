//! The phases of the compiler at which an analysis can run.

use vstd::prelude::*;

verus! {

/// Compiler phase selection. Later phases have more analysis results
/// available, but are less robust against broken code: phase 3 provides
/// the results of type checking, but cannot be used on code that does not
/// type-check.
#[derive(Clone, Copy, PartialEq, Eq, Debug, Hash, Structural)]
pub enum Phase {
    /// Runs on the source code right after parsing, before macro expansion.
    Phase1,
    /// Runs after macro expansion and name resolution have finished.
    Phase2,
    /// Runs after type checking has finished.
    Phase3,
}

} // verus!
