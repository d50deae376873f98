//! Why an analysis step was abandoned.

use vstd::prelude::*;

verus! {

/// The reason for which an analysis step gives up. After an error the
/// context that the step worked on holds no result that may be used.
#[derive(Clone, Copy, PartialEq, Eq, Debug, Hash, Structural)]
pub enum Error {
    /// The program uses a construct that the analysis does not model.
    /// Going on would leave a permission under-constrained.
    Unsupported,
    /// The input contradicts itself or the stored summaries: an index that
    /// is out of range, a definition of the wrong kind, a type of the wrong
    /// shape, two call targets that differ where they must agree.
    Inconsistent,
    /// More permission variables are needed than can be numbered.
    Overflow,
}

impl Error {
    /// A short description of the error.
    pub fn message(&self) -> (r: &'static str)
        ensures
            r@ == (match *self {
                Error::Unsupported => "unsupported construct"@,
                Error::Inconsistent => "inconsistent input"@,
                Error::Overflow => "too many permission variables"@,
            }),
    {
        match self {
            Error::Unsupported => "unsupported construct",
            Error::Inconsistent => "inconsistent input",
            Error::Overflow => "too many permission variables",
        }
    }
}

} // verus!
