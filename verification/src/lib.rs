//! Inference of access permissions for raw pointers.
//!
//! Every pointer position in a program gets the weakest permission that is
//! sound for the way the program uses it: read-only, exclusive write, or
//! ownership. The crate holds the permission lattice and its constraint sets,
//! types labelled with permissions, the storage for per-function summaries,
//! the reading of user annotations and the pass that walks one function body
//! and emits constraints. Beside these it holds the record of the branch
//! points of a control-flow graph, which a pass that rebuilds structured
//! code consults.

pub mod perm;
pub mod constraint;
pub mod error;
pub mod ty;
pub mod labeled_ty;
pub mod context;
pub mod mir;
pub mod intra;
pub mod annot;
pub mod multiples;
pub mod driver;
pub mod rerun;
