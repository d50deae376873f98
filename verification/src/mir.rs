//! Function bodies, as far as the analysis reads them: a control-flow graph
//! of basic blocks, each a list of statements and a terminator, over typed
//! places and operands.

use vstd::prelude::*;
use crate::context::Span;
use crate::ty::{DefId, Ty};

verus! {

/// One step from a place to a place inside it.
#[derive(Clone, Copy, PartialEq, Eq, Debug, Hash)]
pub enum ProjectionElem {
    /// The target of a pointer.
    Deref,
    /// The field with the given index, of a struct, a tuple or the variant
    /// that a downcast has chosen.
    Field(usize),
    /// An element of an array or slice, at an index computed at run time.
    Index,
    /// An element at a constant index.
    ConstantIndex,
    /// A part of an array or slice.
    Subslice,
    /// The same place, seen as the variant with the given index.
    Downcast(usize),
}

/// Where a value is stored.
#[derive(PartialEq, Eq, Debug, Hash)]
pub enum Place {
    /// A local variable. Local 0 holds the result of the function, the
    /// locals after it hold the arguments.
    Local(usize),
    /// A static.
    Static(DefId),
    /// A place inside another.
    Projection(Box<Place>, ProjectionElem),
}

/// A constant that stands in the code: a literal, or a function named by
/// its item.
#[derive(PartialEq, Eq, Debug, Hash)]
pub struct Constant {
    pub ty: Ty,
    pub span: Span,
}

/// A value that a statement uses.
#[derive(PartialEq, Eq, Debug, Hash)]
pub enum Operand {
    Copy(Place),
    Move(Place),
    Constant(Constant),
}

/// A binary operator.
#[derive(Clone, Copy, PartialEq, Eq, Debug, Hash)]
pub enum BinOp {
    Add,
    Sub,
    Mul,
    Div,
    Rem,
    BitXor,
    BitAnd,
    BitOr,
    Shl,
    Shr,
    Eq,
    Lt,
    Le,
    Ne,
    Ge,
    Gt,
    /// Pointer arithmetic: the first operand is the pointer.
    Offset,
}

/// A unary operator.
#[derive(Clone, Copy, PartialEq, Eq, Debug, Hash)]
pub enum UnOp {
    Not,
    Neg,
}

/// What an aggregate is built as.
#[derive(Clone, Copy, PartialEq, Eq, Debug, Hash)]
pub enum AggregateKind {
    Array,
    Tuple,
    /// A value of the struct, enum or union `adt`: of its variant
    /// `variant`, or, for a union, with the one field `union_field` given.
    Adt { adt: DefId, variant: usize, union_field: Option<usize> },
    Closure,
    Generator,
}

/// How a value is computed.
#[derive(PartialEq, Eq, Debug, Hash)]
pub enum RvalueKind {
    Use(Operand),
    /// An array of copies of the operand.
    Repeat(Operand),
    /// A reference to the place.
    Ref(Place),
    /// The length of the array or slice at the place.
    Len(Place),
    /// The operand, cast to the given type.
    Cast(Operand, Ty),
    BinaryOp(BinOp, Operand, Operand),
    CheckedBinaryOp(BinOp, Operand, Operand),
    NullaryOp,
    UnaryOp(UnOp, Operand),
    /// The discriminant of the enum at the place.
    Discriminant(Place),
    /// A value built from its parts.
    Aggregate(AggregateKind, Vec<Operand>),
}

/// A computed value, with its type.
#[derive(PartialEq, Eq, Debug, Hash)]
pub struct Rvalue {
    pub kind: RvalueKind,
    /// The type of the value.
    pub ty: Ty,
}

/// A statement.
#[derive(PartialEq, Eq, Debug, Hash)]
pub enum Statement {
    /// Stores the value at the place.
    Assign(Place, Rvalue),
    /// Any statement that moves no value.
    Other,
}

/// The end of a basic block.
#[derive(PartialEq, Eq, Debug, Hash)]
pub enum Terminator {
    /// Calls `func` with `args` and stores the result at `destination`, if
    /// the call returns.
    Call { func: Operand, args: Vec<Operand>, destination: Option<Place> },
    /// Drops what is at `location` and stores `value` there.
    DropAndReplace { location: Place, value: Operand },
    /// Any terminator that moves no value: a jump, a branch, a return.
    Other,
}

/// A basic block.
#[derive(PartialEq, Eq, Debug, Hash)]
pub struct BasicBlockData {
    pub statements: Vec<Statement>,
    pub terminator: Terminator,
}

/// A function body.
#[derive(PartialEq, Eq, Debug, Hash)]
pub struct Mir {
    /// The type of each local.
    pub local_decls: Vec<Ty>,
    /// The number of arguments: they are the locals `1 ..= arg_count`.
    pub arg_count: usize,
    /// The basic blocks.
    pub basic_blocks: Vec<BasicBlockData>,
}

} // verus!
