use vstd::prelude::*;
use crate::common::lang::{Op, OpView};
use crate::common::pos::Range;

verus! {

/// What went wrong while compiling.
#[derive(Debug)]
pub enum ErrorKind {
    /// A function was named that no visible function has.
    UnknownFun(String),
    /// A type was named that no visible type has.
    UnknownTy(String),
    /// A binary operator has no function.
    UnknownBinaryOp(Op),
    /// A unary operator has no function.
    UnknownUnaryOp(Op),
    /// The left-hand side of an assignment cannot be assigned to.
    InvalidAssignLhs,
    /// A `break` stands outside of any loop.
    BreakOutsideOfLoop,
    /// A `continue` stands outside of any loop.
    ContinueOutsideOfLoop,
}

/// A compile error, with the range of source where it was found.
#[derive(Debug)]
pub struct Error {
    pub range: Range,
    pub kind: ErrorKind,
}

/// The shape of a compile error: its kind, with the range left out.
pub enum ErrShape {
    UnknownFun(Seq<char>),
    UnknownTy(Seq<char>),
    UnknownBinaryOp(OpView),
    UnknownUnaryOp(OpView),
    InvalidAssignLhs,
    BreakOutsideOfLoop,
    ContinueOutsideOfLoop,
}

/// The shape of a compile error.
pub open spec fn err_shape(e: Error) -> ErrShape {
    match e.kind {
        ErrorKind::UnknownFun(n) => ErrShape::UnknownFun(n@),
        ErrorKind::UnknownTy(n) => ErrShape::UnknownTy(n@),
        ErrorKind::UnknownBinaryOp(op) => ErrShape::UnknownBinaryOp(op@),
        ErrorKind::UnknownUnaryOp(op) => ErrShape::UnknownUnaryOp(op@),
        ErrorKind::InvalidAssignLhs => ErrShape::InvalidAssignLhs,
        ErrorKind::BreakOutsideOfLoop => ErrShape::BreakOutsideOfLoop,
        ErrorKind::ContinueOutsideOfLoop => ErrShape::ContinueOutsideOfLoop,
    }
}

} // verus!
