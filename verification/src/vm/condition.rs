use vstd::prelude::*;
use crate::common::lang::{Op, OpView};

verus! {

/// A comparison for a condition.
#[derive(Debug, Clone, Copy, PartialEq, Eq, Structural)]
pub enum CompareOp {
    Or,
    And,
    Equals,
    NotEquals,
    FuzzyEquals,
    Less,
    Greater,
    LessEquals,
    GreaterEquals,
}

/// The comparison that an operator denotes, for the operators that denote one.
pub open spec fn compare_op_of(op: OpView) -> Option<CompareOp> {
    match op {
        OpView::Or => Some(CompareOp::Or),
        OpView::And => Some(CompareOp::And),
        OpView::DoubleEquals => Some(CompareOp::Equals),
        OpView::DoubleTilde => Some(CompareOp::FuzzyEquals),
        OpView::NotEquals => Some(CompareOp::NotEquals),
        OpView::LessEquals => Some(CompareOp::LessEquals),
        OpView::GreaterEquals => Some(CompareOp::GreaterEquals),
        OpView::Less => Some(CompareOp::Less),
        OpView::Greater => Some(CompareOp::Greater),
        _ => None,
    }
}

impl CompareOp {
    /// Converts a comparison operator of the language to a `CompareOp`.
    ///
    /// Only the comparison operators convert; `%%` has no comparison yet.
    pub fn from_syntax(op: &Op) -> (r: Option<Self>)
        requires
            compare_op_of(op@) is Some,
        ensures
            r == compare_op_of(op@),
    {
        match op {
            Op::Or => Some(CompareOp::Or),
            Op::And => Some(CompareOp::And),
            Op::DoubleEquals => Some(CompareOp::Equals),
            Op::DoubleTilde => Some(CompareOp::FuzzyEquals),
            Op::NotEquals => Some(CompareOp::NotEquals),
            Op::LessEquals => Some(CompareOp::LessEquals),
            Op::GreaterEquals => Some(CompareOp::GreaterEquals),
            Op::Less => Some(CompareOp::Less),
            Op::Greater => Some(CompareOp::Greater),
            _ => None,
        }
    }
}

} // verus!
