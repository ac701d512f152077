use vstd::prelude::*;
use crate::common::pos::Ranged;
use crate::syntax::tree::Ast;

pub mod symbol;
pub mod ty;
pub mod compile;
pub mod value;
pub mod action;
pub mod function;

verus! {

/// An item of the intermediate representation, made from an item of the syntax tree.
pub trait Ir<A: Ast + Sized>: Sized + Ranged {
    fn from_syntax(ast: &A) -> Self;
}

} // verus!
