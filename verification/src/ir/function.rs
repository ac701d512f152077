use vstd::prelude::*;
use crate::common::pos::{Range, Ranged};
use crate::ir::action::Action;
use crate::ir::symbol::Symbol;
use crate::ir::ty::TyExpr;
use crate::ir::value::Value;

verus! {

/// The name a symbol carries, whatever it names.
pub open spec fn symbol_name(s: Symbol) -> Seq<char> {
    match s {
        Symbol::Fun(n) => n@,
        Symbol::Variable(n) => n@,
        Symbol::Ty(n) => n@,
    }
}

/// A function of the intermediate representation.
pub struct Fun {
    pub symbol: Symbol,
    pub params: Vec<FunParam>,
    pub return_ty: TyExpr,
    pub body: Vec<Action>,
    pub inner_functions: Vec<Fun>,
    pub range: Range,
}

impl Fun {
    /// The function's name.
    pub fn name(&self) -> (r: &str)
        ensures
            r@ == symbol_name(self.symbol),
    {
        self.symbol.name()
    }
}

impl Ranged for Fun {
    open spec fn spec_range(&self) -> Range {
        self.range
    }

    fn range(&self) -> (r: Range) {
        self.range.clone()
    }
}

/// A parameter of a function: `self`, or a variable with its type and default value.
pub enum FunParam {
    SelfKw(Range),
    Variable {
        symbol: Symbol,
        ty: TyExpr,
        default: Option<Value>,
        range: Range,
    },
}

impl FunParam {
    /// The parameter's name: `self`, or the variable's name.
    pub fn name(&self) -> (r: &str)
        ensures
            r@ == match self {
                FunParam::SelfKw(_) => "self"@,
                FunParam::Variable { symbol, .. } => symbol_name(*symbol),
            },
    {
        match self {
            FunParam::SelfKw(_) => {
                proof { reveal_strlit("self"); }
                "self"
            },
            FunParam::Variable { symbol, .. } => symbol.name(),
        }
    }
}

impl Ranged for FunParam {
    open spec fn spec_range(&self) -> Range {
        match self {
            FunParam::SelfKw(range) => *range,
            FunParam::Variable { range, .. } => *range,
        }
    }

    fn range(&self) -> (r: Range) {
        match self {
            FunParam::SelfKw(range) => range.clone(),
            FunParam::Variable { range, .. } => range.clone(),
        }
    }
}

} // verus!
