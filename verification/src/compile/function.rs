use vstd::prelude::*;
use crate::common::pos::{Range, Ranged};
use crate::ir::ty::TyExpr;
use crate::ir::function::{Fun, symbol_name};
use crate::util::owned;
use crate::vm::symbol::{FunSymbol, Symbolic};

verus! {

/// A function found at compile time, known by its signature before its body is compiled.
#[derive(Debug, Clone)]
pub struct FunStub {
    pub name: String,
    pub symbol: FunSymbol,
    pub params: usize,
    pub return_ty: TyExpr,
    pub range: Range,
}

impl FunStub {
    /// The stub of a function of the intermediate representation, under the given symbol: its
    /// name, number of parameters, return type and range are those of the function.
    pub fn from_ir_function(symbol: FunSymbol, fun: &Fun) -> (r: Self)
        ensures
            r.name@ == symbol_name(fun.symbol),
            r.symbol == symbol,
            r.params == fun.params@.len(),
            r.return_ty.0@ == fun.return_ty.0@,
            r.range == fun.range,
    {
        let name = owned(fun.name());
        let params = fun.params.len();
        let return_ty = TyExpr(owned(fun.return_ty.0.as_str()));
        let range = fun.range();
        FunStub { name, symbol, params, return_ty, range }
    }
}

impl Symbolic for FunStub {
    type Symbol = FunSymbol;

    open spec fn spec_symbol(&self) -> FunSymbol {
        self.symbol
    }

    open spec fn spec_name(&self) -> Seq<char> {
        self.name@
    }

    fn symbol(&self) -> (r: FunSymbol) {
        self.symbol
    }

    fn name(&self) -> (r: &str) {
        self.name.as_str()
    }
}

impl Ranged for FunStub {
    open spec fn spec_range(&self) -> Range {
        self.range
    }

    fn range(&self) -> (r: Range) {
        self.range.clone()
    }
}

} // verus!
