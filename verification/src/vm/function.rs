use vstd::prelude::*;
use crate::vm::symbol::{FunSymbol, Symbolic};

verus! {

/// A user-defined function.
#[derive(Debug, Clone)]
pub struct UserFun {
    pub symbol: FunSymbol,
    pub name: String,
    pub params: usize,
}

impl Symbolic for UserFun {
    type Symbol = FunSymbol;

    open spec fn spec_symbol(&self) -> FunSymbol {
        self.symbol
    }

    open spec fn spec_name(&self) -> Seq<char> {
        self.name@
    }

    fn symbol(&self) -> (r: FunSymbol) {
        self.symbol
    }

    fn name(&self) -> (r: &str) {
        self.name.as_str()
    }
}

} // verus!
