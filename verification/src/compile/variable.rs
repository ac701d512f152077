use vstd::prelude::*;
use crate::vm::symbol::{Symbolic, VariableSymbol};

verus! {

/// A named variable and its symbol.
#[derive(Debug, Clone)]
pub struct Variable(pub String, pub VariableSymbol);

impl Symbolic for Variable {
    type Symbol = VariableSymbol;

    open spec fn spec_symbol(&self) -> VariableSymbol {
        self.1
    }

    open spec fn spec_name(&self) -> Seq<char> {
        self.0@
    }

    fn symbol(&self) -> (r: VariableSymbol) {
        self.1
    }

    fn name(&self) -> (r: &str) {
        self.0.as_str()
    }
}

} // verus!
