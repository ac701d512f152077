use vstd::prelude::*;
use crate::vm::symbol::FunSymbol;

verus! {

/// A function stub collected while compiling, so that functions may be declared in any order.
#[derive(Debug, Clone)]
pub struct FunctionStub {
    /// The function's symbol.
    pub symbol: FunSymbol,
    /// The number of its parameters. Their types are not enforced at this point.
    pub param_count: usize,
}

} // verus!
