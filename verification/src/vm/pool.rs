use vstd::prelude::*;
use crate::vm::symbol::{Symbol, Symbolic};

verus! {

/// A read-only pool of program data, indexed by symbol.
pub trait Pool {
    type Symbolic: Symbolic;

    /// Whether the pool holds a value for the symbol.
    spec fn holds(&self, symbol: <Self::Symbolic as Symbolic>::Symbol) -> bool;

    /// Gets the value with the given symbol.
    fn get(&self, symbol: <Self::Symbolic as Symbolic>::Symbol) -> (r: &Self::Symbolic)
        requires
            self.holds(symbol),
        ensures
            r.spec_symbol().rank() == symbol.rank(),
    ;
}

} // verus!
