use vstd::prelude::*;
use crate::common::pos::{Range, Ranged};
use crate::compile::allocator::TySymbolAlloc;
use crate::compile::scope::AllocScope;
use crate::vm;
use crate::vm::symbol::{Symbolic, TySymbol};

verus! {

/// A compile-time type: a type stub found before compiling, or a compiled VM type.
#[derive(Debug)]
pub enum Ty {
    Stub(TyStub),
    Vm(vm::ty::Ty),
}

/// A type found at compile time, not compiled yet.
#[derive(Debug)]
pub struct TyStub {
    pub name: String,
    pub symbol: TySymbol,
    pub range: Range,
}

impl Symbolic for Ty {
    type Symbol = TySymbol;

    open spec fn spec_symbol(&self) -> TySymbol {
        match self {
            Ty::Stub(s) => s.symbol,
            Ty::Vm(v) => v.spec_symbol(),
        }
    }

    open spec fn spec_name(&self) -> Seq<char> {
        match self {
            Ty::Stub(s) => s.name@,
            Ty::Vm(v) => v.spec_name(),
        }
    }

    fn symbol(&self) -> (r: TySymbol) {
        match self {
            Ty::Stub(s) => s.symbol,
            Ty::Vm(v) => v.symbol(),
        }
    }

    fn name(&self) -> (r: &str) {
        match self {
            Ty::Stub(s) => s.name.as_str(),
            Ty::Vm(v) => v.name(),
        }
    }
}

impl Ranged for TyStub {
    open spec fn spec_range(&self) -> Range {
        self.range
    }

    fn range(&self) -> (r: Range) {
        self.range.clone()
    }
}

impl Ranged for Ty {
    /// A stub has the range it was found at; a VM type comes from no source.
    open spec fn spec_range(&self) -> Range {
        match self {
            Ty::Stub(s) => s.range,
            Ty::Vm(_) => Range::Builtin,
        }
    }

    fn range(&self) -> (r: Range) {
        match self {
            Ty::Stub(s) => s.range(),
            Ty::Vm(_) => Range::Builtin,
        }
    }
}

/// A scope of compile-time types.
pub type TyScope = AllocScope<Ty, TySymbolAlloc>;

} // verus!
