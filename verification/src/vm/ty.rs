use vstd::prelude::*;
use crate::vm::symbol::{Symbolic, TySymbol};

verus! {

/// A type known to the VM.
#[derive(Debug, Clone)]
pub enum Ty {
    User(UserTy),
    Builtin(BuiltinTy, TySymbol),
}

/// A type that the program defines.
#[derive(Debug, Clone)]
pub struct UserTy {
    pub name: String,
    pub symbol: TySymbol,
}

/// A type built into the VM.
#[derive(Debug, Clone, Copy, PartialEq, Eq, Structural)]
pub enum BuiltinTy {
    Str,
    Int,
    Float,
    Bool,
    NoneTy,
}

/// The name of a built-in type.
pub open spec fn builtin_ty_name(t: BuiltinTy) -> Seq<char> {
    match t {
        BuiltinTy::Str => "Str"@,
        BuiltinTy::Int => "Int"@,
        BuiltinTy::Float => "Float"@,
        BuiltinTy::Bool => "Bool"@,
        BuiltinTy::NoneTy => "None"@,
    }
}

impl BuiltinTy {
    pub fn name(&self) -> (r: &'static str)
        ensures
            r@ == builtin_ty_name(*self),
    {
        match self {
            BuiltinTy::Str => "Str",
            BuiltinTy::Int => "Int",
            BuiltinTy::Float => "Float",
            BuiltinTy::Bool => "Bool",
            BuiltinTy::NoneTy => "None",
        }
    }
}

impl Symbolic for Ty {
    type Symbol = TySymbol;

    open spec fn spec_symbol(&self) -> TySymbol {
        match self {
            Ty::User(u) => u.symbol,
            Ty::Builtin(_, s) => *s,
        }
    }

    open spec fn spec_name(&self) -> Seq<char> {
        match self {
            Ty::User(u) => u.name@,
            Ty::Builtin(b, _) => builtin_ty_name(*b),
        }
    }

    fn symbol(&self) -> (r: TySymbol) {
        match self {
            Ty::User(u) => u.symbol,
            Ty::Builtin(_, s) => *s,
        }
    }

    fn name(&self) -> (r: &str) {
        match self {
            Ty::User(u) => u.name.as_str(),
            Ty::Builtin(b, _) => b.name(),
        }
    }
}

} // verus!
