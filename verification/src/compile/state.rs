use vstd::prelude::*;
use crate::common::lang::{Op, OpView};
use crate::compile::allocator::{Alloc, FunSymbolAlloc};
use crate::compile::function::FunStub;
use crate::compile::scope::{AllocScope, LabelScope};
use crate::compile::ty::{Ty, TyScope};
use crate::compile::value::VarScope;
use crate::vm::symbol::{FunSymbol, Symbolic};

verus! {

/// A function known while compiling: a function of its own name, or the function of an
/// operator.
#[derive(Debug)]
pub enum Fun {
    Stub(FunStub),
    Op(Op, FunStub),
}

impl Fun {
    /// The signature of the function.
    pub open spec fn stub(&self) -> FunStub {
        match self {
            Fun::Stub(s) => *s,
            Fun::Op(_, s) => *s,
        }
    }

    /// The number of parameters of the function.
    pub fn params(&self) -> (r: usize)
        ensures
            r == self.stub().params,
    {
        match self {
            Fun::Stub(s) => s.params,
            Fun::Op(_, s) => s.params,
        }
    }
}

impl Symbolic for Fun {
    type Symbol = FunSymbol;

    open spec fn spec_symbol(&self) -> FunSymbol {
        self.stub().symbol
    }

    open spec fn spec_name(&self) -> Seq<char> {
        self.stub().name@
    }

    fn symbol(&self) -> (r: FunSymbol) {
        match self {
            Fun::Stub(s) => s.symbol,
            Fun::Op(_, s) => s.symbol,
        }
    }

    fn name(&self) -> (r: &str) {
        match self {
            Fun::Stub(s) => s.name.as_str(),
            Fun::Op(_, s) => s.name.as_str(),
        }
    }
}

/// The scope of functions.
pub type FunScope = AllocScope<Fun, FunSymbolAlloc>;

/// The scopes that compiling works in.
pub struct State {
    pub var_scope: VarScope,
    pub fun_scope: FunScope,
    pub ty_scope: TyScope,
    pub label_scope: LabelScope,
}

/// The first function of `funs`, from index `i` on, whose name is `n`.
pub open spec fn find_fun(funs: Seq<Fun>, n: Seq<char>, i: int) -> Option<Fun>
    decreases funs.len() - i,
{
    if i < 0 || i >= funs.len() {
        None
    } else if funs[i].spec_name() == n {
        Some(funs[i])
    } else {
        find_fun(funs, n, i + 1)
    }
}

/// The first function of `funs`, from index `i` on, with the name `n` and `params`
/// parameters.
pub open spec fn find_fun_params(funs: Seq<Fun>, n: Seq<char>, params: nat, i: int) -> Option<Fun>
    decreases funs.len() - i,
{
    if i < 0 || i >= funs.len() {
        None
    } else if funs[i].spec_name() == n && funs[i].stub().params == params {
        Some(funs[i])
    } else {
        find_fun_params(funs, n, params, i + 1)
    }
}

/// Whether a function is the function of operator `op` with `params` parameters.
pub open spec fn is_op_fun(f: Fun, op: OpView, params: nat) -> bool {
    f matches Fun::Op(o, s) && o@ == op && s.params == params
}

/// The first function of `funs`, from index `i` on, of the operator `op` with `params`
/// parameters.
pub open spec fn find_op(funs: Seq<Fun>, op: OpView, params: nat, i: int) -> Option<Fun>
    decreases funs.len() - i,
{
    if i < 0 || i >= funs.len() {
        None
    } else if is_op_fun(funs[i], op, params) {
        Some(funs[i])
    } else {
        find_op(funs, op, params, i + 1)
    }
}

/// The first type of `tys`, from index `i` on, whose name is `n`.
pub open spec fn find_ty(tys: Seq<Ty>, n: Seq<char>, i: int) -> Option<Ty>
    decreases tys.len() - i,
{
    if i < 0 || i >= tys.len() {
        None
    } else if tys[i].spec_name() == n {
        Some(tys[i])
    } else {
        find_ty(tys, n, i + 1)
    }
}

} // verus!
