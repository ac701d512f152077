use vstd::prelude::*;
use crate::common::lang::{Op, OpView};
use crate::common::pos::{Range, RangeWrapper};
use crate::compile::allocator::Alloc;
use crate::compile::error::{Error, ErrorKind, ErrShape, err_shape};
use crate::compile::scope::AllocScope;
use crate::compile::state::{Fun, FunScope, State, find_fun, find_fun_params, find_op, find_ty, is_op_fun};
use crate::compile::ty::{Ty, TyScope};
use crate::compile::value::{has_var, first_named};
use crate::ir::symbol;
use crate::ir::value::{Const, Value, ValueKind, ValueShape, value_shape, value_shapes};
use crate::util::{owned, str_eq};
use crate::vm::bc::{
    self, Bc, BcShape, OperandShape, Ref, RefShape, bc_shape, code_shape, const_shape, operand_shape,
    ref_shape, stored_ref, lemma_code_shape_add, lemma_code_shape_push,
};
use crate::vm::symbol::{FunSymbol, RegSymbol, TySymbol, Symbolic};
use crate::compile::transform::Transform;

verus! {

/// Where the value that a piece of code computes goes.
#[derive(Debug, Clone, Copy)]
pub enum ValueContextKind {
    /// Into the given reference.
    Store(Ref),
    /// Onto the stack.
    Push,
    /// Out of the function, as its result.
    Ret,
}

/// The shape of where a value goes.
pub enum KindShape {
    Store(RefShape),
    Push,
    Ret,
}

/// The shape of where a value goes.
pub open spec fn context_shape(k: ValueContextKind) -> KindShape {
    match k {
        ValueContextKind::Store(r) => KindShape::Store(ref_shape(r)),
        ValueContextKind::Push => KindShape::Push,
        ValueContextKind::Ret => KindShape::Ret,
    }
}

/// The instruction that puts a value where the context wants it.
pub open spec fn emit_shape(k: KindShape, v: OperandShape) -> BcShape {
    match k {
        KindShape::Store(r) => BcShape::Store(r, v),
        KindShape::Push => BcShape::Push(v),
        KindShape::Ret => BcShape::PushRet(v),
    }
}

/// What follows a call, whose result is on the stack: popped into the reference, left on the
/// stack, or returned.
pub open spec fn call_tail(k: KindShape) -> Seq<BcShape> {
    match k {
        KindShape::Store(r) => seq![BcShape::PopStore(r)],
        KindShape::Push => Seq::empty(),
        KindShape::Ret => seq![BcShape::Ret],
    }
}

/// The code that computes a value into a context, with the visible functions and types, or the
/// error met first. Constants and symbols are put where the context wants them; a binary or
/// unary expression computes its operands into anonymous registers and calls the function of
/// its operator; a call pushes its arguments in order and then calls the function of that
/// name and number of parameters, or else computes the function and calls what it gives.
pub open spec fn value_code(k: KindShape, v: ValueShape, funs: Seq<Fun>, tys: Seq<Ty>) -> Result<Seq<BcShape>, ErrShape>
    decreases v,
{
    match v {
        ValueShape::Str(_) => Ok(seq![emit_shape(k, OperandShape::Const(v))]),
        ValueShape::Int(_, _) => Ok(seq![emit_shape(k, OperandShape::Const(v))]),
        ValueShape::Float(_) => Ok(seq![emit_shape(k, OperandShape::Const(v))]),
        ValueShape::Var(_) => Ok(seq![emit_shape(k, OperandShape::Ref(RefShape::Reg))]),
        ValueShape::Fun(n) => match find_fun(funs, n, 0) {
            None => Err(ErrShape::UnknownFun(n)),
            Some(f) => Ok(seq![emit_shape(k, OperandShape::Ref(RefShape::Fun(f.spec_symbol())))]),
        },
        ValueShape::Ty(n) => match find_ty(tys, n, 0) {
            None => Err(ErrShape::UnknownTy(n)),
            Some(t) => Ok(seq![emit_shape(k, OperandShape::Ref(RefShape::Ty(t.spec_symbol())))]),
        },
        ValueShape::Index(_, _) => Ok(Seq::empty()),
        ValueShape::Binary(l, op, r) => match find_op(funs, op, 2, 0) {
            None => Err(ErrShape::UnknownBinaryOp(op)),
            Some(f) => match value_code(KindShape::Store(RefShape::Reg), *l, funs, tys) {
                Err(e) => Err(e),
                Ok(lc) => match value_code(KindShape::Store(RefShape::Reg), *r, funs, tys) {
                    Err(e) => Err(e),
                    Ok(rc) => Ok(lc + rc + seq![
                        BcShape::Push(OperandShape::Ref(RefShape::Reg)),
                        BcShape::Push(OperandShape::Ref(RefShape::Reg)),
                        BcShape::Call(f.spec_symbol()),
                        emit_shape(k, OperandShape::Ref(RefShape::Reg)),
                    ]),
                },
            },
        },
        ValueShape::Unary(op, x) => match find_op(funs, op, 1, 0) {
            None => Err(ErrShape::UnknownUnaryOp(op)),
            Some(_) => match value_code(KindShape::Store(RefShape::Reg), *x, funs, tys) {
                Err(e) => Err(e),
                Ok(xc) => Ok(xc.push(emit_shape(k, OperandShape::Ref(RefShape::Reg)))),
            },
        },
        ValueShape::Call(f, args) => match args_code(args, funs, tys) {
            Err(e) => Err(e),
            Ok(ac) => match *f {
                ValueShape::Fun(n) => match find_fun_params(funs, n, args.len(), 0) {
                    None => Err(ErrShape::UnknownFun(n)),
                    Some(g) => Ok(ac.push(BcShape::Call(g.spec_symbol())) + call_tail(k)),
                },
                _ => match value_code(KindShape::Push, *f, funs, tys) {
                    Err(e) => Err(e),
                    Ok(fc) => Ok(ac + fc.push(BcShape::PopCall) + call_tail(k)),
                },
            },
        },
    }
}

/// The code that pushes a list of values in order, or the error met first.
pub open spec fn args_code(args: Seq<ValueShape>, funs: Seq<Fun>, tys: Seq<Ty>) -> Result<Seq<BcShape>, ErrShape>
    decreases args,
{
    if args.len() == 0 {
        Ok(Seq::empty())
    } else {
        match args_code(args.drop_last(), funs, tys) {
            Err(e) => Err(e),
            Ok(c) => match value_code(KindShape::Push, args.last(), funs, tys) {
                Err(e) => Err(e),
                Ok(lc) => Ok(c + lc),
            },
        }
    }
}

/// The most anonymous registers that computing a value reserves.
pub open spec fn anon_count(v: ValueShape) -> nat
    decreases v,
{
    match v {
        ValueShape::Binary(l, _, r) => anon_count(*l) + anon_count(*r) + 3,
        ValueShape::Unary(_, x) => anon_count(*x) + 1,
        ValueShape::Call(f, args) => anon_count(*f) + anon_counts(args),
        ValueShape::Index(a, i) => anon_count(*a) + anon_count(*i),
        _ => 0,
    }
}

/// The most anonymous registers that computing a list of values reserves.
pub open spec fn anon_counts(vs: Seq<ValueShape>) -> nat
    decreases vs,
{
    if vs.len() == 0 {
        0
    } else {
        anon_counts(vs.drop_last()) + anon_count(vs.last())
    }
}

/// Whether a value indexes no array: indexing is not compiled.
pub open spec fn no_index(v: ValueShape) -> bool
    decreases v,
{
    match v {
        ValueShape::Index(_, _) => false,
        ValueShape::Binary(l, _, r) => no_index(*l) && no_index(*r),
        ValueShape::Unary(_, x) => no_index(*x),
        ValueShape::Call(f, args) => no_index(*f) && forall|i: int| 0 <= i < args.len() ==> no_index(#[trigger] args[i]),
        _ => true,
    }
}

/// Whether a value reads the variable `n`.
pub open spec fn reads_var(v: ValueShape, n: Seq<char>) -> bool
    decreases v,
{
    match v {
        ValueShape::Var(m) => m == n,
        ValueShape::Index(a, i) => reads_var(*a, n) || reads_var(*i, n),
        ValueShape::Binary(l, _, r) => reads_var(*l, n) || reads_var(*r, n),
        ValueShape::Unary(_, x) => reads_var(*x, n),
        ValueShape::Call(f, args) => reads_var(*f, n) || exists|i: int| 0 <= i < args.len() && reads_var(#[trigger] args[i], n),
        _ => false,
    }
}

/// The scopes are ready for compiling: consistent, with a layer of variables whose register
/// allocator has a layer.
pub open spec fn ready(s: State) -> bool {
    &&& s.var_scope.wf()
    &&& s.var_scope.depth() > 0
    &&& s.var_scope.inner().allocator().can_pop()
    &&& s.fun_scope.scope_spec().wf()
    &&& s.ty_scope.scope_spec().wf()
    &&& s.label_scope.wf()
}

/// Compiling took the scopes from `a` to `b`: only variables were added, within `budget`
/// registers reserved in the current layer; functions, types and labels are unchanged.
pub open spec fn kept_within(a: State, b: State, budget: nat) -> bool {
    &&& ready(b)
    &&& b.var_scope.depth() == a.var_scope.depth()
    &&& b.var_scope.inner().allocator().upcoming().global == a.var_scope.inner().allocator().upcoming().global
    &&& a.var_scope.inner().allocator().upcoming().local <= b.var_scope.inner().allocator().upcoming().local
    &&& b.var_scope.inner().allocator().upcoming().local <= a.var_scope.inner().allocator().upcoming().local + budget
    &&& forall|n: Seq<char>| has_var(a.var_scope.inner(), n) ==> #[trigger] has_var(b.var_scope.inner(), n)
    &&& b.fun_scope == a.fun_scope
    &&& b.ty_scope == a.ty_scope
    &&& b.label_scope == a.label_scope
}

/// Whether a value can be compiled in the scopes without running out of registers or reading
/// an unknown variable, and indexes no array.
pub open spec fn can_compile(v: ValueShape, s: State) -> bool {
    &&& no_index(v)
    &&& s.var_scope.inner().allocator().upcoming().local + anon_count(v) < usize::MAX
    &&& forall|n: Seq<char>| reads_var(v, n) ==> #[trigger] has_var(s.var_scope.inner(), n)
}

/// The shapes of a list of values are those of its items, one by one.
pub proof fn lemma_value_shapes_index(vs: Seq<Value>)
    ensures
        value_shapes(vs).len() == vs.len(),
        forall|i: int| 0 <= i < vs.len() ==> #[trigger] value_shapes(vs)[i] == value_shape(vs[i]),
    decreases vs.len(),
{
    if vs.len() > 0 {
        lemma_value_shapes_index(vs.drop_last());
    }
}

/// The registers for a prefix of a list of values are within those for the whole list.
pub proof fn lemma_anon_counts_prefix(vs: Seq<ValueShape>, k: int)
    requires
        0 <= k <= vs.len(),
    ensures
        anon_counts(vs.take(k)) <= anon_counts(vs),
    decreases vs.len() - k,
{
    if k < vs.len() {
        lemma_anon_counts_prefix(vs, k + 1);
        assert(vs.take(k + 1).drop_last() =~= vs.take(k));
    } else {
        assert(vs.take(k) =~= vs);
    }
}

/// An error met in a prefix of a list of values is the error met in the whole list.
pub proof fn lemma_args_code_err(vs: Seq<ValueShape>, j: int, funs: Seq<Fun>, tys: Seq<Ty>)
    requires
        0 <= j <= vs.len(),
        args_code(vs.take(j), funs, tys) is Err,
    ensures
        args_code(vs, funs, tys) == args_code(vs.take(j), funs, tys),
    decreases vs.len() - j,
{
    if j < vs.len() {
        assert(vs.take(j + 1).drop_last() =~= vs.take(j));
        lemma_args_code_err(vs, j + 1, funs, tys);
    } else {
        assert(vs.take(j) =~= vs);
    }
}

/// A copy of an operator.
pub(crate) fn copy_op(op: &Op) -> (r: Op)
    ensures
        r@ == op@,
{
    match op {
        Op::Bang => Op::Bang,
        Op::Plus => Op::Plus,
        Op::Minus => Op::Minus,
        Op::Splat => Op::Splat,
        Op::FSlash => Op::FSlash,
        Op::Tilde => Op::Tilde,
        Op::Or => Op::Or,
        Op::And => Op::And,
        Op::DoublePercent => Op::DoublePercent,
        Op::DoubleEquals => Op::DoubleEquals,
        Op::NotEquals => Op::NotEquals,
        Op::DoubleTilde => Op::DoubleTilde,
        Op::LessEquals => Op::LessEquals,
        Op::GreaterEquals => Op::GreaterEquals,
        Op::Less => Op::Less,
        Op::Greater => Op::Greater,
        Op::Custom(s) => Op::Custom(owned(s.as_str())),
    }
}

/// A copy of a constant.
pub(crate) fn copy_const(c: &Const) -> (r: Const)
    ensures
        const_shape(r) == const_shape(*c),
{
    match c {
        Const::Str(s) => Const::Str(owned(s.as_str())),
        Const::Int(s, radix) => Const::Int(owned(s.as_str()), *radix),
        Const::Float(s) => Const::Float(owned(s.as_str())),
    }
}

/// The function of the given name that is visible first.
pub fn lookup_fun(scope: &FunScope, name: &str) -> (r: Option<FunSymbol>)
    requires
        scope.scope_spec().wf(),
    ensures
        r == match find_fun(scope.scope_spec().visible(), name@, 0) {
            Some(f) => Some(f.spec_symbol()),
            None => None,
        },
{
    let vis = scope.scope().iter();
    let ghost all = scope.scope_spec().visible();
    let mut i: usize = 0;
    while i < vis.len()
        invariant
            all == scope.scope_spec().visible(),
            vis@.len() == all.len(),
            forall|k: int| 0 <= k < vis@.len() ==> *vis@[k] == all[k],
            i <= vis@.len(),
            find_fun(all, name@, 0) == find_fun(all, name@, i as int),
        decreases vis@.len() - i,
    {
        let f = vis[i];
        if str_eq(f.name(), name) {
            return Some(f.symbol());
        }
        i += 1;
    }
    None
}

/// The function of the given name and number of parameters that is visible first.
pub fn lookup_fun_params(scope: &FunScope, name: &str, params: usize) -> (r: Option<FunSymbol>)
    requires
        scope.scope_spec().wf(),
    ensures
        r == match find_fun_params(scope.scope_spec().visible(), name@, params as nat, 0) {
            Some(f) => Some(f.spec_symbol()),
            None => None,
        },
{
    let vis = scope.scope().iter();
    let ghost all = scope.scope_spec().visible();
    let mut i: usize = 0;
    while i < vis.len()
        invariant
            all == scope.scope_spec().visible(),
            vis@.len() == all.len(),
            forall|k: int| 0 <= k < vis@.len() ==> *vis@[k] == all[k],
            i <= vis@.len(),
            find_fun_params(all, name@, params as nat, 0) == find_fun_params(all, name@, params as nat, i as int),
        decreases vis@.len() - i,
    {
        let f = vis[i];
        if str_eq(f.name(), name) && f.params() == params {
            return Some(f.symbol());
        }
        i += 1;
    }
    None
}

/// The function of the operator with the given number of parameters that is visible first.
pub fn lookup_op(scope: &FunScope, op: &Op, params: usize) -> (r: Option<FunSymbol>)
    requires
        scope.scope_spec().wf(),
    ensures
        r == match find_op(scope.scope_spec().visible(), op@, params as nat, 0) {
            Some(f) => Some(f.spec_symbol()),
            None => None,
        },
{
    let vis = scope.scope().iter();
    let ghost all = scope.scope_spec().visible();
    let mut i: usize = 0;
    while i < vis.len()
        invariant
            all == scope.scope_spec().visible(),
            vis@.len() == all.len(),
            forall|k: int| 0 <= k < vis@.len() ==> *vis@[k] == all[k],
            i <= vis@.len(),
            find_op(all, op@, params as nat, 0) == find_op(all, op@, params as nat, i as int),
        decreases vis@.len() - i,
    {
        let f = vis[i];
        let hit = match f {
            Fun::Op(o, s) => *o == *op && s.params == params,
            Fun::Stub(_) => false,
        };
        if hit {
            return Some(f.symbol());
        }
        i += 1;
    }
    None
}

/// The type of the given name that is visible first.
pub fn lookup_ty(scope: &TyScope, name: &str) -> (r: Option<TySymbol>)
    requires
        scope.scope_spec().wf(),
    ensures
        r == match find_ty(scope.scope_spec().visible(), name@, 0) {
            Some(t) => Some(t.spec_symbol()),
            None => None,
        },
{
    let vis = scope.scope().iter();
    let ghost all = scope.scope_spec().visible();
    let mut i: usize = 0;
    while i < vis.len()
        invariant
            all == scope.scope_spec().visible(),
            vis@.len() == all.len(),
            forall|k: int| 0 <= k < vis@.len() ==> *vis@[k] == all[k],
            i <= vis@.len(),
            find_ty(all, name@, 0) == find_ty(all, name@, i as int),
        decreases vis@.len() - i,
    {
        let t = vis[i];
        if str_eq(t.name(), name) {
            return Some(t.symbol());
        }
        i += 1;
    }
    None
}

/// The register of the visible variable of the given name, which is known to exist.
fn lookup_var(state: &State, name: &str) -> (r: crate::vm::symbol::RegSymbol)
    requires
        state.var_scope.wf(),
        has_var(state.var_scope.inner(), name@),
    ensures
        r == var_register(*state, name@),
{
    match state.var_scope.get_by_name(name) {
        Some(v) => {
            proof {
                let vis = state.var_scope.inner().scope_spec().visible();
                let i = choose|i: int| {
                    &&& 0 <= i < vis.len()
                    &&& *v == vis[i]
                    &&& v.spec_name() == name@
                    &&& forall|j: int| 0 <= j < i ==> (#[trigger] vis[j]).spec_name() != name@
                };
                assert(first_named(vis, name@, i));
                let j = choose|j: int| first_named(vis, name@, j);
                if j < i {
                    assert(vis[j].spec_name() != name@);
                } else if i < j {
                    assert(vis[i].name@ != name@);
                }
            }
            v.symbol
        },
        None => {
            proof {
                let vis = state.var_scope.inner().scope_spec().visible();
                let i = choose|i: int| 0 <= i < vis.len() && (#[trigger] vis[i]).name@ == name@;
                assert(vis[i].spec_name() != name@);
            }
            crate::vm::symbol::RegSymbol { global: 0, local: 0 }
        },
    }
}

/// Compiles values into a context: where the computed value goes.
pub struct ValueContext {
    pub kind: ValueContextKind,
}

/// Code that computes a value into a context ends by putting it there: into a reference, by
/// storing into that reference; onto the stack, by pushing it or by a call, which leaves its
/// result there; out of the function, by returning.
pub open spec fn delivers(k: ValueContextKind, code: Seq<Bc>) -> bool {
    &&& code.len() > 0
    &&& match k {
        ValueContextKind::Store(rf) => stored_ref(code.last()) == Some(rf),
        ValueContextKind::Push => code.last() is Push || code.last() is Call || code.last() is PopCall,
        ValueContextKind::Ret => code.last() is PushRet || code.last() is Ret,
    }
}

/// The length of code that was made, or 0 where an error was met.
pub open spec fn made_len(r: Result<Seq<BcShape>, ErrShape>) -> int {
    match r {
        Ok(c) => c.len() as int,
        Err(_) => 0,
    }
}

/// Code whose first `split` instructions compute the left operand of a binary operator, and
/// whose instructions after those up to the last four compute the right one, calls the
/// operator on the operands in order: it pushes the reference that the left operand's code
/// stores into, then the one that the right operand's code stores into, then calls.
pub open spec fn operands_pushed_in_order(code: Seq<Bc>, split: int) -> bool {
    let n = code.len() as int;
    &&& 0 < split < n - 4
    &&& stored_ref(code[split - 1]) matches Some(a) && code[n - 4] == Bc::Push(bc::Value::Ref(a))
    &&& stored_ref(code[n - 5]) matches Some(b) && code[n - 3] == Bc::Push(bc::Value::Ref(b))
    &&& code[n - 2] is Call
}

/// For a binary expression, the code calls the operator on its operands in order; the left
/// operand's code is as long as the code that the visible functions and types give it.
pub open spec fn binary_in_order(value: Value, code: Seq<Bc>, funs: Seq<Fun>, tys: Seq<Ty>) -> bool {
    match value.1 {
        ValueKind::BinaryExpr(l, _, _) => operands_pushed_in_order(
            code,
            made_len(value_code(KindShape::Store(RefShape::Reg), value_shape(*l), funs, tys)),
        ),
        _ => true,
    }
}

/// The instruction that puts a value where the context wants it: stored into the context's
/// reference, pushed, or returned.
pub open spec fn emitted(k: ValueContextKind, v: bc::Value) -> Bc {
    match k {
        ValueContextKind::Store(rf) => Bc::Store(rf, v),
        ValueContextKind::Push => Bc::Push(v),
        ValueContextKind::Ret => Bc::PushRet(v),
    }
}

/// The register of the most local visible variable named `n`.
pub open spec fn var_register(s: State, n: Seq<char>) -> RegSymbol {
    let vis = s.var_scope.inner().scope_spec().visible();
    vis[choose|i: int| first_named(vis, n, i)].symbol
}

/// Only one visible variable of a name is the most local one.
pub proof fn lemma_first_named_unique(vars: Seq<crate::compile::value::Var>, n: Seq<char>, i: int, j: int)
    requires
        first_named(vars, n, i),
        first_named(vars, n, j),
    ensures
        i == j,
{
    if j < i {
        assert(vars[j].name@ != n);
    } else if i < j {
        assert(vars[i].name@ != n);
    }
}

/// A variable is read from its register, the one of the most local visible variable of its
/// name, and the value put where the context wants it; an operand of a unary operator is put
/// there from the register that the operand's code stores into.
pub open spec fn reads_registers(value: Value, k: ValueContextKind, s: State, code: Seq<Bc>) -> bool {
    match value.1 {
        ValueKind::Symbol(symbol::Symbol::Variable(n)) =>
            code == seq![emitted(k, bc::Value::Ref(Ref::Reg(var_register(s, n@))))],
        ValueKind::UnaryExpr(_, _) => code.len() >= 2 && match stored_ref(code[code.len() - 2]) {
            Some(x) => code.last() == emitted(k, bc::Value::Ref(x)),
            None => false,
        },
        _ => true,
    }
}

/// The instruction that puts a value where the context wants it.
pub(crate) fn emit(kind: ValueContextKind, v: bc::Value) -> (r: Bc)
    ensures
        bc_shape(r) == emit_shape(context_shape(kind), operand_shape(v)),
        r == emitted(kind, v),
{
    match kind {
        ValueContextKind::Store(r) => Bc::Store(r, v),
        ValueContextKind::Push => Bc::Push(v),
        ValueContextKind::Ret => Bc::PushRet(v),
    }
}

impl Transform<bc::Value> for ValueContextKind {
    type Out = Bc;

    /// The instruction that puts the value where this context wants it.
    fn transform(self, value: bc::Value) -> Bc {
        emit(self, value)
    }
}

impl ValueContext {
    /// A context that puts values where `kind` says.
    pub fn new(kind: ValueContextKind) -> (r: Self)
        ensures
            r.kind == kind,
    {
        ValueContext { kind }
    }

    /// Compiles a value into this context.
    #[verifier::spinoff_prover]
    #[verifier::rlimit(100)]
    pub fn try_transform(self, state: &mut State, value: &Value) -> (r: Result<Vec<Bc>, Error>)
        requires
            ready(*old(state)),
            can_compile(value_shape(*value), *old(state)),
        ensures
            kept_within(*old(state), *final(state), anon_count(value_shape(*value))),
            match r {
                Ok(code) => value_code(context_shape(self.kind), value_shape(*value),
                    old(state).fun_scope.scope_spec().visible(), old(state).ty_scope.scope_spec().visible())
                    == Ok::<Seq<BcShape>, ErrShape>(code_shape(code@)),
                Err(e) => value_code(context_shape(self.kind), value_shape(*value),
                    old(state).fun_scope.scope_spec().visible(), old(state).ty_scope.scope_spec().visible())
                    == Err::<Seq<BcShape>, ErrShape>(err_shape(e)),
            },
            r matches Ok(code) ==> delivers(self.kind, code@),
            r matches Ok(code) ==> reads_registers(*value, self.kind, *old(state), code@),
            r matches Ok(code) ==> binary_in_order(*value, code@,
                old(state).fun_scope.scope_spec().visible(), old(state).ty_scope.scope_spec().visible()),
        decreases value,
    {
        let ghost funs = state.fun_scope.scope_spec().visible();
        let ghost tys = state.ty_scope.scope_spec().visible();
        let ghost k = context_shape(self.kind);
        let ghost vs = value_shape(*value);
        let range = value.0.clone();
        match &value.1 {
            ValueKind::Const(c) => {
                let b = emit(self.kind, bc::Value::Const(copy_const(c)));
                let code = vec![b];
                proof {
                    assert(code_shape(code@) =~= seq![bc_shape(b)]);
                }
                Ok(code)
            },
            ValueKind::Symbol(symbol::Symbol::Variable(name)) => {
                proof {
                    assert(reads_var(vs, name@));
                }
                let reg = lookup_var(state, name.as_str());
                let b = emit(self.kind, bc::Value::Ref(Ref::Reg(reg)));
                let code = vec![b];
                proof {
                    assert(code_shape(code@) =~= seq![bc_shape(b)]);
                    assert(code@ =~= seq![b]);
                }
                Ok(code)
            },
            ValueKind::Symbol(symbol::Symbol::Fun(name)) => {
                match lookup_fun(&state.fun_scope, name.as_str()) {
                    Some(f) => {
                        let b = emit(self.kind, bc::Value::Ref(Ref::Fun(f)));
                        let code = vec![b];
                        proof {
                            assert(code_shape(code@) =~= seq![bc_shape(b)]);
                        }
                        Ok(code)
                    },
                    None => Err(Error { range, kind: ErrorKind::UnknownFun(owned(name.as_str())) }),
                }
            },
            ValueKind::Symbol(symbol::Symbol::Ty(name)) => {
                match lookup_ty(&state.ty_scope, name.as_str()) {
                    Some(t) => {
                        let b = emit(self.kind, bc::Value::Ref(Ref::Ty(t)));
                        let code = vec![b];
                        proof {
                            assert(code_shape(code@) =~= seq![bc_shape(b)]);
                        }
                        Ok(code)
                    },
                    None => Err(Error { range, kind: ErrorKind::UnknownTy(owned(name.as_str())) }),
                }
            },
            ValueKind::ArrayAccess(_, _) => {
                proof {
                    assert(false);
                }
                Ok(Vec::new())
            },
            ValueKind::BinaryExpr(lhs, op, rhs) => {
                let op_fun = match lookup_op(&state.fun_scope, op, 2) {
                    Some(f) => f,
                    None => {
                        return Err(Error { range, kind: ErrorKind::UnknownBinaryOp(copy_op(op)) });
                    },
                };
                let ghost s0 = *state;
                let lhs_sym = state.var_scope.insert_anonymous_var();
                let ghost s1 = *state;
                let mut code = match ValueContext::new(ValueContextKind::Store(Ref::Reg(lhs_sym))).try_transform(state, lhs) {
                    Ok(c) => c,
                    Err(e) => {
                        return Err(e);
                    },
                };
                let ghost s2 = *state;
                let rhs_sym = state.var_scope.insert_anonymous_var();
                let ghost s3 = *state;
                let mut rhs_code = match ValueContext::new(ValueContextKind::Store(Ref::Reg(rhs_sym))).try_transform(state, rhs) {
                    Ok(c) => c,
                    Err(e) => {
                        return Err(e);
                    },
                };
                let ghost lc = code@;
                let ghost rc = rhs_code@;
                code.append(&mut rhs_code);
                let b1 = Bc::Push(bc::Value::Ref(Ref::Reg(lhs_sym)));
                let b2 = Bc::Push(bc::Value::Ref(Ref::Reg(rhs_sym)));
                let b3 = Bc::Call(op_fun);
                code.push(b1);
                code.push(b2);
                code.push(b3);
                state.var_scope.free_anonymous_var(lhs_sym);
                state.var_scope.free_anonymous_var(rhs_sym);
                let result = state.var_scope.insert_anonymous_var();
                let b4 = emit(self.kind, bc::Value::Ref(Ref::Reg(result)));
                code.push(b4);
                state.var_scope.free_anonymous_var(result);
                proof {
                    lemma_code_shape_add(lc, rc);
                    lemma_code_shape_push(lc + rc, b1);
                    lemma_code_shape_push((lc + rc).push(b1), b2);
                    lemma_code_shape_push((lc + rc).push(b1).push(b2), b3);
                    lemma_code_shape_push((lc + rc).push(b1).push(b2).push(b3), b4);
                    assert(code@ == (lc + rc).push(b1).push(b2).push(b3).push(b4));
                    assert(code_shape(lc) + code_shape(rc) + seq![bc_shape(b1), bc_shape(b2), bc_shape(b3), bc_shape(b4)]
                        =~= code_shape(lc + rc).push(bc_shape(b1)).push(bc_shape(b2)).push(bc_shape(b3)).push(bc_shape(b4)));
                }
                Ok(code)
            },
            ValueKind::UnaryExpr(op, x) => {
                match lookup_op(&state.fun_scope, op, 1) {
                    Some(_) => {},
                    None => {
                        return Err(Error { range, kind: ErrorKind::UnknownUnaryOp(copy_op(op)) });
                    },
                }
                let sym = state.var_scope.insert_anonymous_var();
                let mut code = match ValueContext::new(ValueContextKind::Store(Ref::Reg(sym))).try_transform(state, x) {
                    Ok(c) => c,
                    Err(e) => {
                        return Err(e);
                    },
                };
                let ghost xc = code@;
                let b = emit(self.kind, bc::Value::Ref(Ref::Reg(sym)));
                code.push(b);
                state.var_scope.free_anonymous_var(sym);
                proof {
                    lemma_code_shape_push(xc, b);
                    assert(code@ == xc.push(b));
                    assert(code@[code@.len() - 2] == xc.last());
                }
                Ok(code)
            },
            ValueKind::FunCall(fun, args) => {
                let ghost avs = value_shapes(args@);
                proof {
                    lemma_value_shapes_index(args@);
                    assert(avs.take(0) =~= Seq::<ValueShape>::empty());
                    assert forall|i: int| 0 <= i < args@.len() implies decreases_to!(*value => #[trigger] args@[i]) by {
                        assert(decreases_to!(*value => value.1));
                        assert(decreases_to!(value.1 => *args));
                        assert(decreases_to!(*args => args@));
                        assert(decreases_to!(args@ => args@[i]));
                    }
                }
                let ghost start = *state;
                let mut code: Vec<Bc> = Vec::new();
                proof {
                    assert(code_shape(code@) =~= Seq::<BcShape>::empty());
                }
                let mut i: usize = 0;
                while i < args.len()
                    invariant
                        i <= args@.len(),
                        avs == value_shapes(args@),
                        avs.len() == args@.len(),
                        forall|j: int| 0 <= j < args@.len() ==> #[trigger] avs[j] == value_shape(args@[j]),
                        forall|j: int| 0 <= j < args@.len() ==> decreases_to!(*value => #[trigger] args@[j]),
                        vs == ValueShape::Call(Box::new(value_shape(**fun)), avs),
                        vs == value_shape(*value),
                        k == context_shape(self.kind),
                        ready(start),
                        can_compile(vs, start),
                        start == *old(state),
                        kept_within(start, *state, anon_counts(avs.take(i as int))),
                        args_code(avs.take(i as int), funs, tys) == Ok::<Seq<BcShape>, ErrShape>(code_shape(code@)),
                        funs == start.fun_scope.scope_spec().visible(),
                        tys == start.ty_scope.scope_spec().visible(),
                    decreases args@.len() - i,
                {
                    let ghost before = code@;
                    let ghost si = *state;
                    proof {
                        lemma_anon_counts_prefix(avs, i + 1);
                        assert(avs.take(i + 1).drop_last() =~= avs.take(i as int));
                        assert(avs.take(i + 1).last() == avs[i as int]);
                        assert(no_index(avs[i as int]));
                        assert forall|n: Seq<char>| reads_var(avs[i as int], n) implies #[trigger] has_var(state.var_scope.inner(), n) by {
                            assert(reads_var(vs, n));
                        }
                    }
                    let mut c = match ValueContext::new(ValueContextKind::Push).try_transform(state, &args[i]) {
                        Ok(c) => c,
                        Err(e) => {
                            proof {
                                lemma_args_code_err(avs, i + 1, funs, tys);
                            }
                            return Err(e);
                        },
                    };
                    let ghost ac = c@;
                    code.append(&mut c);
                    proof {
                        lemma_code_shape_add(before, ac);
                    }
                    i += 1;
                }
                proof {
                    assert(avs.take(args@.len() as int) =~= avs);
                }
                let ghost argc = code@;
                let ghost sa = *state;
                match &fun.1 {
                    ValueKind::Symbol(symbol::Symbol::Fun(name)) => {
                        match lookup_fun_params(&state.fun_scope, name.as_str(), args.len()) {
                            Some(f) => {
                                let b = Bc::Call(f);
                                code.push(b);
                                proof {
                                    lemma_code_shape_push(argc, b);
                                }
                            },
                            None => {
                                return Err(Error { range, kind: ErrorKind::UnknownFun(owned(name.as_str())) });
                            },
                        }
                    },
                    _ => {
                        proof {
                            assert(no_index(value_shape(**fun)));
                            assert forall|n: Seq<char>| reads_var(value_shape(**fun), n) implies #[trigger] has_var(state.var_scope.inner(), n) by {
                                assert(reads_var(vs, n));
                            }
                        }
                        let mut fc = match ValueContext::new(ValueContextKind::Push).try_transform(state, fun) {
                            Ok(c) => c,
                            Err(e) => {
                                return Err(e);
                            },
                        };
                        let ghost fcs = fc@;
                        code.append(&mut fc);
                        let b = Bc::PopCall;
                        code.push(b);
                        proof {
                            lemma_code_shape_add(argc, fcs);
                            lemma_code_shape_push(argc + fcs, b);
                            assert(code_shape(argc) + code_shape(fcs).push(BcShape::PopCall)
                                =~= (code_shape(argc) + code_shape(fcs)).push(BcShape::PopCall));
                        }
                    },
                }
                let ghost before_tail = code@;
                match self.kind {
                    ValueContextKind::Store(r) => {
                        let b = Bc::PopStore(r);
                        code.push(b);
                        proof {
                            lemma_code_shape_push(before_tail, b);
                            assert(code_shape(before_tail).push(bc_shape(b)) =~= code_shape(before_tail) + call_tail(k));
                        }
                    },
                    ValueContextKind::Push => {
                        proof {
                            assert(code_shape(code@) + call_tail(k) =~= code_shape(code@));
                        }
                    },
                    ValueContextKind::Ret => {
                        let b = Bc::Ret;
                        code.push(b);
                        proof {
                            lemma_code_shape_push(before_tail, b);
                            assert(code_shape(before_tail).push(bc_shape(b)) =~= code_shape(before_tail) + call_tail(k));
                        }
                    },
                }
                Ok(code)
            },
        }
    }
}

} // verus!
