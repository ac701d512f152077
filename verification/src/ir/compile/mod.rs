use vstd::prelude::*;
use crate::common::lang::{Op, OpView};
use crate::compile::allocator::Alloc;
use crate::compile::context::{
    ValueContextKind, KindShape, context_shape, emit, emit_shape, copy_const, copy_op, lookup_fun,
    ready, kept_within, value_code, emitted, var_register, lemma_first_named_unique,
};
use crate::compile::error::{Error, ErrorKind, ErrShape, err_shape};
use crate::compile::state::{Fun, State, find_fun};
use crate::compile::value::{has_var, first_named};
use crate::ir::symbol;
use crate::ir::value::{Value, ValueKind, ValueShape, value_shape, value_shapes};
use crate::util::owned;
use crate::vm::bc::{
    self, Bc, BcShape, Condition, ConditionShape, OperandShape, Ref, RefShape, bc_shape, code_shape,
    lemma_code_shape_add, lemma_code_shape_push, stored_ref,
};
use crate::vm::condition::{CompareOp, compare_op_of};
use crate::vm::symbol::Symbolic;
use crate::vm::function::UserFun;

pub mod scope;
pub mod function;

verus! {

/// What compiling a program gives: its main function and every function it defines.
#[derive(Debug)]
pub struct CompileUnit {
    pub name: String,
    pub main_function: UserFun,
    pub functions: Vec<UserFun>,
}

/// Whether a value is an immediate: a constant or a symbol, used where it stands.
pub open spec fn is_immediate(v: ValueShape) -> bool {
    v is Str || v is Int || v is Float || v is Var || v is Fun || v is Ty
}

/// The operand that an immediate stands for: a constant, or the register of the variable that
/// the symbol's name is looked up or registered as.
pub open spec fn immediate_shape(v: ValueShape) -> OperandShape {
    if v is Str || v is Int || v is Float {
        OperandShape::Const(v)
    } else {
        OperandShape::Ref(RefShape::Reg)
    }
}

/// The instruction that applies a binary operator into a context; a value to be returned is
/// stored into a register of its own.
pub open spec fn binop_shape(k: KindShape, l: OperandShape, op: OpView, r: OperandShape) -> BcShape {
    match k {
        KindShape::Push => BcShape::BinOpPush(l, op, r),
        KindShape::Store(s) => BcShape::BinOpStore(l, op, r, s),
        KindShape::Ret => BcShape::BinOpStore(l, op, r, RefShape::Reg),
    }
}

/// The code that compiles a value into a context, with the visible functions, or the error met
/// first. Constants and symbols go where the context wants them, variables by their
/// registers; a binary expression uses immediate operands where they stand and computes other
/// operands into anonymous registers, then applies its operator; a call pushes its arguments,
/// then calls the function of that name or, for any other callee, pushes a marker, computes the
/// callee and calls what it gives.
pub open spec fn compile_code(k: KindShape, v: ValueShape, funs: Seq<Fun>) -> Result<Seq<BcShape>, ErrShape>
    decreases v, 0int,
{
    match v {
        ValueShape::Str(_) => Ok(seq![emit_shape(k, OperandShape::Const(v))]),
        ValueShape::Int(_, _) => Ok(seq![emit_shape(k, OperandShape::Const(v))]),
        ValueShape::Float(_) => Ok(seq![emit_shape(k, OperandShape::Const(v))]),
        ValueShape::Var(_) => Ok(seq![emit_shape(k, OperandShape::Ref(RefShape::Reg))]),
        ValueShape::Fun(n) => match find_fun(funs, n, 0) {
            None => Err(ErrShape::UnknownFun(n)),
            Some(f) => Ok(seq![emit_shape(k, OperandShape::Ref(RefShape::Fun(f.spec_symbol())))]),
        },
        ValueShape::Binary(l, op, r) => match operand_code(*l, funs) {
            Err(e) => Err(e),
            Ok((lc, lv)) => match operand_code(*r, funs) {
                Err(e) => Err(e),
                Ok((rc, rv)) => Ok(lc + rc + seq![binop_shape(k, lv, op, rv)]),
            },
        },
        ValueShape::Call(f, args) => match push_code(args, funs) {
            Err(e) => Err(e),
            Ok(ac) => match *f {
                ValueShape::Fun(n) => match find_fun(funs, n, 0) {
                    None => Err(ErrShape::UnknownFun(n)),
                    Some(g) => Ok(ac.push(BcShape::Call(g.spec_symbol()))),
                },
                _ => match compile_code(KindShape::Push, *f, funs) {
                    Err(e) => Err(e),
                    Ok(fc) => Ok(ac.push(BcShape::Push(OperandShape::FunRefCanary)) + fc.push(BcShape::PopCall)),
                },
            },
        },
        _ => Ok(Seq::empty()),
    }
}

/// The code and the operand of an operand of a binary expression, or the error met first.
pub open spec fn operand_code(v: ValueShape, funs: Seq<Fun>) -> Result<(Seq<BcShape>, OperandShape), ErrShape>
    decreases v, 1int,
{
    if is_immediate(v) {
        Ok((Seq::empty(), immediate_shape(v)))
    } else {
        match compile_code(KindShape::Store(RefShape::Reg), v, funs) {
            Err(e) => Err(e),
            Ok(c) => Ok((c, OperandShape::Ref(RefShape::Reg))),
        }
    }
}

/// The code that pushes a list of values in order, or the error met first.
pub open spec fn push_code(args: Seq<ValueShape>, funs: Seq<Fun>) -> Result<Seq<BcShape>, ErrShape>
    decreases args,
{
    if args.len() == 0 {
        Ok(Seq::empty())
    } else {
        match push_code(args.drop_last(), funs) {
            Err(e) => Err(e),
            Ok(c) => match compile_code(KindShape::Push, args.last(), funs) {
                Err(e) => Err(e),
                Ok(lc) => Ok(c + lc),
            },
        }
    }
}

/// The code that tests a value: a comparison operator compares its operands, computed into
/// registers; any other value is computed into a register and tested for truth.
pub open spec fn comparison_code(v: ValueShape, funs: Seq<Fun>) -> Result<Seq<BcShape>, ErrShape> {
    match v {
        ValueShape::Binary(l, op, r) => match compare_op_of(op) {
            Some(cmp) => match compile_code(KindShape::Store(RefShape::Reg), *l, funs) {
                Err(e) => Err(e),
                Ok(lc) => match compile_code(KindShape::Store(RefShape::Reg), *r, funs) {
                    Err(e) => Err(e),
                    Ok(rc) => Ok(lc + rc + seq![BcShape::Compare(ConditionShape::Compare(
                        OperandShape::Ref(RefShape::Reg),
                        cmp,
                        OperandShape::Ref(RefShape::Reg),
                    ))]),
                },
            },
            None => truth_code(v, funs),
        },
        _ => truth_code(v, funs),
    }
}

/// The code that computes a value into a register and tests it for truth.
pub open spec fn truth_code(v: ValueShape, funs: Seq<Fun>) -> Result<Seq<BcShape>, ErrShape> {
    match compile_code(KindShape::Store(RefShape::Reg), v, funs) {
        Err(e) => Err(e),
        Ok(c) => Ok(c.push(BcShape::Compare(ConditionShape::Truthy(OperandShape::Ref(RefShape::Reg))))),
    }
}

/// Whether a value can be compiled this way: it holds no array access, no unary expression,
/// and no type symbol other than as an immediate operand.
pub open spec fn compilable(v: ValueShape) -> bool
    decreases v, 0int,
{
    match v {
        ValueShape::Binary(l, _, r) => operand_ok(*l) && operand_ok(*r),
        ValueShape::Call(f, args) => (*f is Fun || compilable(*f))
            && forall|i: int| 0 <= i < args.len() ==> compilable(#[trigger] args[i]),
        ValueShape::Index(_, _) => false,
        ValueShape::Unary(_, _) => false,
        ValueShape::Ty(_) => false,
        _ => true,
    }
}

/// Whether an operand of a binary expression can be compiled this way.
pub open spec fn operand_ok(v: ValueShape) -> bool
    decreases v, 1int,
{
    is_immediate(v) || compilable(v)
}

/// Whether a value can be compiled as a test: `%%` has no comparison, and the operands of a
/// comparison are computed, so each must be compilable.
pub open spec fn testable(v: ValueShape) -> bool {
    match v {
        ValueShape::Binary(l, op, r) => op != OpView::DoublePercent
            && (compare_op_of(op) is Some ==> compilable(*l) && compilable(*r)),
        _ => true,
    }
}

/// The most registers that compiling a value reserves.
pub open spec fn compile_regs(v: ValueShape) -> nat
    decreases v, 0int,
{
    match v {
        ValueShape::Var(_) => 1,
        ValueShape::Binary(l, _, r) => operand_regs(*l) + operand_regs(*r) + 1,
        ValueShape::Call(f, args) => compile_regs(*f) + push_regs(args),
        _ => 0,
    }
}

/// The most registers that compiling an operand of a binary expression reserves.
pub open spec fn operand_regs(v: ValueShape) -> nat
    decreases v, 1int,
{
    if is_immediate(v) {
        1
    } else {
        compile_regs(v) + 1
    }
}

/// The most registers that compiling a list of values reserves.
pub open spec fn push_regs(vs: Seq<ValueShape>) -> nat
    decreases vs,
{
    if vs.len() == 0 {
        0
    } else {
        push_regs(vs.drop_last()) + compile_regs(vs.last())
    }
}

/// The registers for a prefix of a list of values are within those for the whole list.
pub proof fn lemma_push_regs_prefix(vs: Seq<ValueShape>, k: int)
    requires
        0 <= k <= vs.len(),
    ensures
        push_regs(vs.take(k)) <= push_regs(vs),
    decreases vs.len() - k,
{
    if k < vs.len() {
        lemma_push_regs_prefix(vs, k + 1);
        assert(vs.take(k + 1).drop_last() =~= vs.take(k));
    } else {
        assert(vs.take(k) =~= vs);
    }
}

/// An error met in a prefix of a list of values is the error met in the whole list.
pub proof fn lemma_push_code_err(vs: Seq<ValueShape>, j: int, funs: Seq<Fun>)
    requires
        0 <= j <= vs.len(),
        push_code(vs.take(j), funs) is Err,
    ensures
        push_code(vs, funs) == push_code(vs.take(j), funs),
    decreases vs.len() - j,
{
    if j < vs.len() {
        assert(vs.take(j + 1).drop_last() =~= vs.take(j));
        lemma_push_code_err(vs, j + 1, funs);
    } else {
        assert(vs.take(j) =~= vs);
    }
}

/// The reference that the last instruction of some code stores into, where the code is not empty
/// and its last instruction stores.
pub open spec fn last_stored(code: Seq<Bc>) -> Option<Ref> {
    if code.len() > 0 {
        stored_ref(code.last())
    } else {
        None
    }
}

/// Where code computed into a reference ends with an instruction that stores, it stores into
/// that reference.
pub open spec fn stores_into_target(k: ValueContextKind, code: Seq<Bc>) -> bool {
    match k {
        ValueContextKind::Store(rf) => match last_stored(code) {
            Some(x) => x == rf,
            None => true,
        },
        _ => true,
    }
}

/// `v` is the operand that code computed: where the code ends by storing into a reference,
/// that reference.
pub open spec fn operand_of(code: Seq<Bc>, v: bc::Value) -> bool {
    match last_stored(code) {
        Some(x) => v == bc::Value::Ref(x),
        None => true,
    }
}

/// The length of code that was made, or 0 where an error was met.
pub open spec fn made_len(r: Result<Seq<BcShape>, ErrShape>) -> int {
    match r {
        Ok(c) => c.len() as int,
        Err(_) => 0,
    }
}

/// The instruction that applies an operator, with its left and right operands, where it is one.
pub open spec fn applied_operands(b: Bc) -> Option<(bc::Value, bc::Value)> {
    match b {
        Bc::BinOpPush(l, _, r) => Some((l, r)),
        Bc::BinOpStore(l, _, r, _) => Some((l, r)),
        Bc::Compare(Condition::Compare(l, _, r)) => Some((l, r)),
        _ => None,
    }
}

/// Code whose first `split` instructions compute the left operand and whose instructions after
/// those, but for the last, compute the right one, applies its last instruction to the operands
/// in order: its left operand is what the left code computed and its right one what the right
/// code computed.
pub open spec fn applied_in_order(code: Seq<Bc>, split: int) -> bool {
    let n = code.len() as int;
    &&& 0 <= split < n
    &&& applied_operands(code[n - 1]) matches Some((l, r))
        && operand_of(code.take(split), l) && operand_of(code.subrange(split, n - 1), r)
}

/// Whether a variable of the name is visible in the scopes.
pub open spec fn is_visible_var(s: State, n: Seq<char>) -> bool {
    exists|i: int| first_named(s.var_scope.inner().scope_spec().visible(), n, i)
}

/// The name of the variable that a value reads, where it is a variable visible in the scopes.
pub open spec fn visible_var(s: State, v: Value) -> Option<Seq<char>> {
    match v.1 {
        ValueKind::Symbol(symbol::Symbol::Variable(n)) => if is_visible_var(s, n@) {
            Some(n@)
        } else {
            None
        },
        _ => None,
    }
}

/// A visible variable is read from its register, the one of the most local visible variable
/// of its name, and put where the context wants it.
pub open spec fn reads_var_register(value: Value, k: ValueContextKind, s: State, code: Seq<Bc>) -> bool {
    match visible_var(s, value) {
        Some(n) => code == seq![emitted(k, bc::Value::Ref(Ref::Reg(var_register(s, n))))],
        None => true,
    }
}

/// An operand that is a visible variable is its register.
pub open spec fn operand_register(value: Value, s: State, v: bc::Value) -> bool {
    match visible_var(s, value) {
        Some(n) => v == bc::Value::Ref(Ref::Reg(var_register(s, n))),
        None => true,
    }
}

/// An operator is applied to the registers of its operands that are visible variables: the left
/// one always, the right one where the left operand is a constant or a visible variable, whose
/// reading changes no scope.
pub open spec fn applied_to_registers(value: Value, s: State, code: Seq<Bc>) -> bool {
    match value.1 {
        ValueKind::BinaryExpr(l, _, r) => code.len() > 0 && match applied_operands(code.last()) {
            Some((a, b)) => {
                &&& operand_register(*l, s, a)
                &&& (l.1 is Const || visible_var(s, *l) is Some) ==> operand_register(*r, s, b)
            },
            None => false,
        },
        _ => true,
    }
}

/// For a binary expression, the code applies the operator to its operands in order; the left
/// operand's code is as long as the code that the visible functions give it.
pub open spec fn binop_in_order(value: Value, code: Seq<Bc>, funs: Seq<Fun>) -> bool {
    match value.1 {
        ValueKind::BinaryExpr(l, _, _) => applied_in_order(code, match operand_code(value_shape(*l), funs) {
            Ok((c, _)) => c.len() as int,
            Err(_) => 0,
        }),
        _ => true,
    }
}

/// For a comparison, the code compares its operands in order, the left operand's code being as
/// long as the code that the visible functions give it; any other value is tested for truth.
pub open spec fn comparison_in_order(value: Value, code: Seq<Bc>, funs: Seq<Fun>) -> bool {
    match value.1 {
        ValueKind::BinaryExpr(l, op, _) => if compare_op_of(op@) is Some {
            applied_in_order(code, made_len(compile_code(KindShape::Store(RefShape::Reg), value_shape(*l), funs)))
        } else {
            tests_truth(code)
        },
        _ => tests_truth(code),
    }
}

/// The code tests for truth what the code before its last instruction computed.
pub open spec fn tests_truth(code: Seq<Bc>) -> bool {
    code.len() > 0 && match code.last() {
        Bc::Compare(Condition::Truthy(v)) => operand_of(code.drop_last(), v),
        _ => false,
    }
}

/// Compiles values of the intermediate representation into bytecode, in the scopes of `state`.
pub struct Compile {
    pub state: State,
}

impl Compile {
    /// The register of the variable of the given name, registered in the current layer where
    /// none is visible.
    fn local_register(&mut self, name: &str) -> (r: crate::vm::symbol::RegSymbol)
        requires
            ready(old(self).state),
            old(self).state.var_scope.inner().allocator().upcoming().local + 1 < usize::MAX,
        ensures
            kept_within(old(self).state, final(self).state, 1),
            is_visible_var(old(self).state, name@) ==> {
                &&& r == var_register(old(self).state, name@)
                &&& final(self).state.var_scope.inner() == old(self).state.var_scope.inner()
            },
    {
        let ghost vis = self.state.var_scope.inner().scope_spec().visible();
        let r = self.state.var_scope.get_or_insert(name);
        proof {
            if is_visible_var(old(self).state, name@) {
                let i = choose|i: int| first_named(vis, name@, i) && r == vis[i].symbol;
                let j = choose|j: int| first_named(vis, name@, j);
                lemma_first_named_unique(vis, name@, i, j);
            }
        }
        r
    }

    /// Compiles an operand of a binary expression: an immediate where it stands, any other value
    /// into an anonymous register.
    fn compile_operand(&mut self, value: &Value) -> (r: Result<(Vec<Bc>, bc::Value), Error>)
        requires
            ready(old(self).state),
            operand_ok(value_shape(*value)),
            old(self).state.var_scope.inner().allocator().upcoming().local + operand_regs(value_shape(*value)) < usize::MAX,
        ensures
            kept_within(old(self).state, final(self).state, operand_regs(value_shape(*value))),
            match r {
                Ok((code, v)) => operand_code(value_shape(*value), old(self).state.fun_scope.scope_spec().visible())
                    == Ok::<(Seq<BcShape>, OperandShape), ErrShape>((code_shape(code@), bc::operand_shape(v))),
                Err(e) => operand_code(value_shape(*value), old(self).state.fun_scope.scope_spec().visible())
                    == Err::<(Seq<BcShape>, OperandShape), ErrShape>(err_shape(e)),
            },
            r matches Ok((code, v)) ==> operand_of(code@, v),
            r matches Ok((code, v)) ==> operand_register(*value, old(self).state, v),
            visible_var(old(self).state, *value) is Some || value.1 is Const
                ==> final(self).state.var_scope.inner() == old(self).state.var_scope.inner(),
        decreases value, 1int,
    {
        match &value.1 {
            ValueKind::Const(c) => {
                let code: Vec<Bc> = Vec::new();
                proof {
                    assert(code_shape(code@) =~= Seq::<BcShape>::empty());
                }
                Ok((code, bc::Value::Const(copy_const(c))))
            },
            ValueKind::Symbol(s) => {
                let reg = self.local_register(s.name());
                let code: Vec<Bc> = Vec::new();
                proof {
                    assert(code_shape(code@) =~= Seq::<BcShape>::empty());
                }
                Ok((code, bc::Value::Ref(Ref::Reg(reg))))
            },
            _ => {
                let sym = self.state.var_scope.insert_anonymous_var();
                match self.compile_value(value, ValueContextKind::Store(Ref::Reg(sym))) {
                    Ok(code) => Ok((code, bc::Value::Ref(Ref::Reg(sym)))),
                    Err(e) => Err(e),
                }
            },
        }
    }

    /// Compiles a value into a context.
    pub fn compile_value(&mut self, value: &Value, ctx: ValueContextKind) -> (r: Result<Vec<Bc>, Error>)
        requires
            ready(old(self).state),
            compilable(value_shape(*value)),
            old(self).state.var_scope.inner().allocator().upcoming().local + compile_regs(value_shape(*value)) < usize::MAX,
        ensures
            kept_within(old(self).state, final(self).state, compile_regs(value_shape(*value))),
            match r {
                Ok(code) => compile_code(context_shape(ctx), value_shape(*value), old(self).state.fun_scope.scope_spec().visible())
                    == Ok::<Seq<BcShape>, ErrShape>(code_shape(code@)),
                Err(e) => compile_code(context_shape(ctx), value_shape(*value), old(self).state.fun_scope.scope_spec().visible())
                    == Err::<Seq<BcShape>, ErrShape>(err_shape(e)),
            },
            r matches Ok(code) ==> stores_into_target(ctx, code@),
            r matches Ok(code) ==> binop_in_order(*value, code@, old(self).state.fun_scope.scope_spec().visible()),
            r matches Ok(code) ==> reads_var_register(*value, ctx, old(self).state, code@),
            r matches Ok(code) ==> applied_to_registers(*value, old(self).state, code@),
        decreases value, 0int,
    {
        let ghost funs = self.state.fun_scope.scope_spec().visible();
        let ghost vs = value_shape(*value);
        let ghost k = context_shape(ctx);
        let range = value.0.clone();
        match &value.1 {
            ValueKind::Const(c) => {
                let code = vec![emit(ctx, bc::Value::Const(copy_const(c)))];
                proof {
                    assert(code_shape(code@) =~= seq![bc_shape(code@[0])]);
                }
                Ok(code)
            },
            ValueKind::Symbol(symbol::Symbol::Variable(name)) => {
                let reg = self.local_register(name.as_str());
                let b = emit(ctx, bc::Value::Ref(Ref::Reg(reg)));
                let code = vec![b];
                proof {
                    assert(code_shape(code@) =~= seq![bc_shape(code@[0])]);
                    assert(code@ =~= seq![b]);
                }
                Ok(code)
            },
            ValueKind::Symbol(symbol::Symbol::Fun(name)) => match lookup_fun(&self.state.fun_scope, name.as_str()) {
                Some(f) => {
                    let code = vec![emit(ctx, bc::Value::Ref(Ref::Fun(f)))];
                    proof {
                        assert(code_shape(code@) =~= seq![bc_shape(code@[0])]);
                    }
                    Ok(code)
                },
                None => Err(Error { range, kind: ErrorKind::UnknownFun(owned(name.as_str())) }),
            },
            ValueKind::BinaryExpr(lhs, op, rhs) => {
                let ghost s0 = self.state;
                let (mut code, lv) = match self.compile_operand(lhs) {
                    Ok(p) => p,
                    Err(e) => {
                        return Err(e);
                    },
                };
                let ghost s1 = self.state;
                let (mut rc, rv) = match self.compile_operand(rhs) {
                    Ok(p) => p,
                    Err(e) => {
                        return Err(e);
                    },
                };
                proof {
                    if lhs.1 is Const || visible_var(s0, **lhs) is Some {
                        assert(s1.var_scope.inner() == s0.var_scope.inner());
                        assert(visible_var(s1, **rhs) == visible_var(s0, **rhs));
                        if let Some(n) = visible_var(s0, **rhs) {
                            assert(var_register(s1, n) == var_register(s0, n));
                        }
                        assert(operand_register(**rhs, s0, rv));
                    }
                }
                let ghost lcs = code@;
                let ghost rcs = rc@;
                code.append(&mut rc);
                let b = match ctx {
                    ValueContextKind::Push => Bc::BinOpPush(lv, copy_op(op), rv),
                    ValueContextKind::Store(s) => Bc::BinOpStore(lv, copy_op(op), rv, s),
                    ValueContextKind::Ret => {
                        let result = self.state.var_scope.insert_anonymous_var();
                        Bc::BinOpStore(lv, copy_op(op), rv, Ref::Reg(result))
                    },
                };
                code.push(b);
                proof {
                    assert(code@.last() == b);
                    assert(applied_operands(b) == Some((lv, rv)));
                    lemma_code_shape_add(lcs, rcs);
                    lemma_code_shape_push(lcs + rcs, b);
                    assert(code_shape(lcs) + code_shape(rcs) + seq![bc_shape(b)] =~= (code_shape(lcs) + code_shape(rcs)).push(bc_shape(b)));
                }
                Ok(code)
            },
            ValueKind::FunCall(fun, args) => {
                let ghost avs = value_shapes(args@);
                proof {
                    crate::compile::context::lemma_value_shapes_index(args@);
                    assert(avs.take(0) =~= Seq::<ValueShape>::empty());
                    assert forall|i: int| 0 <= i < args@.len() implies decreases_to!(*value => #[trigger] args@[i]) by {
                        assert(decreases_to!(*value => value.1));
                        assert(decreases_to!(value.1 => *args));
                        assert(decreases_to!(*args => args@));
                        assert(decreases_to!(args@ => args@[i]));
                    }
                }
                let ghost start = self.state;
                let mut code: Vec<Bc> = Vec::new();
                proof {
                    assert(code_shape(code@) =~= Seq::<BcShape>::empty());
                }
                let mut i: usize = 0;
                while i < args.len()
                    invariant
                        i <= args@.len(),
                        avs == value_shapes(args@),
                        avs.len() == args@.len(),
                        forall|j: int| 0 <= j < args@.len() ==> #[trigger] avs[j] == value_shape(args@[j]),
                        forall|j: int| 0 <= j < args@.len() ==> decreases_to!(*value => #[trigger] args@[j]),
                        vs == ValueShape::Call(Box::new(value_shape(**fun)), avs),
                        vs == value_shape(*value),
                        k == context_shape(ctx),
                        ready(start),
                        compilable(vs),
                        start.var_scope.inner().allocator().upcoming().local + compile_regs(vs) < usize::MAX,
                        start == old(self).state,
                        kept_within(start, self.state, push_regs(avs.take(i as int))),
                        push_code(avs.take(i as int), funs) == Ok::<Seq<BcShape>, ErrShape>(code_shape(code@)),
                        funs == start.fun_scope.scope_spec().visible(),
                    decreases args@.len() - i,
                {
                    let ghost before = code@;
                    proof {
                        lemma_push_regs_prefix(avs, i + 1);
                        assert(avs.take(i + 1).drop_last() =~= avs.take(i as int));
                        assert(avs.take(i + 1).last() == avs[i as int]);
                        assert(compilable(avs[i as int]));
                    }
                    let mut c = match self.compile_value(&args[i], ValueContextKind::Push) {
                        Ok(c) => c,
                        Err(e) => {
                            proof {
                                lemma_push_code_err(avs, i + 1, funs);
                            }
                            return Err(e);
                        },
                    };
                    let ghost ac = c@;
                    code.append(&mut c);
                    proof {
                        lemma_code_shape_add(before, ac);
                    }
                    i += 1;
                }
                proof {
                    assert(avs.take(args@.len() as int) =~= avs);
                }
                let ghost argc = code@;
                match &fun.1 {
                    ValueKind::Symbol(symbol::Symbol::Fun(name)) => {
                        match lookup_fun(&self.state.fun_scope, name.as_str()) {
                            Some(f) => {
                                let b = Bc::Call(f);
                                code.push(b);
                                proof {
                                    lemma_code_shape_push(argc, b);
                                }
                            },
                            None => {
                                return Err(Error { range, kind: ErrorKind::UnknownFun(owned(name.as_str())) });
                            },
                        }
                    },
                    _ => {
                        let b0 = Bc::Push(bc::Value::FunRefCanary);
                        code.push(b0);
                        let mut fc = match self.compile_value(fun, ValueContextKind::Push) {
                            Ok(c) => c,
                            Err(e) => {
                                return Err(e);
                            },
                        };
                        let ghost fcs = fc@;
                        let ghost with_canary = code@;
                        code.append(&mut fc);
                        let b = Bc::PopCall;
                        code.push(b);
                        proof {
                            lemma_code_shape_push(argc, b0);
                            lemma_code_shape_add(with_canary, fcs);
                            lemma_code_shape_push(with_canary + fcs, b);
                            assert(code_shape(argc).push(bc_shape(b0)) + code_shape(fcs).push(bc_shape(b))
                                =~= (code_shape(with_canary) + code_shape(fcs)).push(bc_shape(b)));
                        }
                    },
                }
                Ok(code)
            },
            _ => {
                proof {
                    assert(false);
                }
                Ok(Vec::new())
            },
        }
    }

    /// Compiles a value as the condition of a test: a comparison compares its operands, any
    /// other value is tested for truth.
    pub fn compile_comparison(&mut self, value: &Value) -> (r: Result<Vec<Bc>, Error>)
        requires
            ready(old(self).state),
            compilable(value_shape(*value)),
            testable(value_shape(*value)),
            old(self).state.var_scope.inner().allocator().upcoming().local + compile_regs(value_shape(*value)) + 2 < usize::MAX,
        ensures
            kept_within(old(self).state, final(self).state, compile_regs(value_shape(*value)) + 2),
            match r {
                Ok(code) => comparison_code(value_shape(*value), old(self).state.fun_scope.scope_spec().visible())
                    == Ok::<Seq<BcShape>, ErrShape>(code_shape(code@)),
                Err(e) => comparison_code(value_shape(*value), old(self).state.fun_scope.scope_spec().visible())
                    == Err::<Seq<BcShape>, ErrShape>(err_shape(e)),
            },
            r matches Ok(code) ==> comparison_in_order(*value, code@, old(self).state.fun_scope.scope_spec().visible()),
    {
        if let ValueKind::BinaryExpr(lhs, op, rhs) = &value.1 {
            if let Some(cmp) = compare_op(op) {
                proof {
                    let lv = value_shape(**lhs);
                    let rv = value_shape(**rhs);
                    assert(compile_regs(lv) <= operand_regs(lv));
                    assert(compile_regs(rv) <= operand_regs(rv));
                }
                let lhs_sym = self.state.var_scope.insert_anonymous_var();
                let rhs_sym = self.state.var_scope.insert_anonymous_var();
                let mut code = match self.compile_value(lhs, ValueContextKind::Store(Ref::Reg(lhs_sym))) {
                    Ok(c) => c,
                    Err(e) => {
                        return Err(e);
                    },
                };
                let mut rc = match self.compile_value(rhs, ValueContextKind::Store(Ref::Reg(rhs_sym))) {
                    Ok(c) => c,
                    Err(e) => {
                        return Err(e);
                    },
                };
                let ghost lcs = code@;
                let ghost rcs = rc@;
                code.append(&mut rc);
                let b = Bc::Compare(Condition::Compare(bc::Value::Ref(Ref::Reg(lhs_sym)), cmp, bc::Value::Ref(Ref::Reg(rhs_sym))));
                code.push(b);
                proof {
                    lemma_code_shape_add(lcs, rcs);
                    lemma_code_shape_push(lcs + rcs, b);
                    assert(code_shape(lcs) + code_shape(rcs) + seq![bc_shape(b)] =~= (code_shape(lcs) + code_shape(rcs)).push(bc_shape(b)));
                }
                return Ok(code);
            }
        }
        let result = self.state.var_scope.insert_anonymous_var();
        let mut code = match self.compile_value(value, ValueContextKind::Store(Ref::Reg(result))) {
            Ok(c) => c,
            Err(e) => {
                return Err(e);
            },
        };
        let ghost c0 = code@;
        let b = Bc::Compare(Condition::Truthy(bc::Value::Ref(Ref::Reg(result))));
        code.push(b);
        proof {
            lemma_code_shape_push(c0, b);
        }
        Ok(code)
    }
}

/// The comparison that an operator denotes, for the operators that denote one.
fn compare_op(op: &Op) -> (r: Option<CompareOp>)
    ensures
        r == compare_op_of(op@),
{
    match op {
        Op::Or => Some(CompareOp::Or),
        Op::And => Some(CompareOp::And),
        Op::DoubleEquals => Some(CompareOp::Equals),
        Op::DoubleTilde => Some(CompareOp::FuzzyEquals),
        Op::NotEquals => Some(CompareOp::NotEquals),
        Op::LessEquals => Some(CompareOp::LessEquals),
        Op::GreaterEquals => Some(CompareOp::GreaterEquals),
        Op::Less => Some(CompareOp::Less),
        Op::Greater => Some(CompareOp::Greater),
        _ => None,
    }
}

} // verus!
