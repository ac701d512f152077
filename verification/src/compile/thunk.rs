use vstd::prelude::*;
use crate::common::pos::RangeWrapper;
use crate::compile::allocator::Alloc;
use crate::compile::context::{
    ValueContext, ValueContextKind, KindShape, value_code, anon_count, no_index, reads_var, ready,
    kept_within, can_compile, delivers, var_register, lemma_first_named_unique,
};
use crate::compile::value::first_named;
use crate::ir::compile::visible_var;
use crate::compile::error::{Error, ErrorKind, ErrShape, err_shape};
use crate::compile::state::{Fun, State};
use crate::compile::ty::Ty;
use crate::compile::value::has_var;
use crate::ir::action::{Action, ActionKind, ActionShape, action_shape, action_shapes, kind_shape};
use crate::ir::symbol;
use crate::ir::value::{Value, ValueKind, ValueShape, value_shape};
use crate::vm::bc::{
    self, Bc, BcShape, JumpCond, OperandShape, Ref, RefShape, bc_shape, code_shape, lemma_code_shape_add,
    lemma_code_shape_push,
};
use crate::vm::symbol::{BlockSymbol, Symbol};

verus! {

/// Bytecode with labelled blocks that jumps can name, before the labels are placed.
#[derive(Debug)]
pub enum Thunk {
    Empty,
    Code(Vec<Bc>),
    Nested(Vec<Thunk>),
    Labeled {
        entry: BlockSymbol,
        code: Box<Thunk>,
        exit: BlockSymbol,
    },
}

/// The shape of a thunk: which registers its instructions name is left out.
pub enum ThunkShape {
    Empty,
    Code(Seq<BcShape>),
    Nested(Seq<ThunkShape>),
    Labeled(BlockSymbol, Box<ThunkShape>, BlockSymbol),
}

/// The shape of a thunk.
pub open spec fn thunk_shape(t: Thunk) -> ThunkShape
    decreases t,
{
    match t {
        Thunk::Empty => ThunkShape::Empty,
        Thunk::Code(c) => ThunkShape::Code(code_shape(c@)),
        Thunk::Nested(ts) => ThunkShape::Nested(thunk_shapes(ts@)),
        Thunk::Labeled { entry, code, exit } => ThunkShape::Labeled(entry, Box::new(thunk_shape(*code)), exit),
    }
}

/// The shapes of a list of thunks, in order.
pub open spec fn thunk_shapes(ts: Seq<Thunk>) -> Seq<ThunkShape>
    decreases ts,
{
    if ts.len() == 0 {
        Seq::empty()
    } else {
        thunk_shapes(ts.drop_last()).push(thunk_shape(ts.last()))
    }
}

/// A thunk with an instruction added at its end: at the end of its last nested thunk, or
/// inside its label.
pub open spec fn push_shape(t: ThunkShape, b: BcShape) -> ThunkShape
    decreases t,
{
    match t {
        ThunkShape::Empty => ThunkShape::Code(seq![b]),
        ThunkShape::Code(c) => ThunkShape::Code(c.push(b)),
        ThunkShape::Nested(ts) => if ts.len() == 0 {
            ThunkShape::Nested(seq![ThunkShape::Code(seq![b])])
        } else {
            ThunkShape::Nested(ts.update(ts.len() - 1, push_shape(ts.last(), b)))
        },
        ThunkShape::Labeled(entry, code, exit) => ThunkShape::Labeled(entry, Box::new(push_shape(*code, b)), exit),
    }
}

/// The block symbol of the given index.
pub open spec fn blk(n: nat) -> BlockSymbol {
    BlockSymbol(n as usize)
}

/// A jump that is always taken.
pub open spec fn jump(n: nat) -> BcShape {
    BcShape::JumpSymbol(blk(n), JumpCond::Always)
}

/// The thunk of an action, with the labels of the innermost enclosing loop (its entry and
/// exit, if there is one) and the index of the next label to reserve, together with the index
/// of the next label after it; or the error met first.
///
/// A loop reserves an entry and an exit label and jumps back to its entry at the end of its
/// body; `continue` jumps to the entry of the innermost loop and `break` to its exit, and
/// either is an error outside of any loop. A condition block reserves the labels of its entry,
/// its exit and the end of its success branch: it tests the condition, jumps past the success
/// branch when the test fails, and jumps to its exit at the end of the success branch. An
/// assignment to a variable computes the right-hand side into the variable's register; one to
/// a value that a call computes stores through the reference the call gives; any other
/// left-hand side is an error.
pub open spec fn action_thunk(a: ActionShape, jumps: Option<(nat, nat)>, next: nat, funs: Seq<Fun>, tys: Seq<Ty>) -> Result<(ThunkShape, nat), ErrShape>
    decreases a,
{
    match a {
        ActionShape::Eval(v) => match value_code(KindShape::Push, v, funs, tys) {
            Err(e) => Err(e),
            Ok(c) => Ok((ThunkShape::Code(c), next)),
        },
        ActionShape::Assign(l, r) => assign_thunk(l, r, next, funs, tys),
        ActionShape::AugAssign(l, _, r) => assign_thunk(l, r, next, funs, tys),
        ActionShape::Loop(b) => match action_thunk(*b, Some((next, next + 1)), next + 2, funs, tys) {
            Err(e) => Err(e),
            Ok((t, n)) => Ok((ThunkShape::Labeled(blk(next), Box::new(push_shape(t, jump(next))), blk(next + 1)), n)),
        },
        ActionShape::Block(s) => match block_thunks(s, jumps, next, funs, tys) {
            Err(e) => Err(e),
            Ok((ts, n)) => Ok((ThunkShape::Nested(ts), n)),
        },
        ActionShape::Cond(c, s, f) => match value_code(KindShape::Push, c, funs, tys) {
            Err(e) => Err(e),
            Ok(cc) => match action_thunk(*s, jumps, next + 3, funs, tys) {
                Err(e) => Err(e),
                Ok((st, n1)) => match action_thunk(*f, jumps, n1, funs, tys) {
                    Err(e) => Err(e),
                    Ok((ft, n2)) => Ok((cond_shape_of(next, cc, st, ft), n2)),
                },
            },
        },
        ActionShape::Continue => match jumps {
            Some((entry, _)) => Ok((ThunkShape::Code(seq![jump(entry)]), next)),
            None => Err(ErrShape::ContinueOutsideOfLoop),
        },
        ActionShape::Break => match jumps {
            Some((_, exit)) => Ok((ThunkShape::Code(seq![jump(exit)]), next)),
            None => Err(ErrShape::BreakOutsideOfLoop),
        },
        ActionShape::Return(Some(v)) => match value_code(KindShape::Ret, v, funs, tys) {
            Err(e) => Err(e),
            Ok(c) => Ok((ThunkShape::Code(c), next)),
        },
        ActionShape::Return(None) => Ok((ThunkShape::Code(seq![BcShape::PushRet(OperandShape::Nothing)]), next)),
        ActionShape::Nop => Ok((ThunkShape::Empty, next)),
    }
}

/// Inside a loop whose labels are `entry` and `exit`, `continue` is one unconditional jump back
/// to the entry and `break` one to the exit, and neither reserves a label; outside of any loop,
/// each is an error of its own.
pub proof fn lemma_continue_and_break(entry: nat, exit: nat, next: nat, funs: Seq<Fun>, tys: Seq<Ty>)
    ensures
        action_thunk(ActionShape::Continue, Some((entry, exit)), next, funs, tys) == Ok::<(ThunkShape, nat), ErrShape>((
            ThunkShape::Code(seq![BcShape::JumpSymbol(BlockSymbol(entry as usize), JumpCond::Always)]),
            next,
        )),
        action_thunk(ActionShape::Break, Some((entry, exit)), next, funs, tys) == Ok::<(ThunkShape, nat), ErrShape>((
            ThunkShape::Code(seq![BcShape::JumpSymbol(BlockSymbol(exit as usize), JumpCond::Always)]),
            next,
        )),
        action_thunk(ActionShape::Continue, None, next, funs, tys) == Err::<(ThunkShape, nat), ErrShape>(ErrShape::ContinueOutsideOfLoop),
        action_thunk(ActionShape::Break, None, next, funs, tys) == Err::<(ThunkShape, nat), ErrShape>(ErrShape::BreakOutsideOfLoop),
{
}

/// An evaluated value is computed onto the stack; `return` with a value computes it as the
/// function's result, and a bare `return` returns nothing; none of them takes a label.
pub proof fn lemma_eval_and_return(v: ValueShape, jumps: Option<(nat, nat)>, next: nat, funs: Seq<Fun>, tys: Seq<Ty>)
    ensures
        action_thunk(ActionShape::Eval(v), jumps, next, funs, tys) == match value_code(KindShape::Push, v, funs, tys) {
            Err(e) => Err(e),
            Ok(c) => Ok::<(ThunkShape, nat), ErrShape>((ThunkShape::Code(c), next)),
        },
        action_thunk(ActionShape::Return(Some(v)), jumps, next, funs, tys) == match value_code(KindShape::Ret, v, funs, tys) {
            Err(e) => Err(e),
            Ok(c) => Ok::<(ThunkShape, nat), ErrShape>((ThunkShape::Code(c), next)),
        },
        action_thunk(ActionShape::Return(None), jumps, next, funs, tys)
            == Ok::<(ThunkShape, nat), ErrShape>((ThunkShape::Code(seq![BcShape::PushRet(OperandShape::Nothing)]), next)),
{
}

/// A loop takes two new labels, a distinct entry and exit, and is labelled by them; its body is
/// lowered with them as the innermost loop's labels, so that a `continue` in it jumps to the
/// entry and a `break` to the exit, and the body ends with an unconditional jump back to the
/// entry.
pub proof fn lemma_loop_labels(body: ActionShape, jumps: Option<(nat, nat)>, next: nat, funs: Seq<Fun>, tys: Seq<Ty>)
    ensures
        action_thunk(ActionShape::Loop(Box::new(body)), jumps, next, funs, tys)
            == match action_thunk(body, Some((next, next + 1)), next + 2, funs, tys) {
                Err(e) => Err(e),
                Ok((bt, n)) => Ok::<(ThunkShape, nat), ErrShape>((ThunkShape::Labeled(
                    BlockSymbol(next as usize),
                    Box::new(push_shape(bt, BcShape::JumpSymbol(BlockSymbol(next as usize), JumpCond::Always))),
                    BlockSymbol((next + 1) as usize),
                ), n)),
            },
{
}

/// A condition block takes three new labels: its entry, its exit, and the start of its failure
/// branch. Its code computes the condition, tests it and, where the test fails, jumps to the
/// start of the failure branch; otherwise the success branch runs and ends with a jump to the
/// exit. Both branches see the same innermost loop as the block, the success branch taking its
/// labels after the block's three and the failure branch after those of the success branch.
pub proof fn lemma_condition_layout(
    c: ValueShape,
    success: ActionShape,
    failure: ActionShape,
    jumps: Option<(nat, nat)>,
    next: nat,
    funs: Seq<Fun>,
    tys: Seq<Ty>,
)
    ensures
        action_thunk(ActionShape::Cond(c, Box::new(success), Box::new(failure)), jumps, next, funs, tys)
            == match value_code(KindShape::Push, c, funs, tys) {
                Err(e) => Err(e),
                Ok(cc) => match action_thunk(success, jumps, next + 3, funs, tys) {
                    Err(e) => Err(e),
                    Ok((st, n1)) => match action_thunk(failure, jumps, n1, funs, tys) {
                        Err(e) => Err(e),
                        Ok((ft, n2)) => Ok::<(ThunkShape, nat), ErrShape>((ThunkShape::Labeled(
                            BlockSymbol(next as usize),
                            Box::new(ThunkShape::Nested(seq![
                                ThunkShape::Labeled(BlockSymbol(next as usize), Box::new(ThunkShape::Nested(seq![
                                    ThunkShape::Code(cc + seq![
                                        BcShape::PopTest,
                                        BcShape::JumpSymbol(BlockSymbol((next + 2) as usize), JumpCond::CondFalse),
                                    ]),
                                    push_shape(st, BcShape::JumpSymbol(BlockSymbol((next + 1) as usize), JumpCond::Always)),
                                ])), BlockSymbol((next + 2) as usize)),
                                ThunkShape::Labeled(BlockSymbol((next + 2) as usize), Box::new(ft), BlockSymbol((next + 1) as usize)),
                            ])),
                            BlockSymbol((next + 1) as usize),
                        ), n2)),
                    },
                },
            },
{
}

/// The three labels of a condition block differ, where they name blocks that a machine word can
/// index: the failure branch, the exit and the entry are three places.
pub proof fn lemma_condition_labels_differ(next: nat)
    requires
        next + 2 <= usize::MAX,
    ensures
        BlockSymbol(next as usize) != BlockSymbol((next + 1) as usize),
        BlockSymbol(next as usize) != BlockSymbol((next + 2) as usize),
        BlockSymbol((next + 1) as usize) != BlockSymbol((next + 2) as usize),
{
}

/// The two labels of a loop differ, where they name blocks that a machine word can index: a
/// `continue` and a `break` of the same loop never jump to the same place.
pub proof fn lemma_loop_labels_differ(next: nat)
    requires
        next + 1 <= usize::MAX,
    ensures
        BlockSymbol(next as usize) != BlockSymbol((next + 1) as usize),
{
}

/// An assignment to a variable that is visible stores into that variable's register: the
/// thunk is code that ends by storing into the register of the most local visible variable of
/// that name.
pub open spec fn assigns_to_register(lhs: Value, s: State, t: Thunk) -> bool {
    match visible_var(s, lhs) {
        Some(n) => t matches Thunk::Code(c) && delivers(ValueContextKind::Store(Ref::Reg(var_register(s, n))), c@),
        None => true,
    }
}

/// An action that assigns to a visible variable stores into that variable's register.
pub open spec fn action_assigns_to_register(action: Action, s: State, t: Thunk) -> bool {
    match action.1 {
        ActionKind::Assign(l, _) => assigns_to_register(l, s, t),
        ActionKind::AugAssign(l, _, _) => assigns_to_register(l, s, t),
        _ => true,
    }
}

/// The thunk of a condition block whose labels start at `next`, with the code of its condition
/// and the thunks of its branches.
pub open spec fn cond_shape_of(next: nat, cc: Seq<BcShape>, st: ThunkShape, ft: ThunkShape) -> ThunkShape {
    let entry = next;
    let exit = next + 1;
    let if_exit = next + 2;
    ThunkShape::Labeled(blk(entry), Box::new(ThunkShape::Nested(seq![
        ThunkShape::Labeled(blk(entry), Box::new(ThunkShape::Nested(seq![
            ThunkShape::Code(cc + seq![BcShape::PopTest, BcShape::JumpSymbol(blk(if_exit), JumpCond::CondFalse)]),
            push_shape(st, jump(exit)),
        ])), blk(if_exit)),
        ThunkShape::Labeled(blk(if_exit), Box::new(ft), blk(exit)),
    ])), blk(exit))
}

/// The thunk of an assignment, or the error met first.
pub open spec fn assign_thunk(l: ValueShape, r: ValueShape, next: nat, funs: Seq<Fun>, tys: Seq<Ty>) -> Result<(ThunkShape, nat), ErrShape> {
    match l {
        ValueShape::Var(_) => match value_code(KindShape::Store(RefShape::Reg), r, funs, tys) {
            Err(e) => Err(e),
            Ok(c) => Ok((ThunkShape::Code(c), next)),
        },
        ValueShape::Index(_, _) => Ok((ThunkShape::Empty, next)),
        ValueShape::Binary(_, _, _) | ValueShape::Unary(_, _) | ValueShape::Call(_, _) => match value_code(KindShape::Store(RefShape::Reg), l, funs, tys) {
            Err(e) => Err(e),
            Ok(lc) => match value_code(KindShape::Store(RefShape::Reg), r, funs, tys) {
                Err(e) => Err(e),
                Ok(rc) => Ok((ThunkShape::Code(lc + rc + seq![
                    BcShape::DerefPush(RefShape::Reg),
                    BcShape::PopDerefStore(OperandShape::Ref(RefShape::Reg)),
                ]), next)),
            },
        },
        _ => Err(ErrShape::InvalidAssignLhs),
    }
}

/// The thunks of a list of actions in order, or the error met first.
pub open spec fn block_thunks(s: Seq<ActionShape>, jumps: Option<(nat, nat)>, next: nat, funs: Seq<Fun>, tys: Seq<Ty>) -> Result<(Seq<ThunkShape>, nat), ErrShape>
    decreases s,
{
    if s.len() == 0 {
        Ok((Seq::empty(), next))
    } else {
        match block_thunks(s.drop_last(), jumps, next, funs, tys) {
            Err(e) => Err(e),
            Ok((ts, n)) => match action_thunk(s.last(), jumps, n, funs, tys) {
                Err(e) => Err(e),
                Ok((t, n2)) => Ok((ts.push(t), n2)),
            },
        }
    }
}

/// The variables known after compiling an action, given those known before: assignments to a
/// variable make it known.
pub open spec fn vars_after(a: ActionShape, d: Set<Seq<char>>) -> Set<Seq<char>>
    decreases a,
{
    match a {
        ActionShape::Assign(ValueShape::Var(n), _) => d.insert(n),
        ActionShape::AugAssign(ValueShape::Var(n), _, _) => d.insert(n),
        ActionShape::Loop(b) => vars_after(*b, d),
        ActionShape::Block(s) => block_vars_after(s, d),
        ActionShape::Cond(_, s, f) => vars_after(*f, vars_after(*s, d)),
        _ => d,
    }
}

/// The variables known after compiling a list of actions in order.
pub open spec fn block_vars_after(s: Seq<ActionShape>, d: Set<Seq<char>>) -> Set<Seq<char>>
    decreases s,
{
    if s.len() == 0 {
        d
    } else {
        vars_after(s.last(), block_vars_after(s.drop_last(), d))
    }
}

/// Whether a value indexes no array and reads only the known variables `d`.
pub open spec fn value_ok(v: ValueShape, d: Set<Seq<char>>) -> bool {
    &&& no_index(v)
    &&& forall|n: Seq<char>| reads_var(v, n) ==> #[trigger] d.contains(n)
}

/// Whether an action, compiled in order from the known variables `d`, indexes no array and
/// reads each variable only where it is known.
pub open spec fn action_ok(a: ActionShape, d: Set<Seq<char>>) -> bool
    decreases a,
{
    match a {
        ActionShape::Eval(v) => value_ok(v, d),
        ActionShape::Assign(l, r) => assign_ok(l, r, d),
        ActionShape::AugAssign(l, _, r) => assign_ok(l, r, d),
        ActionShape::Loop(b) => action_ok(*b, d),
        ActionShape::Block(s) => block_ok(s, d),
        ActionShape::Cond(c, s, f) => value_ok(c, d) && action_ok(*s, d) && action_ok(*f, vars_after(*s, d)),
        ActionShape::Return(Some(v)) => value_ok(v, d),
        _ => true,
    }
}

/// Whether an assignment indexes no array and reads each variable only where it is known.
pub open spec fn assign_ok(l: ValueShape, r: ValueShape, d: Set<Seq<char>>) -> bool {
    match l {
        ValueShape::Var(n) => value_ok(r, d.insert(n)),
        ValueShape::Index(_, _) => false,
        ValueShape::Binary(_, _, _) | ValueShape::Unary(_, _) | ValueShape::Call(_, _) => value_ok(l, d) && value_ok(r, d),
        _ => true,
    }
}

/// Whether a list of actions, compiled in order, indexes no array and reads each variable
/// only where it is known.
pub open spec fn block_ok(s: Seq<ActionShape>, d: Set<Seq<char>>) -> bool
    decreases s,
{
    if s.len() == 0 {
        true
    } else {
        block_ok(s.drop_last(), d) && action_ok(s.last(), block_vars_after(s.drop_last(), d))
    }
}

/// The most registers that compiling an action reserves.
pub open spec fn action_regs(a: ActionShape) -> nat
    decreases a,
{
    match a {
        ActionShape::Eval(v) => anon_count(v),
        ActionShape::Assign(l, r) => anon_count(l) + anon_count(r) + 2,
        ActionShape::AugAssign(l, _, r) => anon_count(l) + anon_count(r) + 2,
        ActionShape::Loop(b) => action_regs(*b),
        ActionShape::Block(s) => block_regs(s),
        ActionShape::Cond(c, s, f) => anon_count(c) + action_regs(*s) + action_regs(*f),
        ActionShape::Return(Some(v)) => anon_count(v),
        _ => 0,
    }
}

/// The most registers that compiling a list of actions reserves.
pub open spec fn block_regs(s: Seq<ActionShape>) -> nat
    decreases s,
{
    if s.len() == 0 {
        0
    } else {
        block_regs(s.drop_last()) + action_regs(s.last())
    }
}

/// The most labels that compiling an action reserves.
pub open spec fn action_labels(a: ActionShape) -> nat
    decreases a,
{
    match a {
        ActionShape::Loop(b) => action_labels(*b) + 2,
        ActionShape::Block(s) => block_labels(s),
        ActionShape::Cond(_, s, f) => action_labels(*s) + action_labels(*f) + 3,
        _ => 0,
    }
}

/// The most labels that compiling a list of actions reserves.
pub open spec fn block_labels(s: Seq<ActionShape>) -> nat
    decreases s,
{
    if s.len() == 0 {
        0
    } else {
        block_labels(s.drop_last()) + action_labels(s.last())
    }
}

/// The variables known in the scopes.
pub open spec fn known_vars(s: State) -> Set<Seq<char>> {
    Set::new(|n: Seq<char>| has_var(s.var_scope.inner(), n))
}

/// The index of the next label of the scopes.
pub open spec fn label_index(s: State) -> nat {
    s.label_scope.allocator().upcoming().0 as nat
}

/// Whether an action can be compiled in the scopes: it indexes no array, reads only variables
/// known where it reads them, and leaves enough registers and labels.
pub open spec fn can_lower(a: ActionShape, s: State) -> bool {
    &&& action_ok(a, known_vars(s))
    &&& s.var_scope.inner().allocator().upcoming().local + action_regs(a) < usize::MAX
    &&& label_index(s) + action_labels(a) < usize::MAX
}

/// Compiling an action took the scopes from `a` to `b`: its variables became known, within
/// `regs` registers and `labels` labels; functions and types are unchanged.
pub open spec fn lowered_within(a: State, b: State, act: ActionShape, regs: nat, labels: nat) -> bool {
    &&& ready(b)
    &&& b.var_scope.depth() == a.var_scope.depth()
    &&& b.var_scope.inner().allocator().upcoming().global == a.var_scope.inner().allocator().upcoming().global
    &&& a.var_scope.inner().allocator().upcoming().local <= b.var_scope.inner().allocator().upcoming().local
    &&& b.var_scope.inner().allocator().upcoming().local <= a.var_scope.inner().allocator().upcoming().local + regs
    &&& forall|n: Seq<char>| #[trigger] vars_after(act, known_vars(a)).contains(n) ==> has_var(b.var_scope.inner(), n)
    &&& forall|n: Seq<char>| has_var(a.var_scope.inner(), n) ==> #[trigger] has_var(b.var_scope.inner(), n)
    &&& label_index(a) <= label_index(b) <= label_index(a) + labels
    &&& b.fun_scope == a.fun_scope
    &&& b.ty_scope == a.ty_scope
}

/// The labels of a loop, as indexes.
pub open spec fn jumps_view(j: Option<(BlockSymbol, BlockSymbol)>) -> Option<(nat, nat)> {
    match j {
        Some((e, x)) => Some((e.0 as nat, x.0 as nat)),
        None => None,
    }
}

/// Compiling kept the scopes consistent, with functions and types unchanged, and within the
/// given numbers of registers and labels.
pub open spec fn kept_scopes(a: State, b: State, regs: nat, labels: nat) -> bool {
    &&& ready(b)
    &&& b.var_scope.depth() == a.var_scope.depth()
    &&& b.var_scope.inner().allocator().upcoming().global == a.var_scope.inner().allocator().upcoming().global
    &&& a.var_scope.inner().allocator().upcoming().local <= b.var_scope.inner().allocator().upcoming().local
    &&& b.var_scope.inner().allocator().upcoming().local <= a.var_scope.inner().allocator().upcoming().local + regs
    &&& forall|n: Seq<char>| has_var(a.var_scope.inner(), n) ==> #[trigger] has_var(b.var_scope.inner(), n)
    &&& label_index(a) <= label_index(b) <= label_index(a) + labels
    &&& b.fun_scope == a.fun_scope
    &&& b.ty_scope == a.ty_scope
}

/// A prefix of a list of actions that compiles in order from `d` also does.
pub proof fn lemma_block_ok_prefix(s: Seq<ActionShape>, d: Set<Seq<char>>, k: int)
    requires
        0 <= k <= s.len(),
        block_ok(s, d),
    ensures
        block_ok(s.take(k), d),
    decreases s.len() - k,
{
    if k < s.len() {
        lemma_block_ok_prefix(s, d, k + 1);
        assert(s.take(k + 1).drop_last() =~= s.take(k));
    } else {
        assert(s.take(k) =~= s);
    }
}

/// The registers and labels of a prefix of a list of actions are within those of the whole.
pub proof fn lemma_block_counts_prefix(s: Seq<ActionShape>, k: int)
    requires
        0 <= k <= s.len(),
    ensures
        block_regs(s.take(k)) <= block_regs(s),
        block_labels(s.take(k)) <= block_labels(s),
    decreases s.len() - k,
{
    if k < s.len() {
        lemma_block_counts_prefix(s, k + 1);
        assert(s.take(k + 1).drop_last() =~= s.take(k));
    } else {
        assert(s.take(k) =~= s);
    }
}

/// The shapes of a list of actions are those of its items, one by one.
pub proof fn lemma_action_shapes_index(s: Seq<Action>)
    ensures
        action_shapes(s).len() == s.len(),
        forall|i: int| 0 <= i < s.len() ==> #[trigger] action_shapes(s)[i] == action_shape(s[i]),
    decreases s.len(),
{
    if s.len() > 0 {
        lemma_action_shapes_index(s.drop_last());
    }
}

impl Thunk {
    /// This thunk with an instruction added at its end.
    pub fn with(self, bc: Bc) -> (r: Thunk)
        ensures
            thunk_shape(r) == push_shape(thunk_shape(self), bc_shape(bc)),
        decreases self,
    {
        let ghost s0 = self;
        match self {
            Thunk::Empty => {
                let mut c: Vec<Bc> = Vec::new();
                c.push(bc);
                proof {
                    assert(c@ =~= seq![bc]);
                    assert(code_shape(c@) =~= seq![bc_shape(bc)]);
                }
                let r = Thunk::Code(c);
                assert(thunk_shape(r) == ThunkShape::Code(code_shape(c@)));
                assert(thunk_shape(s0) == ThunkShape::Empty);
                assert(push_shape(ThunkShape::Empty, bc_shape(bc)) == ThunkShape::Code(seq![bc_shape(bc)]));
                r
            },
            Thunk::Code(mut c) => {
                let ghost c0 = c@;
                c.push(bc);
                proof {
                    lemma_code_shape_push(c0, bc);
                }
                Thunk::Code(c)
            },
            Thunk::Nested(mut ts) => {
                if ts.len() == 0 {
                    proof {
                        assert(thunk_shapes(ts@) =~= Seq::<ThunkShape>::empty());
                    }
                    let mut one_code: Vec<Bc> = Vec::new();
                    one_code.push(bc);
                    proof {
                        assert(one_code@ =~= seq![bc]);
                        assert(code_shape(one_code@) =~= seq![bc_shape(bc)]);
                    }
                    let mut one: Vec<Thunk> = Vec::new();
                    one.push(Thunk::Code(one_code));
                    proof {
                        let o = one@;
                        assert(o.drop_last() =~= Seq::<Thunk>::empty());
                        assert(thunk_shapes(o.drop_last()) =~= Seq::<ThunkShape>::empty());
                        assert(thunk_shape(o.last()) == ThunkShape::Code(seq![bc_shape(bc)]));
                        assert(thunk_shapes(o) =~= seq![ThunkShape::Code(seq![bc_shape(bc)])]);
                    }
                    Thunk::Nested(one)
                } else {
                    let ghost all = ts@;
                    proof {
                        assert(decreases_to!(s0 => ts));
                        assert(decreases_to!(ts => ts@));
                        assert(decreases_to!(ts@ => ts@[ts@.len() - 1]));
                    }
                    let last = ts.pop().unwrap();
                    assert(last == all.last());
                    let last2 = last.with(bc);
                    ts.push(last2);
                    proof {
                        assert(ts@.drop_last() =~= all.drop_last());
                        assert(thunk_shapes(all) == thunk_shapes(all.drop_last()).push(thunk_shape(all.last())));
                        assert(thunk_shapes(ts@) == thunk_shapes(all.drop_last()).push(thunk_shape(last2)));
                        assert(thunk_shapes(ts@) =~= thunk_shapes(all).update(
                            thunk_shapes(all).len() - 1,
                            push_shape(thunk_shapes(all).last(), bc_shape(bc)),
                        ));
                    }
                    proof {
                        assert(thunk_shape(s0) == ThunkShape::Nested(thunk_shapes(all)));
                        assert(thunk_shapes(all).len() > 0);
                    }
                    Thunk::Nested(ts)
                }
            },
            Thunk::Labeled { entry, code, exit } => {
                let inner = (*code).with(bc);
                Thunk::Labeled { entry, code: Box::new(inner), exit }
            },
        }
    }

    /// Adds an instruction at the end of this thunk.
    pub fn push(&mut self, bc: Bc)
        ensures
            thunk_shape(*final(self)) == push_shape(thunk_shape(*old(self)), bc_shape(bc)),
    {
        let mut t = Thunk::Empty;
        std::mem::swap(&mut t, self);
        *self = t.with(bc);
    }
}

/// Reserves the next label.
fn reserve_label(state: &mut State) -> (r: BlockSymbol)
    requires
        ready(*old(state)),
        label_index(*old(state)) + 1 < usize::MAX,
    ensures
        ready(*final(state)),
        r == blk(label_index(*old(state))),
        label_index(*final(state)) == label_index(*old(state)) + 1,
        final(state).var_scope == old(state).var_scope,
        final(state).fun_scope == old(state).fun_scope,
        final(state).ty_scope == old(state).ty_scope,
{
    state.label_scope.reserve_symbol()
}

/// Compiles an action, with the labels of the innermost enclosing loop, reading only the
/// variables of `d` where the action reads them.
#[verifier::spinoff_prover]
#[verifier::rlimit(100)]
fn lower_action(state: &mut State, action: &Action, jumps: Option<(BlockSymbol, BlockSymbol)>, Ghost(d): Ghost<Set<Seq<char>>>) -> (r: Result<Thunk, Error>)
    requires
        ready(*old(state)),
        action_ok(action_shape(*action), d),
        d.subset_of(known_vars(*old(state))),
        old(state).var_scope.inner().allocator().upcoming().local + action_regs(action_shape(*action)) < usize::MAX,
        label_index(*old(state)) + action_labels(action_shape(*action)) < usize::MAX,
    ensures
        kept_scopes(*old(state), *final(state), action_regs(action_shape(*action)), action_labels(action_shape(*action))),
        match r {
            Ok(t) => {
                &&& action_thunk(action_shape(*action), jumps_view(jumps), label_index(*old(state)),
                    old(state).fun_scope.scope_spec().visible(), old(state).ty_scope.scope_spec().visible())
                    == Ok::<(ThunkShape, nat), ErrShape>((thunk_shape(t), label_index(*final(state))))
                &&& vars_after(action_shape(*action), d).subset_of(known_vars(*final(state)))
            },
            Err(e) => action_thunk(action_shape(*action), jumps_view(jumps), label_index(*old(state)),
                old(state).fun_scope.scope_spec().visible(), old(state).ty_scope.scope_spec().visible())
                == Err::<(ThunkShape, nat), ErrShape>(err_shape(e)),
        },
        r matches Ok(t) ==> action_assigns_to_register(*action, *old(state), t),
    decreases action,
{
    let ghost funs = state.fun_scope.scope_spec().visible();
    let ghost tys = state.ty_scope.scope_spec().visible();
    let ghost a = action_shape(*action);
    let ghost s0 = *state;
    let range = action.0.clone();
    match &action.1 {
        ActionKind::Eval(v) => {
            proof {
                assert forall|n: Seq<char>| reads_var(value_shape(*v), n) implies #[trigger] has_var(state.var_scope.inner(), n) by {
                    assert(d.contains(n));
                    assert(known_vars(*state).contains(n));
                }
            }
            match ValueContext::new(ValueContextKind::Push).try_transform(state, v) {
                Ok(c) => {
                    proof {
                        assert forall|n: Seq<char>| d.contains(n) implies #[trigger] known_vars(*state).contains(n) by {
                            assert(known_vars(s0).contains(n));
                        }
                    }
                    Ok(Thunk::Code(c))
                },
                Err(e) => Err(e),
            }
        },
        ActionKind::Assign(lhs, rhs) => lower_assign(state, lhs, rhs, range, Ghost(d)),
        ActionKind::AugAssign(lhs, _, rhs) => lower_assign(state, lhs, rhs, range, Ghost(d)),
        ActionKind::Loop(body) => {
            let entry = reserve_label(state);
            let exit = reserve_label(state);
            match lower_action(state, body, Some((entry, exit)), Ghost(d)) {
                Ok(t) => {
                    let b = Bc::JumpSymbol(entry, JumpCond::Always);
                    let t2 = t.with(b);
                    let r = Thunk::Labeled { entry, code: Box::new(t2), exit };
                    proof {
                        assert(bc_shape(b) == jump(label_index(s0)));
                        assert(thunk_shape(r) == ThunkShape::Labeled(entry, Box::new(thunk_shape(t2)), exit));
                    }
                    Ok(r)
                },
                Err(e) => Err(e),
            }
        },
        ActionKind::Block(actions) => {
            let ghost shapes = action_shapes(actions@);
            proof {
                lemma_action_shapes_index(actions@);
                assert(shapes.take(0) =~= Seq::<ActionShape>::empty());
                assert(thunk_shapes(Seq::<Thunk>::empty()) =~= Seq::<ThunkShape>::empty());
                assert forall|i: int| 0 <= i < actions@.len() implies decreases_to!(*action => #[trigger] actions@[i]) by {
                    assert(decreases_to!(*action => action.1));
                    assert(decreases_to!(action.1 => *actions));
                    assert(decreases_to!(*actions => actions@));
                    assert(decreases_to!(actions@ => actions@[i]));
                }
            }
            let mut out: Vec<Thunk> = Vec::new();
            let mut i: usize = 0;
            while i < actions.len()
                invariant
                    i <= actions@.len(),
                    shapes == action_shapes(actions@),
                    shapes.len() == actions@.len(),
                    forall|j: int| 0 <= j < actions@.len() ==> #[trigger] shapes[j] == action_shape(actions@[j]),
                    forall|j: int| 0 <= j < actions@.len() ==> decreases_to!(*action => #[trigger] actions@[j]),
                    a == action_shape(*action),
                    a == ActionShape::Block(shapes),
                    s0 == *old(state),
                    ready(s0),
                    action_ok(a, d),
                    d.subset_of(known_vars(s0)),
                    s0.var_scope.inner().allocator().upcoming().local + action_regs(a) < usize::MAX,
                    label_index(s0) + action_labels(a) < usize::MAX,
                    funs == s0.fun_scope.scope_spec().visible(),
                    tys == s0.ty_scope.scope_spec().visible(),
                    kept_scopes(s0, *state, block_regs(shapes.take(i as int)), block_labels(shapes.take(i as int))),
                    block_thunks(shapes.take(i as int), jumps_view(jumps), label_index(s0), funs, tys)
                        == Ok::<(Seq<ThunkShape>, nat), ErrShape>((thunk_shapes(out@), label_index(*state))),
                    block_vars_after(shapes.take(i as int), d).subset_of(known_vars(*state)),
                decreases actions@.len() - i,
            {
                let ghost before = out@;
                let ghost si = *state;
                proof {
                    lemma_block_counts_prefix(shapes, i + 1);
                    lemma_block_ok_prefix(shapes, d, i + 1);
                    assert(shapes.take(i + 1).drop_last() =~= shapes.take(i as int));
                    assert(shapes.take(i + 1).last() == shapes[i as int]);
                }
                match lower_action(state, &actions[i], jumps, Ghost(block_vars_after(shapes.take(i as int), d))) {
                    Ok(t) => {
                        out.push(t);
                        proof {
                            assert(out@.drop_last() =~= before);
                        }
                    },
                    Err(e) => {
                        proof {
                            lemma_block_thunks_err(shapes, i + 1, jumps_view(jumps), label_index(s0), funs, tys);
                        }
                        return Err(e);
                    },
                }
                i += 1;
            }
            proof {
                assert(shapes.take(actions@.len() as int) =~= shapes);
            }
            Ok(Thunk::Nested(out))
        },
        ActionKind::ConditionBlock { condition, success, failure } => {
            let entry = reserve_label(state);
            let exit = reserve_label(state);
            let if_exit = reserve_label(state);
            proof {
                assert forall|n: Seq<char>| reads_var(value_shape(*condition), n) implies #[trigger] has_var(state.var_scope.inner(), n) by {
                    assert(d.contains(n));
                    assert(known_vars(s0).contains(n));
                }
            }
            let mut cond_code = match ValueContext::new(ValueContextKind::Push).try_transform(state, condition) {
                Ok(c) => c,
                Err(e) => {
                    return Err(e);
                },
            };
            let ghost cc = cond_code@;
            let b1 = Bc::PopTest;
            let b2 = Bc::JumpSymbol(if_exit, JumpCond::CondFalse);
            cond_code.push(b1);
            cond_code.push(b2);
            proof {
                lemma_code_shape_push(cc, b1);
                lemma_code_shape_push(cc.push(b1), b2);
                assert(code_shape(cc).push(bc_shape(b1)).push(bc_shape(b2)) =~= code_shape(cc) + seq![bc_shape(b1), bc_shape(b2)]);
            }
            let st = match lower_action(state, success, jumps, Ghost(d)) {
                Ok(t) => t,
                Err(e) => {
                    return Err(e);
                },
            };
            let ft = match lower_action(state, failure, jumps, Ghost(vars_after(action_shape(**success), d))) {
                Ok(t) => t,
                Err(e) => {
                    return Err(e);
                },
            };
            let jb = Bc::JumpSymbol(exit, JumpCond::Always);
            let st2 = st.with(jb);
            let ghost ccode = cond_code@;
            let c1 = Thunk::Code(cond_code);
            proof {
                lemma_thunk_shapes_two(c1, st2);
                assert(thunk_shape(c1) == ThunkShape::Code(code_shape(ccode)));
            }
            let n1 = Thunk::Nested(pair(c1, st2));
            proof {
                assert(thunk_shape(n1) == ThunkShape::Nested(seq![thunk_shape(c1), thunk_shape(st2)]));
            }
            let if_thunk = Thunk::Labeled { entry, code: Box::new(n1), exit: if_exit };
            proof {
                assert(thunk_shape(if_thunk) == ThunkShape::Labeled(entry, Box::new(thunk_shape(n1)), if_exit));
            }
            let else_thunk = Thunk::Labeled { entry: if_exit, code: Box::new(ft), exit };
            proof {
                assert(thunk_shape(else_thunk) == ThunkShape::Labeled(if_exit, Box::new(thunk_shape(ft)), exit));
                lemma_thunk_shapes_two(if_thunk, else_thunk);
            }
            let n2 = Thunk::Nested(pair(if_thunk, else_thunk));
            proof {
                assert(thunk_shape(n2) == ThunkShape::Nested(seq![thunk_shape(if_thunk), thunk_shape(else_thunk)]));
            }
            let r = Thunk::Labeled { entry, code: Box::new(n2), exit };
            proof {
                assert(thunk_shape(r) == ThunkShape::Labeled(entry, Box::new(thunk_shape(n2)), exit));
                assert(thunk_shape(r) == cond_shape_of(label_index(s0), code_shape(cc), thunk_shape(st), thunk_shape(ft)));
            }
            Ok(r)
        },
        ActionKind::Continue => match jumps {
            Some((entry, _)) => {
                let b = Bc::JumpSymbol(entry, JumpCond::Always);
                let code = vec![b];
                proof {
                    assert(code_shape(code@) =~= seq![bc_shape(b)]);
                }
                Ok(Thunk::Code(code))
            },
            None => Err(Error { range, kind: ErrorKind::ContinueOutsideOfLoop }),
        },
        ActionKind::Break => match jumps {
            Some((_, exit)) => {
                let b = Bc::JumpSymbol(exit, JumpCond::Always);
                let code = vec![b];
                proof {
                    assert(code_shape(code@) =~= seq![bc_shape(b)]);
                }
                Ok(Thunk::Code(code))
            },
            None => Err(Error { range, kind: ErrorKind::BreakOutsideOfLoop }),
        },
        ActionKind::Return(Some(v)) => {
            proof {
                assert forall|n: Seq<char>| reads_var(value_shape(*v), n) implies #[trigger] has_var(state.var_scope.inner(), n) by {
                    assert(d.contains(n));
                    assert(known_vars(*state).contains(n));
                }
            }
            match ValueContext::new(ValueContextKind::Ret).try_transform(state, v) {
                Ok(c) => {
                    proof {
                        assert forall|n: Seq<char>| d.contains(n) implies #[trigger] known_vars(*state).contains(n) by {
                            assert(known_vars(s0).contains(n));
                        }
                    }
                    Ok(Thunk::Code(c))
                },
                Err(e) => Err(e),
            }
        },
        ActionKind::Return(None) => {
            let b = Bc::PushRet(bc::Value::Nothing);
            let code = vec![b];
            proof {
                assert(code_shape(code@) =~= seq![bc_shape(b)]);
            }
            Ok(Thunk::Code(code))
        },
        ActionKind::Nop => Ok(Thunk::Empty),
    }
}

/// A list of two thunks.
fn pair(a: Thunk, b: Thunk) -> (r: Vec<Thunk>)
    ensures
        r@ == seq![a, b],
{
    let mut v: Vec<Thunk> = Vec::new();
    v.push(a);
    v.push(b);
    v
}

/// The shapes of a list of two thunks.
pub proof fn lemma_thunk_shapes_two(a: Thunk, b: Thunk)
    ensures
        thunk_shapes(seq![a, b]) == seq![thunk_shape(a), thunk_shape(b)],
{
    let s = seq![a, b];
    assert(s.drop_last() =~= seq![a]);
    assert(seq![a].drop_last() =~= Seq::<Thunk>::empty());
    assert(thunk_shapes(seq![a].drop_last()) =~= Seq::<ThunkShape>::empty());
    assert(thunk_shapes(seq![a]) =~= seq![thunk_shape(a)]);
    assert(thunk_shapes(s) =~= seq![thunk_shape(a), thunk_shape(b)]);
}

/// An error met in a prefix of a list of actions is the error met in the whole list.
pub proof fn lemma_block_thunks_err(s: Seq<ActionShape>, j: int, jumps: Option<(nat, nat)>, next: nat, funs: Seq<Fun>, tys: Seq<Ty>)
    requires
        0 <= j <= s.len(),
        block_thunks(s.take(j), jumps, next, funs, tys) is Err,
    ensures
        block_thunks(s, jumps, next, funs, tys) == block_thunks(s.take(j), jumps, next, funs, tys),
    decreases s.len() - j,
{
    if j < s.len() {
        assert(s.take(j + 1).drop_last() =~= s.take(j));
        lemma_block_thunks_err(s, j + 1, jumps, next, funs, tys);
    } else {
        assert(s.take(j) =~= s);
    }
}

/// Compiles an assignment.
fn lower_assign(state: &mut State, lhs: &Value, rhs: &Value, range: crate::common::pos::Range, Ghost(d): Ghost<Set<Seq<char>>>) -> (r: Result<Thunk, Error>)
    requires
        ready(*old(state)),
        assign_ok(value_shape(*lhs), value_shape(*rhs), d),
        d.subset_of(known_vars(*old(state))),
        old(state).var_scope.inner().allocator().upcoming().local + anon_count(value_shape(*lhs)) + anon_count(value_shape(*rhs)) + 2 < usize::MAX,
    ensures
        kept_scopes(*old(state), *final(state), anon_count(value_shape(*lhs)) + anon_count(value_shape(*rhs)) + 2, 0),
        match r {
            Ok(t) => {
                &&& assign_thunk(value_shape(*lhs), value_shape(*rhs), label_index(*old(state)),
                    old(state).fun_scope.scope_spec().visible(), old(state).ty_scope.scope_spec().visible())
                    == Ok::<(ThunkShape, nat), ErrShape>((thunk_shape(t), label_index(*final(state))))
                &&& (match value_shape(*lhs) {
                    ValueShape::Var(n) => d.insert(n),
                    _ => d,
                }).subset_of(known_vars(*final(state)))
            },
            Err(e) => assign_thunk(value_shape(*lhs), value_shape(*rhs), label_index(*old(state)),
                old(state).fun_scope.scope_spec().visible(), old(state).ty_scope.scope_spec().visible())
                == Err::<(ThunkShape, nat), ErrShape>(err_shape(e)),
        },
        r matches Ok(t) ==> assigns_to_register(*lhs, *old(state), t),
{
    let ghost s0 = *state;
    match &lhs.1 {
        ValueKind::Symbol(symbol::Symbol::Variable(name)) => {
            let ghost vis = state.var_scope.inner().scope_spec().visible();
            let reg = state.var_scope.get_or_insert(name.as_str());
            proof {
                if visible_var(s0, *lhs) is Some {
                    let i = choose|i: int| first_named(vis, name@, i) && reg == vis[i].symbol;
                    let j = choose|j: int| first_named(vis, name@, j);
                    lemma_first_named_unique(vis, name@, i, j);
                    assert(reg == var_register(s0, name@));
                }
                assert forall|n: Seq<char>| reads_var(value_shape(*rhs), n) implies #[trigger] has_var(state.var_scope.inner(), n) by {
                    assert(d.insert(name@).contains(n));
                    if n != name@ {
                        assert(known_vars(s0).contains(n));
                    }
                }
            }
            match ValueContext::new(ValueContextKind::Store(Ref::Reg(reg))).try_transform(state, rhs) {
                Ok(c) => {
                    proof {
                        assert forall|n: Seq<char>| d.insert(name@).contains(n) implies #[trigger] known_vars(*state).contains(n) by {
                            if n != name@ {
                                assert(known_vars(s0).contains(n));
                            }
                        }
                    }
                    Ok(Thunk::Code(c))
                },
                Err(e) => Err(e),
            }
        },
        ValueKind::ArrayAccess(_, _) => {
            proof {
                assert(false);
            }
            Ok(Thunk::Empty)
        },
        ValueKind::BinaryExpr(_, _, _) | ValueKind::UnaryExpr(_, _) | ValueKind::FunCall(_, _) => {
            let lhs_store = state.var_scope.insert_anonymous_var();
            proof {
                assert forall|n: Seq<char>| reads_var(value_shape(*lhs), n) implies #[trigger] has_var(state.var_scope.inner(), n) by {
                    assert(known_vars(s0).contains(n));
                }
            }
            let mut code = match ValueContext::new(ValueContextKind::Store(Ref::Reg(lhs_store))).try_transform(state, lhs) {
                Ok(c) => c,
                Err(e) => {
                    return Err(e);
                },
            };
            let rhs_store = state.var_scope.insert_anonymous_var();
            proof {
                assert forall|n: Seq<char>| reads_var(value_shape(*rhs), n) implies #[trigger] has_var(state.var_scope.inner(), n) by {
                    assert(known_vars(s0).contains(n));
                }
            }
            let mut rhs_code = match ValueContext::new(ValueContextKind::Store(Ref::Reg(rhs_store))).try_transform(state, rhs) {
                Ok(c) => c,
                Err(e) => {
                    return Err(e);
                },
            };
            state.var_scope.free_anonymous_var(lhs_store);
            state.var_scope.free_anonymous_var(rhs_store);
            let ghost lc = code@;
            let ghost rc = rhs_code@;
            code.append(&mut rhs_code);
            let b1 = Bc::DerefPush(Ref::Reg(lhs_store));
            let b2 = Bc::PopDerefStore(bc::Value::Ref(Ref::Reg(rhs_store)));
            code.push(b1);
            code.push(b2);
            proof {
                lemma_code_shape_add(lc, rc);
                lemma_code_shape_push(lc + rc, b1);
                lemma_code_shape_push((lc + rc).push(b1), b2);
                assert(code_shape(lc) + code_shape(rc) + seq![bc_shape(b1), bc_shape(b2)]
                    =~= code_shape(lc + rc).push(bc_shape(b1)).push(bc_shape(b2)));
            }
            Ok(Thunk::Code(code))
        },
        _ => Err(Error { range, kind: ErrorKind::InvalidAssignLhs }),
    }
}

/// Compiles the actions of the outermost level, where no loop encloses them.
pub struct RootBlock {
    pub state: State,
}

impl RootBlock {
    /// Compiles a block of actions: the error met first, or the thunks of the actions, nested
    /// in order.
    pub fn try_transform_block(&mut self, block: Vec<Action>) -> (r: Result<Thunk, Error>)
        requires
            ready(old(self).state),
            can_lower(ActionShape::Block(action_shapes(block@)), old(self).state),
        ensures
            kept_scopes(old(self).state, final(self).state, block_regs(action_shapes(block@)),
                block_labels(action_shapes(block@))),
            match r {
                Ok(t) => action_thunk(ActionShape::Block(action_shapes(block@)), None, label_index(old(self).state),
                    old(self).state.fun_scope.scope_spec().visible(), old(self).state.ty_scope.scope_spec().visible())
                    == Ok::<(ThunkShape, nat), ErrShape>((thunk_shape(t), label_index(final(self).state))),
                Err(e) => action_thunk(ActionShape::Block(action_shapes(block@)), None, label_index(old(self).state),
                    old(self).state.fun_scope.scope_spec().visible(), old(self).state.ty_scope.scope_spec().visible())
                    == Err::<(ThunkShape, nat), ErrShape>(err_shape(e)),
            },
    {
        self.try_transform_mut(RangeWrapper(crate::common::pos::Range::Builtin, ActionKind::Block(block)))
    }

    /// Compiles an action: the error met first, or its thunk. A `break` or `continue` outside
    /// of any loop is an error.
    pub fn try_transform_mut(&mut self, action: Action) -> (r: Result<Thunk, Error>)
        requires
            ready(old(self).state),
            can_lower(action_shape(action), old(self).state),
        ensures
            kept_scopes(old(self).state, final(self).state, action_regs(action_shape(action)), action_labels(action_shape(action))),
            match r {
                Ok(t) => action_thunk(action_shape(action), None, label_index(old(self).state),
                    old(self).state.fun_scope.scope_spec().visible(), old(self).state.ty_scope.scope_spec().visible())
                    == Ok::<(ThunkShape, nat), ErrShape>((thunk_shape(t), label_index(final(self).state))),
                Err(e) => action_thunk(action_shape(action), None, label_index(old(self).state),
                    old(self).state.fun_scope.scope_spec().visible(), old(self).state.ty_scope.scope_spec().visible())
                    == Err::<(ThunkShape, nat), ErrShape>(err_shape(e)),
            },
            r matches Ok(t) ==> action_assigns_to_register(action, old(self).state, t),
    {
        let ghost d = known_vars(self.state);
        proof {
            assert(d.subset_of(known_vars(self.state)));
        }
        lower_action(&mut self.state, &action, None, Ghost(d))
    }
}

} // verus!
