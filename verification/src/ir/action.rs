use vstd::prelude::*;
use crate::common::lang::{Op, OpView};
use crate::common::pos::{Range, RangeWrapper, Ranged};
use crate::syntax::token::AssignOp;
use crate::syntax::tree::{Block, ConditionBlock, Stmt};
use crate::syntax::grammar::{
    StmtShape, CondShape, stmt_shape, stmts_shape, cond_shape, conds_shape, expr_shape,
};
use crate::ir::value::{Value, ValueShape, value_shape, value_from_expr, lower_expr};

verus! {

/// A kind of action that the language can take: roughly, a statement of the syntax tree.
#[derive(Debug)]
pub enum ActionKind {
    Eval(Value),
    Assign(Value, Value),
    /// An assignment through an operator, such as `+=` or `*=`.
    AugAssign(Value, Op, Value),
    Loop(Box<Action>),
    Block(Vec<Action>),
    ConditionBlock {
        condition: Value,
        success: Box<Action>,
        failure: Box<Action>,
    },
    Continue,
    Break,
    Return(Option<Value>),
    Nop,
}

/// An action, with the range of source it comes from.
pub type Action = RangeWrapper<ActionKind>;

/// The shape of an action: its tree, with the source ranges left out.
pub enum ActionShape {
    Eval(ValueShape),
    Assign(ValueShape, ValueShape),
    AugAssign(ValueShape, OpView, ValueShape),
    Loop(Box<ActionShape>),
    Block(Seq<ActionShape>),
    Cond(ValueShape, Box<ActionShape>, Box<ActionShape>),
    Continue,
    Break,
    Return(Option<ValueShape>),
    Nop,
}

/// The shape of the kind of an action.
pub open spec fn kind_shape(k: ActionKind) -> ActionShape
    decreases k,
{
    match k {
        ActionKind::Eval(v) => ActionShape::Eval(value_shape(v)),
        ActionKind::Assign(l, r) => ActionShape::Assign(value_shape(l), value_shape(r)),
        ActionKind::AugAssign(l, op, r) => ActionShape::AugAssign(value_shape(l), op@, value_shape(r)),
        ActionKind::Loop(a) => ActionShape::Loop(Box::new(kind_shape(a.1))),
        ActionKind::Block(actions) => ActionShape::Block(action_shapes(actions@)),
        ActionKind::ConditionBlock { condition, success, failure } => ActionShape::Cond(
            value_shape(condition),
            Box::new(kind_shape(success.1)),
            Box::new(kind_shape(failure.1)),
        ),
        ActionKind::Continue => ActionShape::Continue,
        ActionKind::Break => ActionShape::Break,
        ActionKind::Return(v) => ActionShape::Return(match v {
            Some(v) => Some(value_shape(v)),
            None => None,
        }),
        ActionKind::Nop => ActionShape::Nop,
    }
}

/// The shape of an action.
pub open spec fn action_shape(a: Action) -> ActionShape {
    kind_shape(a.1)
}

/// The shapes of a list of actions, in order.
pub open spec fn action_shapes(actions: Seq<Action>) -> Seq<ActionShape>
    decreases actions,
{
    if actions.len() == 0 {
        Seq::empty()
    } else {
        action_shapes(actions.drop_last()).push(kind_shape(actions.last().1))
    }
}

/// The operator that an assignment operator applies before it stores; `=` applies none.
pub open spec fn aug_op(op: AssignOp) -> Option<OpView> {
    match op {
        AssignOp::Equals => None,
        AssignOp::PlusEquals => Some(OpView::Plus),
        AssignOp::MinusEquals => Some(OpView::Minus),
        AssignOp::SplatEquals => Some(OpView::Splat),
        AssignOp::FSlashEquals => Some(OpView::FSlash),
        AssignOp::TildeEquals => Some(OpView::Tilde),
    }
}

/// The action that a statement stands for. A definition takes no action; a `while` loop is a
/// loop around a condition block that breaks out when the condition fails; an `if` with its
/// `else if` blocks becomes condition blocks nested through their failure branches, the
/// innermost failing to the `else` block or to no action.
pub open spec fn lower_stmt(s: StmtShape) -> ActionShape
    decreases s,
{
    match s {
        StmtShape::Fun(_) => ActionShape::Nop,
        StmtShape::UserTy(_, _, _) => ActionShape::Nop,
        StmtShape::Expr(e) => ActionShape::Eval(lower_expr(e)),
        StmtShape::Assign(l, op, r) => match aug_op(op) {
            None => ActionShape::Assign(lower_expr(l), lower_expr(r)),
            Some(o) => ActionShape::AugAssign(lower_expr(l), o, lower_expr(r)),
        },
        StmtShape::While(c) => ActionShape::Loop(Box::new(ActionShape::Cond(
            lower_expr(c.cond),
            Box::new(ActionShape::Block(lower_stmts(c.body))),
            Box::new(ActionShape::Break),
        ))),
        StmtShape::Loop(b) => ActionShape::Loop(Box::new(ActionShape::Block(lower_stmts(b)))),
        StmtShape::If(c, elifs, els) => ActionShape::Cond(
            lower_expr(c.cond),
            Box::new(ActionShape::Block(lower_stmts(c.body))),
            Box::new(lower_elifs(elifs, match els {
                Some(b) => ActionShape::Block(lower_stmts(b)),
                None => ActionShape::Nop,
            })),
        ),
        StmtShape::Continue => ActionShape::Continue,
        StmtShape::Break => ActionShape::Break,
        StmtShape::Return(v) => ActionShape::Return(match v {
            Some(e) => Some(lower_expr(e)),
            None => None,
        }),
    }
}

/// The actions of a list of statements, in order.
pub open spec fn lower_stmts(ss: Seq<StmtShape>) -> Seq<ActionShape>
    decreases ss,
{
    if ss.len() == 0 {
        Seq::empty()
    } else {
        lower_stmts(ss.drop_last()).push(lower_stmt(ss.last()))
    }
}

/// The `else if` blocks of an `if`, as condition blocks nested through their failure
/// branches, the last one failing to `tail`.
pub open spec fn lower_elifs(elifs: Seq<CondShape>, tail: ActionShape) -> ActionShape
    decreases elifs,
{
    if elifs.len() == 0 {
        tail
    } else {
        let last = elifs.last();
        lower_elifs(elifs.drop_last(), ActionShape::Cond(
            lower_expr(last.cond),
            Box::new(ActionShape::Block(lower_stmts(last.body))),
            Box::new(tail),
        ))
    }
}

/// The action of an `else` block, or no action where there is none.
pub open spec fn else_action(b: Option<Block>) -> ActionShape {
    match b {
        Some(b) => ActionShape::Block(lower_stmts(stmts_shape(b.1@))),
        None => ActionShape::Nop,
    }
}

/// The operator that an assignment operator applies before it stores.
fn assign_op_to_op(op: AssignOp) -> (r: Option<Op>)
    ensures
        match r {
            Some(o) => aug_op(op) == Some(o@),
            None => aug_op(op) is None,
        },
{
    match op {
        AssignOp::Equals => None,
        AssignOp::PlusEquals => Some(Op::Plus),
        AssignOp::MinusEquals => Some(Op::Minus),
        AssignOp::SplatEquals => Some(Op::Splat),
        AssignOp::FSlashEquals => Some(Op::FSlash),
        AssignOp::TildeEquals => Some(Op::Tilde),
    }
}

/// The action of a block of statements: a block of their actions, in order.
pub fn action_from_block(block: Block) -> (r: Action)
    ensures
        action_shape(r) == ActionShape::Block(lower_stmts(stmts_shape(block.1@))),
        r.0 == block.0,
    decreases block, 1int,
{
    let RangeWrapper(range, stmts) = block;
    let ghost all = stmts@;
    proof {
        assert forall|i: int| 0 <= i < all.len() implies decreases_to!(block => #[trigger] all[i]) by {
            assert(decreases_to!(block => block.1));
            assert(decreases_to!(block.1 => block.1@));
            assert(decreases_to!(block.1@ => block.1@[i]));
        }
        assert(all.subrange(0, 0) =~= Seq::<Stmt>::empty());
    }
    let mut rest = stmts;
    let mut out: Vec<Action> = Vec::new();
    while rest.len() > 0
        invariant
            all.len() == out@.len() + rest@.len(),
            rest@ == all.subrange(out@.len() as int, all.len() as int),
            action_shapes(out@) == lower_stmts(stmts_shape(all.subrange(0, out@.len() as int))),
            forall|i: int| 0 <= i < all.len() ==> decreases_to!(block => #[trigger] all[i]),
        decreases rest.len(),
    {
        let k = out.len();
        let ghost before = out@;
        let s = rest.remove(0);
        assert(s == all[k as int]);
        let ghost ss = stmt_shape(s);
        let a = action_from_stmt(s);
        out.push(a);
        proof {
            let pre = all.subrange(0, k as int);
            let now = all.subrange(0, k + 1);
            assert(now.drop_last() =~= pre);
            assert(now.last() == all[k as int]);
            assert(out@.drop_last() =~= before);
            assert(action_shapes(out@) == action_shapes(before).push(lower_stmt(ss)));
            let z = stmts_shape(now);
            assert(z == stmts_shape(pre).push(ss));
            assert(z.drop_last() =~= stmts_shape(pre));
            assert(lower_stmts(z) == lower_stmts(z.drop_last()).push(lower_stmt(z.last())));
            assert(rest@ =~= all.subrange(k + 1, all.len() as int));
        }
    }
    proof {
        assert(all.subrange(0, all.len() as int) =~= all);
    }
    RangeWrapper(range, ActionKind::Block(out))
}

/// The action of a statement.
pub fn action_from_stmt(stmt: Stmt) -> (r: Action)
    ensures
        action_shape(r) == lower_stmt(stmt_shape(stmt)),
        r.0 == stmt.spec_range(),
    decreases stmt, 2int,
{
    let range = stmt.range();
    let ghost sh = lower_stmt(stmt_shape(stmt));
    let kind = match stmt {
        Stmt::Fun(_) => ActionKind::Nop,
        Stmt::UserTy(_) => ActionKind::Nop,
        Stmt::Expr(e) => ActionKind::Eval(value_from_expr(e)),
        Stmt::Assign(lhs, op, rhs) => {
            let l = value_from_expr(lhs);
            let r = value_from_expr(rhs);
            match assign_op_to_op(op) {
                None => ActionKind::Assign(l, r),
                Some(o) => ActionKind::AugAssign(l, o, r),
            }
        },
        Stmt::While(condition_block) => {
            let full_range = condition_block.range();
            let ConditionBlock { condition, block } = condition_block;
            let cond_range = condition.range();
            let c = value_from_expr(condition);
            let success = action_from_block(block);
            let inner = ActionKind::ConditionBlock {
                condition: c,
                success: Box::new(success),
                failure: Box::new(RangeWrapper(cond_range, ActionKind::Break)),
            };
            assert(kind_shape(ActionKind::Break) == ActionShape::Break);
            assert(kind_shape(inner) == ActionShape::Cond(
                value_shape(c),
                Box::new(kind_shape(success.1)),
                Box::new(ActionShape::Break),
            ));
            let k = ActionKind::Loop(Box::new(RangeWrapper(full_range, inner)));
            assert(kind_shape(k) == sh);
            k
        },
        Stmt::Loop(block) => ActionKind::Loop(Box::new(action_from_block(block))),
        Stmt::If { if_block, elseif_blocks, else_block } => {
            let mut tail_range = match &else_block {
                Some(b) => b.0.clone(),
                None => if elseif_blocks.len() > 0 {
                    elseif_blocks[elseif_blocks.len() - 1].range()
                } else {
                    if_block.range()
                },
            };
            let ghost t0 = else_action(else_block);
            let mut tail = match else_block {
                Some(b) => {
                    let RangeWrapper(_, k) = action_from_block(b);
                    k
                },
                None => ActionKind::Nop,
            };
            let ghost all = elseif_blocks@;
            proof {
                assert forall|i: int| 0 <= i < all.len() implies decreases_to!(stmt => (#[trigger] all[i]).block) by {
                    assert(decreases_to!(stmt => elseif_blocks));
                    assert(decreases_to!(elseif_blocks => elseif_blocks@));
                    assert(decreases_to!(elseif_blocks@ => elseif_blocks@[i]));
                    assert(decreases_to!(elseif_blocks@[i] => elseif_blocks@[i].block));
                }
            }
            let mut elifs = elseif_blocks;
            while elifs.len() > 0
                invariant
                    elifs@ == all.subrange(0, elifs@.len() as int),
                    elifs@.len() <= all.len(),
                    lower_elifs(conds_shape(all), t0) == lower_elifs(conds_shape(elifs@), kind_shape(tail)),
                    forall|i: int| 0 <= i < all.len() ==> decreases_to!(stmt => (#[trigger] all[i]).block),
                decreases elifs.len(),
            {
                let ghost before = elifs@;
                let ghost old_tail = kind_shape(tail);
                let cb = elifs.pop().unwrap();
                let ghost cs = cond_shape(cb);
                proof {
                    assert(cb == all[before.len() - 1]);
                    assert(before.drop_last() =~= elifs@);
                    assert(conds_shape(before) == conds_shape(elifs@).push(cs));
                    assert(conds_shape(before).drop_last() =~= conds_shape(elifs@));
                    assert(conds_shape(before).last() == cs);
                }
                let new_range = cb.range();
                let ConditionBlock { condition, block } = cb;
                let c = value_from_expr(condition);
                let success = action_from_block(block);
                tail = ActionKind::ConditionBlock {
                    condition: c,
                    success: Box::new(success),
                    failure: Box::new(RangeWrapper(tail_range, tail)),
                };
                tail_range = new_range;
                proof {
                    assert(elifs@ =~= all.subrange(0, elifs@.len() as int));
                    assert(kind_shape(tail) == ActionShape::Cond(
                        lower_expr(cs.cond),
                        Box::new(ActionShape::Block(lower_stmts(cs.body))),
                        Box::new(old_tail),
                    ));
                    assert(lower_elifs(conds_shape(before), old_tail) == lower_elifs(conds_shape(elifs@), kind_shape(tail)));
                }
            }
            proof {
                assert(conds_shape(elifs@) =~= Seq::<CondShape>::empty());
                assert(kind_shape(tail) == lower_elifs(conds_shape(all), t0));
            }
            let ConditionBlock { condition, block } = if_block;
            let c = value_from_expr(condition);
            let success = action_from_block(block);
            let k = ActionKind::ConditionBlock {
                condition: c,
                success: Box::new(success),
                failure: Box::new(RangeWrapper(tail_range, tail)),
            };
            assert(kind_shape(k) == sh);
            k
        },
        Stmt::Continue(_) => ActionKind::Continue,
        Stmt::Break(_) => ActionKind::Break,
        Stmt::Return(v, _) => match v {
            Some(e) => ActionKind::Return(Some(value_from_expr(e))),
            None => ActionKind::Return(None),
        },
    };
    RangeWrapper(range, kind)
}

/// The shapes of condition blocks are those of each block, one by one.
proof fn lemma_conds_shape_index(cs: Seq<ConditionBlock>)
    ensures
        conds_shape(cs).len() == cs.len(),
        forall|i: int| 0 <= i < cs.len() ==> #[trigger] conds_shape(cs)[i] == cond_shape(cs[i]),
    decreases cs.len(),
{
    if cs.len() > 0 {
        lemma_conds_shape_index(cs.drop_last());
    }
}

/// The head of a chain of `else if` blocks is the first of them: its condition is tested first,
/// and its block runs where that condition holds.
pub proof fn lemma_elifs_head(elifs: Seq<CondShape>, tail: ActionShape)
    requires
        elifs.len() > 0,
    ensures
        lower_elifs(elifs, tail) == ActionShape::Cond(
            lower_expr(elifs[0].cond),
            Box::new(ActionShape::Block(lower_stmts(elifs[0].body))),
            Box::new(lower_elifs(elifs.drop_first(), tail)),
        ),
    decreases elifs.len(),
{
    let last = elifs.last();
    let t2 = ActionShape::Cond(
        lower_expr(last.cond),
        Box::new(ActionShape::Block(lower_stmts(last.body))),
        Box::new(tail),
    );
    assert(lower_elifs(elifs, tail) == lower_elifs(elifs.drop_last(), t2));
    if elifs.len() == 1 {
        assert(elifs.drop_last().len() == 0);
        assert(elifs.drop_first().len() == 0);
        assert(lower_elifs(elifs.drop_first(), tail) == tail);
    } else {
        lemma_elifs_head(elifs.drop_last(), t2);
        assert(elifs.drop_last()[0] == elifs[0]);
        let rest = elifs.drop_first();
        assert(rest.drop_last() =~= elifs.drop_last().drop_first());
        assert(rest.last() == last);
        assert(rest.len() > 0);
        assert(lower_elifs(rest, tail) == lower_elifs(rest.drop_last(), t2));
    }
}

/// What each statement lowers to, read off the action itself: an expression statement
/// evaluates the expression's value; `=` assigns the right value to the left one and an
/// operator assignment applies its operator (`+=` adds, `-=` subtracts, `*=` multiplies, `/=`
/// divides, `~=` concatenates) with the operands in the same order; `return e` returns the value
/// of `e` and a bare `return` returns nothing; `break` and `continue` stay what they are; a
/// `while` loop is a loop around a condition block on its condition, whose success runs the
/// body and whose failure breaks out; `loop` loops over its body; an `if` is a condition block
/// on its condition running its block, which otherwise goes on to the first `else if`, or to
/// the `else` block, or to no action; definitions take no action.
pub proof fn lemma_statement_lowering(stmt: Stmt, r: Action)
    requires
        action_shape(r) == lower_stmt(stmt_shape(stmt)),
    ensures
        match stmt {
            Stmt::Expr(e) => r.1 matches ActionKind::Eval(v) && value_shape(v) == lower_expr(expr_shape(e)),
            Stmt::Assign(l, op, x) => match op {
                AssignOp::Equals => r.1 matches ActionKind::Assign(a, b)
                    && value_shape(a) == lower_expr(expr_shape(l)) && value_shape(b) == lower_expr(expr_shape(x)),
                _ => r.1 matches ActionKind::AugAssign(a, o, b)
                    && value_shape(a) == lower_expr(expr_shape(l)) && value_shape(b) == lower_expr(expr_shape(x))
                    && o@ == match op {
                        AssignOp::PlusEquals => OpView::Plus,
                        AssignOp::MinusEquals => OpView::Minus,
                        AssignOp::SplatEquals => OpView::Splat,
                        AssignOp::FSlashEquals => OpView::FSlash,
                        _ => OpView::Tilde,
                    },
            },
            Stmt::Return(Some(e), _) => r.1 matches ActionKind::Return(Some(v))
                && value_shape(v) == lower_expr(expr_shape(e)),
            Stmt::Return(None, _) => r.1 matches ActionKind::Return(None),
            Stmt::Break(_) => r.1 is Break,
            Stmt::Continue(_) => r.1 is Continue,
            Stmt::While(c) => r.1 matches ActionKind::Loop(inner)
                && inner.1 matches ActionKind::ConditionBlock { condition, success, failure }
                && value_shape(condition) == lower_expr(expr_shape(c.condition))
                && action_shape(*success) == ActionShape::Block(lower_stmts(stmts_shape(c.block.1@)))
                && failure.1 is Break,
            Stmt::Loop(b) => r.1 matches ActionKind::Loop(inner)
                && action_shape(*inner) == ActionShape::Block(lower_stmts(stmts_shape(b.1@))),
            Stmt::If { if_block, elseif_blocks, else_block } => r.1 matches ActionKind::ConditionBlock { condition, success, failure }
                && value_shape(condition) == lower_expr(expr_shape(if_block.condition))
                && action_shape(*success) == ActionShape::Block(lower_stmts(stmts_shape(if_block.block.1@)))
                && if elseif_blocks@.len() > 0 {
                    failure.1 matches ActionKind::ConditionBlock { condition: c2, success: s2, failure: _ }
                        && value_shape(c2) == lower_expr(expr_shape(elseif_blocks@[0].condition))
                        && action_shape(*s2) == ActionShape::Block(lower_stmts(stmts_shape(elseif_blocks@[0].block.1@)))
                } else {
                    match else_block {
                        Some(b) => action_shape(*failure) == ActionShape::Block(lower_stmts(stmts_shape(b.1@))),
                        None => failure.1 is Nop,
                    }
                },
            Stmt::Fun(_) => r.1 is Nop,
            Stmt::UserTy(_) => r.1 is Nop,
        },
{
    match stmt {
        Stmt::If { if_block, elseif_blocks, else_block } => {
            let all = conds_shape(elseif_blocks@);
            if elseif_blocks@.len() > 0 {
                lemma_conds_shape_index(elseif_blocks@);
                lemma_elifs_head(all, else_action(else_block));
            }
        },
        Stmt::While(c) => {
            if let ActionKind::Loop(inner) = r.1 {
                let k = kind_shape(inner.1);
                assert(k == ActionShape::Cond(
                    lower_expr(expr_shape(c.condition)),
                    Box::new(ActionShape::Block(lower_stmts(stmts_shape(c.block.1@)))),
                    Box::new(ActionShape::Break),
                ));
                if let ActionKind::ConditionBlock { condition, success, failure } = inner.1 {
                    assert(kind_shape(failure.1) == ActionShape::Break);
                }
            }
        },
        _ => {},
    }
}

impl From<Stmt> for ActionKind {
    /// The kind of action a statement lowers to.
    fn from(stmt: Stmt) -> (r: Self)
        ensures
            kind_shape(r) == lower_stmt(stmt_shape(stmt)),
    {
        let RangeWrapper(_, kind) = action_from_stmt(stmt);
        kind
    }
}

/// A spec function cannot build the vectors and boxes of an action, so the conversion is not
/// stated through `from_spec`: what `from` gives is stated by its own `ensures`.
impl vstd::std_specs::convert::FromSpecImpl<Stmt> for ActionKind {
    open spec fn obeys_from_spec() -> bool {
        false
    }

    open spec fn from_spec(v: Stmt) -> ActionKind {
        ActionKind::Nop
    }
}

impl From<Stmt> for RangeWrapper<ActionKind> {
    /// The action a statement lowers to, over the statement's range.
    fn from(stmt: Stmt) -> (r: Self)
        ensures
            action_shape(r) == lower_stmt(stmt_shape(stmt)),
            r.0 == stmt.spec_range(),
    {
        action_from_stmt(stmt)
    }
}

/// As for `ActionKind`, what `from` gives is stated by its own `ensures`.
impl vstd::std_specs::convert::FromSpecImpl<Stmt> for RangeWrapper<ActionKind> {
    open spec fn obeys_from_spec() -> bool {
        false
    }

    open spec fn from_spec(v: Stmt) -> RangeWrapper<ActionKind> {
        RangeWrapper(Range::Builtin, ActionKind::Nop)
    }
}

} // verus!
