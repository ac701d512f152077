use vstd::prelude::*;
use crate::common::lang::OpView;
use crate::syntax::token::{AssignOp, TokenView};
use crate::syntax::tree::{Block, ConditionBlock, Expr, Fun, FunParam, Stmt, UserTy, expr_lookahead};

verus! {

// The expression grammar, read over the tokens of a text. Each function gives where the item
// that begins at position `p` ends (the position of the first token after it), or `None` where
// the tokens there form no such item. `level` is how deep inside parentheses the item stands:
// at the outermost level a newline or a comment ends a statement, so the reader does not move
// past them there after a closing token.

/// The token at `p`, or `None` past the end.
pub open spec fn tok_at(all: Seq<TokenView>, p: int) -> Option<TokenView> {
    if 0 <= p < all.len() {
        Some(all[p])
    } else {
        None
    }
}

/// Whether a token is skipped between tokens: a comment or a newline.
pub open spec fn is_ignored(t: TokenView) -> bool {
    t == TokenView::Comment || t == TokenView::NewLine
}

/// The first position from `p` on that holds neither a comment nor a newline.
pub open spec fn skip_ignored(all: Seq<TokenView>, p: int) -> int
    decreases all.len() - p,
{
    if 0 <= p < all.len() && is_ignored(all[p]) {
        skip_ignored(all, p + 1)
    } else {
        p
    }
}

/// Past any comments from `p` on, each together with the comments and newlines that follow it.
pub open spec fn skip_comments(all: Seq<TokenView>, p: int) -> int
    decreases all.len() - p,
{
    if 0 <= p < all.len() && all[p] == TokenView::Comment {
        proof {
            lemma_skip_ignored_bounds(all, p + 1);
        }
        skip_comments(all, skip_ignored(all, p + 1))
    } else {
        p
    }
}

/// Skipping comments stays at or after `p`, and within the tokens where `p` is.
pub proof fn lemma_skip_comments_bounds(all: Seq<TokenView>, p: int)
    ensures
        p <= skip_comments(all, p),
        p <= all.len() ==> skip_comments(all, p) <= all.len(),
        0 <= p && skip_comments(all, p) < all.len() ==> all[skip_comments(all, p)] != TokenView::Comment,
    decreases all.len() - p,
{
    if 0 <= p < all.len() && all[p] == TokenView::Comment {
        lemma_skip_ignored_bounds(all, p + 1);
        lemma_skip_comments_bounds(all, skip_ignored(all, p + 1));
    }
}

/// Past the token at `p` and any comments and newlines that follow it.
pub open spec fn step_past(all: Seq<TokenView>, p: int) -> int {
    skip_ignored(all, p + 1)
}

/// Past the token at `p`: directly behind it at the outermost level, past any comments that
/// follow it inside parentheses.
pub open spec fn step_at_level(all: Seq<TokenView>, p: int, level: int) -> int {
    if level == 0 {
        p + 1
    } else {
        step_past(all, p)
    }
}

/// A call succeeded exactly where the grammar finds an end for its item, and then stopped at
/// that end.
pub open spec fn lands(ok: bool, end: Option<int>, at: int) -> bool {
    if ok {
        end == Some(at)
    } else {
        end is None
    }
}

/// A parse moves forward and stays within the tokens.
pub open spec fn moved(all: Seq<TokenView>, p: int, e: int) -> bool {
    p < e <= all.len()
}

/// Skipping comments stays at or after `p`, and within the tokens where `p` is.
pub proof fn lemma_skip_ignored_bounds(all: Seq<TokenView>, p: int)
    ensures
        p <= skip_ignored(all, p),
        p <= all.len() ==> skip_ignored(all, p) <= all.len(),
        0 <= p && skip_ignored(all, p) < all.len() ==> !is_ignored(all[skip_ignored(all, p)]),
    decreases all.len() - p,
{
    if 0 <= p < all.len() && is_ignored(all[p]) {
        lemma_skip_ignored_bounds(all, p + 1);
    }
}

/// The binary operators by how loosely they bind, the loosest first.
pub open spec fn expr_levels() -> Seq<Seq<OpView>> {
    seq![
        seq![
            OpView::DoublePercent,
            OpView::DoubleEquals,
            OpView::DoubleTilde,
            OpView::NotEquals,
            OpView::LessEquals,
            OpView::GreaterEquals,
            OpView::Less,
            OpView::Greater,
        ],
        seq![OpView::Or],
        seq![OpView::And],
        seq![OpView::Tilde],
        seq![OpView::Plus, OpView::Minus],
        seq![OpView::Splat, OpView::FSlash],
    ]
}

/// How tightly a binary operator binds, the higher the tighter: the comparisons and `%%` bind
/// loosest, then `||`, then `&&`, then `~`, then `+` and `-`, and `*` and `/` tightest. An
/// operator that is not binary has none.
pub open spec fn binding_power(op: OpView) -> Option<int> {
    match op {
        OpView::DoublePercent | OpView::DoubleEquals | OpView::DoubleTilde | OpView::NotEquals
        | OpView::LessEquals | OpView::GreaterEquals | OpView::Less | OpView::Greater => Some(0),
        OpView::Or => Some(1),
        OpView::And => Some(2),
        OpView::Tilde => Some(3),
        OpView::Plus | OpView::Minus => Some(4),
        OpView::Splat | OpView::FSlash => Some(5),
        _ => None,
    }
}

/// Expressions read their binary operators by binding power: the levels of operators, loosest
/// first, hold exactly the operators of each binding power, so that, for one, `&&` binds
/// tighter than `||` and `a || b && c` reads as `a || (b && c)`, and `*` tighter than `+`.
pub proof fn lemma_expr_levels_bind_by_power()
    ensures
        expr_levels().len() == 6,
        forall|i: int, k: int| 0 <= i < expr_levels().len() && 0 <= k < expr_levels()[i].len()
            ==> binding_power(#[trigger] expr_levels()[i][k]) == Some(i),
        forall|op: OpView, i: int| binding_power(op) == Some(i) ==> #[trigger] expr_levels()[i].contains(op),
{
    let t = expr_levels();
    assert(t[0].len() == 8 && t[1].len() == 1 && t[2].len() == 1 && t[3].len() == 1 && t[4].len() == 2 && t[5].len() == 2);
    assert forall|op: OpView, i: int| binding_power(op) == Some(i) implies #[trigger] expr_levels()[i].contains(op) by {
        match op {
            OpView::DoublePercent => assert(expr_levels()[0][0] == op),
            OpView::DoubleEquals => assert(expr_levels()[0][1] == op),
            OpView::DoubleTilde => assert(expr_levels()[0][2] == op),
            OpView::NotEquals => assert(expr_levels()[0][3] == op),
            OpView::LessEquals => assert(expr_levels()[0][4] == op),
            OpView::GreaterEquals => assert(expr_levels()[0][5] == op),
            OpView::Less => assert(expr_levels()[0][6] == op),
            OpView::Greater => assert(expr_levels()[0][7] == op),
            OpView::Or => assert(expr_levels()[1][0] == op),
            OpView::And => assert(expr_levels()[2][0] == op),
            OpView::Tilde => assert(expr_levels()[3][0] == op),
            OpView::Plus => assert(expr_levels()[4][0] == op),
            OpView::Minus => assert(expr_levels()[4][1] == op),
            OpView::Splat => assert(expr_levels()[5][0] == op),
            OpView::FSlash => assert(expr_levels()[5][1] == op),
            _ => {},
        }
    }
}

/// An expression.
pub open spec fn expr_end(all: Seq<TokenView>, p: int, level: int) -> Option<int>
    decreases all.len() - p, 20int,
{
    binary_end(all, p, level, expr_levels(), 0)
}

/// How many operator levels are left from `k` on.
pub open spec fn levels_left(ops: Seq<Seq<OpView>>, k: int) -> int {
    if 0 <= k < ops.len() {
        ops.len() - k
    } else {
        0
    }
}

/// A binary expression over the operator levels of `ops` from `k` on: an operand of the
/// next level, then, where an operator of level `k` follows, that operator and a binary
/// expression of level `k` again (operators of one level group to the right).
pub open spec fn binary_end(all: Seq<TokenView>, p: int, level: int, ops: Seq<Seq<OpView>>, k: int) -> Option<int>
    decreases all.len() - p, 10 + levels_left(ops, k),
{
    if 0 <= k < ops.len() {
        match binary_end(all, p, level, ops, k + 1) {
            None => None,
            Some(q) => match tok_at(all, q) {
                Some(TokenView::Op(o)) => if ops[k].contains(o) {
                    if moved(all, p, q) {
                        proof {
                            lemma_skip_ignored_bounds(all, q + 1);
                        }
                        binary_end(all, step_past(all, q), level, ops, k)
                    } else {
                        None
                    }
                } else {
                    Some(q)
                },
                _ => Some(q),
            },
        }
    } else {
        unary_end(all, p, level)
    }
}

/// A unary expression: operators that can begin an expression, applied to an atom.
pub open spec fn unary_end(all: Seq<TokenView>, p: int, level: int) -> Option<int>
    decreases all.len() - p, 3int,
{
    match tok_at(all, p) {
        Some(TokenView::Op(o)) => if expr_lookahead(TokenView::Op(o)) {
            proof {
                lemma_skip_ignored_bounds(all, p + 1);
            }
            unary_end(all, step_past(all, p), level)
        } else {
            None
        },
        _ => atom_end(all, p, level),
    }
}

/// An atom with the call arguments and the index that may follow it.
pub open spec fn atom_end(all: Seq<TokenView>, p: int, level: int) -> Option<int>
    decreases all.len() - p, 2int,
{
    match atom_base_end(all, p, level) {
        None => None,
        Some(q) => if moved(all, p, q) {
            let call = if tok_at(all, q) == Some(TokenView::LParen) {
                args_end(all, q, level)
            } else {
                Some(q)
            };
            match call {
                None => None,
                Some(c) => if moved(all, p, c) {
                    index_end(all, c, level)
                } else {
                    None
                },
            }
        } else {
            None
        },
    }
}

/// An atom, or an expression in parentheses.
pub open spec fn atom_base_end(all: Seq<TokenView>, p: int, level: int) -> Option<int>
    decreases all.len() - p, 1int,
{
    match tok_at(all, p) {
        None => None,
        Some(t) => if !expr_lookahead(t) {
            None
        } else if t == TokenView::LParen {
            proof {
                lemma_skip_ignored_bounds(all, p + 1);
            }
            match expr_end(all, step_past(all, p), level + 1) {
                None => None,
                Some(q) => if tok_at(all, q) == Some(TokenView::RParen) {
                    Some(step_at_level(all, q, level))
                } else {
                    None
                },
            }
        } else {
            Some(step_at_level(all, p, level))
        },
    }
}

/// The arguments of a call: expressions between parentheses, separated by commas.
pub open spec fn args_end(all: Seq<TokenView>, p: int, level: int) -> Option<int>
    decreases all.len() - p, 1int,
{
    if tok_at(all, p) == Some(TokenView::LParen) {
        proof {
            lemma_skip_ignored_bounds(all, p + 1);
        }
        let q = step_past(all, p);
        if tok_at(all, q) == Some(TokenView::RParen) {
            Some(step_at_level(all, q, level))
        } else {
            match expr_end(all, q, level) {
                None => None,
                Some(e) => if moved(all, p, e) {
                    args_rest(all, e, level)
                } else {
                    None
                },
            }
        }
    } else {
        None
    }
}

/// The rest of an argument list: a comma and a further argument, again and again, then the
/// closing parenthesis.
pub open spec fn args_rest(all: Seq<TokenView>, p: int, level: int) -> Option<int>
    decreases all.len() - p, 0int,
{
    match tok_at(all, p) {
        Some(TokenView::Comma) => {
            proof {
                lemma_skip_ignored_bounds(all, p + 1);
            }
            match expr_end(all, step_past(all, p), level) {
                None => None,
                Some(e) => if moved(all, p, e) {
                    args_rest(all, e, level)
                } else {
                    None
                },
            }
        },
        Some(TokenView::RParen) => Some(step_at_level(all, p, level)),
        _ => None,
    }
}

/// An index in brackets, where one follows.
pub open spec fn index_end(all: Seq<TokenView>, p: int, level: int) -> Option<int>
    decreases all.len() - p, 0int,
{
    if tok_at(all, p) == Some(TokenView::LBracket) {
        proof {
            lemma_skip_ignored_bounds(all, p + 1);
        }
        match expr_end(all, step_past(all, p), level) {
            None => None,
            Some(e) => if tok_at(all, e) == Some(TokenView::RBracket) {
                Some(e + 1)
            } else {
                None
            },
        }
    } else {
        Some(p)
    }
}

/// The shape of an expression: its tree, with the source ranges left out.
pub enum ExprShape {
    Atom(TokenView),
    Unary(OpView, Box<ExprShape>),
    Binary(Box<ExprShape>, OpView, Box<ExprShape>),
    Call(Box<ExprShape>, Seq<ExprShape>),
    Index(Box<ExprShape>, Box<ExprShape>),
}

/// The shape of an expression tree.
pub open spec fn expr_shape(e: Expr) -> ExprShape
    decreases e,
{
    match e {
        Expr::Atom(t) => ExprShape::Atom(t.1@),
        Expr::Unary(op, x) => ExprShape::Unary(op@, Box::new(expr_shape(*x))),
        Expr::Binary(l, op, r) => ExprShape::Binary(Box::new(expr_shape(*l)), op@, Box::new(expr_shape(*r))),
        Expr::FunCall { function, args, range: _ } => ExprShape::Call(Box::new(expr_shape(*function)), expr_shapes(args@)),
        Expr::ArrayAccess { array, index, range: _ } => ExprShape::Index(
            Box::new(expr_shape(*array)),
            Box::new(expr_shape(*index)),
        ),
    }
}

/// The shapes of a list of expressions, in order.
pub open spec fn expr_shapes(es: Seq<Expr>) -> Seq<ExprShape>
    decreases es,
{
    if es.len() == 0 {
        Seq::empty()
    } else {
        expr_shapes(es.drop_last()).push(expr_shape(es.last()))
    }
}

/// The tree of the expression at `p`, where `expr_end` finds one.
#[verifier::opaque]
pub open spec fn expr_tree(all: Seq<TokenView>, p: int, level: int) -> ExprShape
    decreases all.len() - p, 20int,
{
    binary_tree(all, p, level, expr_levels(), 0)
}

/// The tree of the binary expression at `p`: operators of level `k` group to the right, over
/// operands of the levels after it.
#[verifier::opaque]
pub open spec fn binary_tree(all: Seq<TokenView>, p: int, level: int, ops: Seq<Seq<OpView>>, k: int) -> ExprShape
    decreases all.len() - p, 10 + levels_left(ops, k),
{
    if 0 <= k < ops.len() {
        let lhs = binary_tree(all, p, level, ops, k + 1);
        match binary_end(all, p, level, ops, k + 1) {
            Some(q) => match tok_at(all, q) {
                Some(TokenView::Op(o)) => if ops[k].contains(o) && moved(all, p, q) {
                    proof {
                        lemma_skip_ignored_bounds(all, q + 1);
                    }
                    ExprShape::Binary(Box::new(lhs), o, Box::new(binary_tree(all, step_past(all, q), level, ops, k)))
                } else {
                    lhs
                },
                _ => lhs,
            },
            None => lhs,
        }
    } else {
        unary_tree(all, p, level)
    }
}

/// The tree of the unary expression at `p`.
#[verifier::opaque]
pub open spec fn unary_tree(all: Seq<TokenView>, p: int, level: int) -> ExprShape
    decreases all.len() - p, 3int,
{
    match tok_at(all, p) {
        Some(TokenView::Op(o)) => {
            proof {
                lemma_skip_ignored_bounds(all, p + 1);
            }
            ExprShape::Unary(o, Box::new(unary_tree(all, step_past(all, p), level)))
        },
        _ => atom_tree(all, p, level),
    }
}

/// The tree of the atom at `p`, with the call and the index that follow it.
#[verifier::opaque]
pub open spec fn atom_tree(all: Seq<TokenView>, p: int, level: int) -> ExprShape
    decreases all.len() - p, 2int,
{
    let base = atom_base_tree(all, p, level);
    match atom_base_end(all, p, level) {
        Some(q) => if moved(all, p, q) {
            let called = if tok_at(all, q) == Some(TokenView::LParen) {
                ExprShape::Call(Box::new(base), args_trees(all, q, level))
            } else {
                base
            };
            let call = if tok_at(all, q) == Some(TokenView::LParen) {
                args_end(all, q, level)
            } else {
                Some(q)
            };
            match call {
                Some(c) => if moved(all, p, c) && tok_at(all, c) == Some(TokenView::LBracket) {
                    proof {
                        lemma_skip_ignored_bounds(all, c + 1);
                    }
                    ExprShape::Index(Box::new(called), Box::new(expr_tree(all, step_past(all, c), level)))
                } else {
                    called
                },
                None => called,
            }
        } else {
            base
        },
        None => base,
    }
}

/// The tree of the atom or parenthesised expression at `p`.
#[verifier::opaque]
pub open spec fn atom_base_tree(all: Seq<TokenView>, p: int, level: int) -> ExprShape
    decreases all.len() - p, 1int,
{
    match tok_at(all, p) {
        Some(t) => if t == TokenView::LParen {
            proof {
                lemma_skip_ignored_bounds(all, p + 1);
            }
            expr_tree(all, step_past(all, p), level + 1)
        } else {
            ExprShape::Atom(t)
        },
        None => ExprShape::Atom(TokenView::Comment),
    }
}

/// The trees of the arguments of the call at `p`.
#[verifier::opaque]
pub open spec fn args_trees(all: Seq<TokenView>, p: int, level: int) -> Seq<ExprShape>
    decreases all.len() - p, 1int,
{
    if tok_at(all, p) == Some(TokenView::LParen) {
        proof {
            lemma_skip_ignored_bounds(all, p + 1);
        }
        let q = step_past(all, p);
        if tok_at(all, q) == Some(TokenView::RParen) {
            Seq::empty()
        } else {
            match expr_end(all, q, level) {
                Some(e) => if moved(all, p, e) {
                    seq![expr_tree(all, q, level)] + args_rest_trees(all, e, level)
                } else {
                    Seq::empty()
                },
                None => Seq::empty(),
            }
        }
    } else {
        Seq::empty()
    }
}

/// The trees of the further arguments of a call from `p`.
#[verifier::opaque]
pub open spec fn args_rest_trees(all: Seq<TokenView>, p: int, level: int) -> Seq<ExprShape>
    decreases all.len() - p, 0int,
{
    if tok_at(all, p) == Some(TokenView::Comma) {
        proof {
            lemma_skip_ignored_bounds(all, p + 1);
        }
        match expr_end(all, step_past(all, p), level) {
            Some(e) => if moved(all, p, e) {
                seq![expr_tree(all, step_past(all, p), level)] + args_rest_trees(all, e, level)
            } else {
                Seq::empty()
            },
            None => Seq::empty(),
        }
    } else {
        Seq::empty()
    }
}

/// The shape of a condition and its block.
pub struct CondShape {
    pub cond: ExprShape,
    pub body: Seq<StmtShape>,
}

/// The shape of a function parameter: its name, its type and its default value.
pub struct ParamShape {
    pub name: Seq<char>,
    pub ty: Option<Seq<char>>,
    pub default: Option<ExprShape>,
}

/// The shape of a function definition.
pub struct FunShape {
    pub name: Seq<char>,
    pub params: Seq<ParamShape>,
    pub return_ty: Option<Seq<char>>,
    pub body: Seq<StmtShape>,
}

/// The shape of a statement: its tree, with the source ranges left out.
pub enum StmtShape {
    Fun(FunShape),
    UserTy(Seq<char>, Seq<Seq<char>>, Seq<FunShape>),
    Expr(ExprShape),
    Assign(ExprShape, AssignOp, ExprShape),
    While(CondShape),
    Loop(Seq<StmtShape>),
    If(CondShape, Seq<CondShape>, Option<Seq<StmtShape>>),
    Continue,
    Break,
    Return(Option<ExprShape>),
}

/// The shape of a statement tree.
pub open spec fn stmt_shape(s: Stmt) -> StmtShape
    decreases s,
{
    match s {
        Stmt::Fun(f) => StmtShape::Fun(fun_shape(f)),
        Stmt::UserTy(u) => user_ty_shape(u),
        Stmt::Expr(e) => StmtShape::Expr(expr_shape(e)),
        Stmt::Assign(l, op, r) => StmtShape::Assign(expr_shape(l), op, expr_shape(r)),
        Stmt::While(c) => StmtShape::While(cond_shape(c)),
        Stmt::Loop(b) => StmtShape::Loop(block_shape(b)),
        Stmt::If { if_block, elseif_blocks, else_block } => StmtShape::If(
            cond_shape(if_block),
            conds_shape(elseif_blocks@),
            match else_block {
                Some(b) => Some(block_shape(b)),
                None => None,
            },
        ),
        Stmt::Continue(_) => StmtShape::Continue,
        Stmt::Break(_) => StmtShape::Break,
        Stmt::Return(v, _) => StmtShape::Return(match v {
            Some(e) => Some(expr_shape(e)),
            None => None,
        }),
    }
}

/// The shapes of a sequence of statements, in order.
pub open spec fn stmts_shape(ss: Seq<Stmt>) -> Seq<StmtShape>
    decreases ss,
{
    if ss.len() == 0 {
        Seq::empty()
    } else {
        stmts_shape(ss.drop_last()).push(stmt_shape(ss.last()))
    }
}

/// The shapes of the statements of a block.
pub open spec fn block_shape(b: Block) -> Seq<StmtShape>
    decreases b,
{
    stmts_shape(b.1@)
}

/// The shape of a condition block.
pub open spec fn cond_shape(c: ConditionBlock) -> CondShape
    decreases c,
{
    CondShape { cond: expr_shape(c.condition), body: block_shape(c.block) }
}

/// The shapes of a sequence of condition blocks, in order.
pub open spec fn conds_shape(cs: Seq<ConditionBlock>) -> Seq<CondShape>
    decreases cs,
{
    if cs.len() == 0 {
        Seq::empty()
    } else {
        conds_shape(cs.drop_last()).push(cond_shape(cs.last()))
    }
}

/// The shape of a function parameter.
pub open spec fn param_shape(p: FunParam) -> ParamShape {
    ParamShape {
        name: p.name@,
        ty: match p.ty {
            Some(t) => Some(t@),
            None => None,
        },
        default: match p.default {
            Some(d) => Some(expr_shape(d)),
            None => None,
        },
    }
}

/// The shapes of a sequence of parameters, in order.
pub open spec fn params_shape(ps: Seq<FunParam>) -> Seq<ParamShape>
    decreases ps.len(),
{
    if ps.len() == 0 {
        Seq::empty()
    } else {
        params_shape(ps.drop_last()).push(param_shape(ps.last()))
    }
}

/// The shape of a function definition.
pub open spec fn fun_shape(f: Fun) -> FunShape
    decreases f,
{
    FunShape {
        name: f.name@,
        params: params_shape(f.params@),
        return_ty: match f.return_ty {
            Some(t) => Some(t@),
            None => None,
        },
        body: block_shape(f.body),
    }
}

/// The shapes of a sequence of function definitions, in order.
pub open spec fn funs_shape(fs: Seq<Fun>) -> Seq<FunShape>
    decreases fs,
{
    if fs.len() == 0 {
        Seq::empty()
    } else {
        funs_shape(fs.drop_last()).push(fun_shape(fs.last()))
    }
}

/// The texts of a sequence of strings, in order.
pub open spec fn texts(ss: Seq<String>) -> Seq<Seq<char>>
    decreases ss.len(),
{
    if ss.len() == 0 {
        Seq::empty()
    } else {
        texts(ss.drop_last()).push(ss.last()@)
    }
}

/// The shape of a type definition.
pub open spec fn user_ty_shape(u: UserTy) -> StmtShape
    decreases u,
{
    StmtShape::UserTy(u.name@, texts(u.parents@), funs_shape(u.functions@))
}

// The statement grammar. Statements stand at the outermost level; a statement ends its line
// with a line end, a comment or the end of the text.

/// Whether the token at `p` is a line end or a comment.
pub open spec fn at_blank(all: Seq<TokenView>, p: int) -> bool {
    tok_at(all, p) == Some(TokenView::LineEnd) || tok_at(all, p) == Some(TokenView::Comment)
        || tok_at(all, p) == Some(TokenView::NewLine)
}

/// The first position from `p` on that holds neither a line end nor a comment.
pub open spec fn skip_blanks(all: Seq<TokenView>, p: int) -> int
    decreases all.len() - p,
{
    if 0 <= p < all.len() && at_blank(all, p) {
        skip_blanks(all, p + 1)
    } else {
        p
    }
}

/// Skipping blanks stays at or after `p`, and within the tokens where `p` is.
pub proof fn lemma_skip_blanks_bounds(all: Seq<TokenView>, p: int)
    ensures
        p <= skip_blanks(all, p),
        p <= all.len() ==> skip_blanks(all, p) <= all.len(),
        0 <= p ==> !at_blank(all, skip_blanks(all, p)),
    decreases all.len() - p,
{
    if 0 <= p < all.len() && at_blank(all, p) {
        lemma_skip_blanks_bounds(all, p + 1);
    }
}

/// Comments and newlines are blanks too: skipping them first does not change where skipping
/// blanks ends.
pub proof fn lemma_skip_blanks_ignored(all: Seq<TokenView>, p: int)
    requires
        0 <= p,
    ensures
        skip_blanks(all, skip_ignored(all, p)) == skip_blanks(all, p),
    decreases all.len() - p,
{
    if 0 <= p < all.len() && is_ignored(all[p]) {
        lemma_skip_blanks_ignored(all, p + 1);
    }
}

/// The end of a line: a line end, a comment or a newline (and the comments and newlines that
/// follow it), or the end of the text.
pub open spec fn eol_end(all: Seq<TokenView>, p: int) -> Option<int> {
    if at_blank(all, p) {
        Some(step_past(all, p))
    } else if tok_at(all, p) is None {
        Some(p)
    } else {
        None
    }
}

/// Whether the reader stands at one of `ends`, or, with none given, at the end of the text.
pub open spec fn at_end(all: Seq<TokenView>, p: int, ends: Seq<TokenView>) -> bool {
    (tok_at(all, p) matches Some(t) && ends.contains(t)) || (ends.len() == 0 && tok_at(all, p) is None)
}

/// A block: items up to one of `ends`, or, with none given, up to the end of the text.
#[verifier::opaque]
pub open spec fn block_end(all: Seq<TokenView>, p: int, ends: Seq<TokenView>) -> Option<int>
    decreases all.len() - p, 50int,
{
    if at_end(all, p, ends) {
        Some(p)
    } else {
        match item_end(all, p) {
            None => None,
            Some(q) => if moved(all, p, q) {
                block_end(all, q, ends)
            } else {
                None
            },
        }
    }
}

/// One item of a block, after any blanks: a function definition, a type definition that ends
/// its line, or a statement.
#[verifier::opaque]
pub open spec fn item_end(all: Seq<TokenView>, p: int) -> Option<int>
    decreases all.len() - p, 49int,
{
    proof {
        lemma_skip_blanks_bounds(all, p);
    }
    let q = skip_blanks(all, p);
    if p <= all.len() {
        match tok_at(all, q) {
            None => None,
            Some(TokenView::FunKw) => function_end(all, q),
            Some(TokenView::TypeKw) => match user_type_end(all, q) {
                None => None,
                Some(u) => eol_end(all, u),
            },
            Some(_) => stmt_end(all, q),
        }
    } else {
        None
    }
}

/// A statement, after any blanks. `return`, `continue`, `break`, an expression and an
/// assignment end their line; `while`, `loop` and `if` end with their last block.
#[verifier::opaque]
pub open spec fn stmt_end(all: Seq<TokenView>, p: int) -> Option<int>
    decreases all.len() - p, 48int,
{
    proof {
        lemma_skip_blanks_bounds(all, p);
    }
    let q = skip_blanks(all, p);
    if p <= all.len() {
        proof {
            lemma_skip_ignored_bounds(all, q + 1);
        }
        match tok_at(all, q) {
            None => None,
            Some(TokenView::ReturnKw) => {
                let r = q + 1;
                let v = match tok_at(all, r) {
                    Some(t) => if expr_lookahead(t) {
                        expr_end(all, r, 0)
                    } else {
                        Some(r)
                    },
                    None => Some(r),
                };
                match v {
                    None => None,
                    Some(v) => eol_end(all, v),
                }
            },
            Some(TokenView::ContinueKw) => eol_end(all, q + 1),
            Some(TokenView::BreakKw) => eol_end(all, q + 1),
            Some(TokenView::WhileKw) => cond_end(all, step_past(all, q)),
            Some(TokenView::LoopKw) => body_end(all, step_past(all, q)),
            Some(TokenView::IfKw) => if_end(all, q),
            Some(t) => if expr_lookahead(t) {
                match expr_end(all, q, 0) {
                    None => None,
                    Some(e) => match tok_at(all, e) {
                        Some(TokenView::AssignOp(_)) => match expr_end(all, step_past(all, e), 0) {
                            None => None,
                            Some(v) => eol_end(all, v),
                        },
                        _ => eol_end(all, e),
                    },
                }
            } else {
                None
            },
        }
    } else {
        None
    }
}

/// An `if` statement from its keyword: a condition block, then any `else if` blocks and an
/// `else` block.
#[verifier::opaque]
pub open spec fn if_end(all: Seq<TokenView>, p: int) -> Option<int>
    decreases all.len() - p, 45int,
{
    if tok_at(all, p) == Some(TokenView::IfKw) {
        proof {
            lemma_skip_ignored_bounds(all, p + 1);
        }
        match cond_end(all, step_past(all, p)) {
            None => None,
            Some(c) => if moved(all, p, c) {
                else_end(all, c)
            } else {
                None
            },
        }
    } else {
        None
    }
}

/// What may follow the blocks of an `if` so far: `else if` and a condition block, again and
/// again, then perhaps `else` and a block.
#[verifier::opaque]
pub open spec fn else_end(all: Seq<TokenView>, p: int) -> Option<int>
    decreases all.len() - p, 44int,
{
    if tok_at(all, p) == Some(TokenView::ElseKw) {
        proof {
            lemma_skip_ignored_bounds(all, p + 1);
        }
        let r = step_past(all, p);
        if tok_at(all, r) == Some(TokenView::IfKw) {
            proof {
                lemma_skip_ignored_bounds(all, r + 1);
            }
            match cond_end(all, step_past(all, r)) {
                None => None,
                Some(c) => if moved(all, p, c) {
                    else_end(all, c)
                } else {
                    None
                },
            }
        } else {
            body_end(all, r)
        }
    } else {
        Some(p)
    }
}

/// A condition followed by a block.
#[verifier::opaque]
pub open spec fn cond_end(all: Seq<TokenView>, p: int) -> Option<int>
    decreases all.len() - p, 43int,
{
    match expr_end(all, p, 0) {
        None => None,
        Some(e) => if moved(all, p, e) {
            body_end(all, e)
        } else {
            None
        },
    }
}

/// A block in braces.
#[verifier::opaque]
pub open spec fn body_end(all: Seq<TokenView>, p: int) -> Option<int>
    decreases all.len() - p, 42int,
{
    if tok_at(all, p) == Some(TokenView::LBrace) {
        proof {
            lemma_skip_ignored_bounds(all, p + 1);
        }
        match block_end(all, step_past(all, p), seq![TokenView::RBrace]) {
            None => None,
            Some(b) => if tok_at(all, b) == Some(TokenView::RBrace) {
                Some(step_past(all, b))
            } else {
                None
            },
        }
    } else {
        None
    }
}

/// A type annotation from `p`: a colon and a bareword, where a colon stands there.
pub open spec fn annotation_end(all: Seq<TokenView>, p: int) -> Option<int> {
    if tok_at(all, p) == Some(TokenView::Colon) {
        let c = step_past(all, p);
        if tok_at(all, c) matches Some(TokenView::Bareword(_)) {
            Some(step_past(all, c))
        } else {
            None
        }
    } else {
        Some(p)
    }
}

/// A function definition: `fun`, its name, its parameters in parentheses, an optional return
/// type, and its body.
#[verifier::opaque]
pub open spec fn function_end(all: Seq<TokenView>, p: int) -> Option<int>
    decreases all.len() - p, 46int,
{
    if tok_at(all, p) == Some(TokenView::FunKw) {
        let n = step_past(all, p);
        let l = step_past(all, n);
        if tok_at(all, n) matches Some(TokenView::Bareword(_)) && tok_at(all, l) == Some(TokenView::LParen) {
            match params_end(all, step_past(all, l), false) {
                None => None,
                Some(r) => if tok_at(all, r) == Some(TokenView::RParen) && moved(all, p, r) {
                    match annotation_end(all, step_past(all, r)) {
                        None => None,
                        Some(b) => {
                            proof {
                                lemma_skip_ignored_bounds(all, r + 1);
                                lemma_annotation_moves(all, step_past(all, r));
                            }
                            body_end(all, b)
                        },
                    }
                } else {
                    None
                },
            }
        } else {
            None
        }
    } else {
        None
    }
}

/// One parameter: a variable, an optional type and, where one is given or one was given before
/// (`defaults`), a default value. Gives where it ends, and whether a default value has now been
/// given.
#[verifier::opaque]
pub open spec fn param_end(all: Seq<TokenView>, p: int, defaults: bool) -> Option<(int, bool)> {
    if tok_at(all, p) matches Some(TokenView::Variable(_)) {
        match annotation_end(all, step_past(all, p)) {
            None => None,
            Some(b) => if defaults || tok_at(all, b) == Some(TokenView::AssignOp(AssignOp::Equals)) {
                if tok_at(all, b) == Some(TokenView::AssignOp(AssignOp::Equals)) {
                    match expr_end(all, step_past(all, b), 0) {
                        None => None,
                        Some(d) => Some((d, true)),
                    }
                } else {
                    None
                }
            } else {
                Some((b, false))
            },
        }
    } else {
        None
    }
}

/// Parameters up to the closing parenthesis, separated by commas, with a comma allowed after
/// the last; once one parameter has a default value, every later one has one too. `defaults`
/// tells whether a default value has been given before.
#[verifier::opaque]
pub open spec fn params_end(all: Seq<TokenView>, p: int, defaults: bool) -> Option<int>
    decreases all.len() - p,
{
    if tok_at(all, p) == Some(TokenView::RParen) {
        Some(p)
    } else {
        match param_end(all, p, defaults) {
            None => None,
            Some((d, given)) => if tok_at(all, d) == Some(TokenView::RParen) {
                Some(d)
            } else if tok_at(all, d) == Some(TokenView::Comma) && moved(all, p, d) {
                proof {
                    lemma_skip_ignored_bounds(all, d + 1);
                }
                params_end(all, step_past(all, d), given)
            } else {
                None
            },
        }
    }
}

/// A type definition: `type`, its name, an optional colon and comma-separated parents, and
/// functions in braces.
#[verifier::opaque]
pub open spec fn user_type_end(all: Seq<TokenView>, p: int) -> Option<int>
    decreases all.len() - p, 48int,
{
    if tok_at(all, p) == Some(TokenView::TypeKw) {
        let n = step_past(all, p);
        if tok_at(all, n) matches Some(TokenView::Bareword(_)) {
            let h = step_past(all, n);
            let g = if tok_at(all, h) == Some(TokenView::Colon) {
                let c = step_past(all, h);
                if tok_at(all, c) matches Some(TokenView::Bareword(_)) {
                    parents_end(all, step_past(all, c))
                } else {
                    None
                }
            } else {
                Some(h)
            };
            match g {
                None => None,
                Some(g) => if tok_at(all, g) == Some(TokenView::LBrace) && moved(all, p, g) {
                    proof {
                        lemma_skip_ignored_bounds(all, g + 1);
                    }
                    match funs_end(all, step_past(all, g)) {
                        None => None,
                        Some(f) => if tok_at(all, f) == Some(TokenView::RBrace) {
                            Some(f + 1)
                        } else {
                            None
                        },
                    }
                } else {
                    None
                },
            }
        } else {
            None
        }
    } else {
        None
    }
}

/// More parents of a type: a comma and a bareword, again and again.
#[verifier::opaque]
pub open spec fn parents_end(all: Seq<TokenView>, p: int) -> Option<int>
    decreases all.len() - p,
{
    if tok_at(all, p) == Some(TokenView::Comma) {
        proof {
            lemma_skip_ignored_bounds(all, p + 1);
        }
        let c = step_past(all, p);
        if tok_at(all, c) matches Some(TokenView::Bareword(_)) {
            proof {
                lemma_skip_ignored_bounds(all, c + 1);
            }
            parents_end(all, step_past(all, c))
        } else {
            None
        }
    } else {
        Some(p)
    }
}

/// The functions of a type: function definitions, each followed by any comments.
#[verifier::opaque]
pub open spec fn funs_end(all: Seq<TokenView>, p: int) -> Option<int>
    decreases all.len() - p, 47int,
{
    if tok_at(all, p) == Some(TokenView::FunKw) {
        match function_end(all, p) {
            None => None,
            Some(f) => if moved(all, p, f) {
                proof {
                    lemma_skip_comments_bounds(all, f);
                }
                funs_end(all, skip_comments(all, f))
            } else {
                None
            },
        }
    } else {
        Some(p)
    }
}

/// The text of a bareword or a variable token; empty for any other.
pub open spec fn name_text(t: Option<TokenView>) -> Seq<char> {
    match t {
        Some(TokenView::Bareword(x)) => x,
        Some(TokenView::Variable(x)) => x,
        _ => Seq::empty(),
    }
}

/// The type named by the annotation at `p`, if one stands there.
pub open spec fn annotation_ty(all: Seq<TokenView>, p: int) -> Option<Seq<char>> {
    if tok_at(all, p) == Some(TokenView::Colon) {
        Some(name_text(tok_at(all, step_past(all, p))))
    } else {
        None
    }
}

/// The trees of the items of the block at `p`, up to one of `ends`.
#[verifier::opaque]
pub open spec fn block_tree(all: Seq<TokenView>, p: int, ends: Seq<TokenView>) -> Seq<StmtShape>
    decreases all.len() - p, 50int,
{
    if at_end(all, p, ends) {
        Seq::empty()
    } else {
        match item_end(all, p) {
            Some(q) => if moved(all, p, q) {
                seq![item_tree(all, p)] + block_tree(all, q, ends)
            } else {
                Seq::empty()
            },
            None => Seq::empty(),
        }
    }
}

/// The tree of the item at `p`, after any blanks.
#[verifier::opaque]
pub open spec fn item_tree(all: Seq<TokenView>, p: int) -> StmtShape
    decreases all.len() - p, 49int,
{
    proof {
        lemma_skip_blanks_bounds(all, p);
    }
    let q = skip_blanks(all, p);
    if p <= all.len() {
        match tok_at(all, q) {
            Some(TokenView::FunKw) => StmtShape::Fun(function_tree(all, q)),
            Some(TokenView::TypeKw) => user_type_tree(all, q),
            _ => stmt_tree(all, q),
        }
    } else {
        StmtShape::Continue
    }
}

/// The tree of the statement at `p`, after any blanks.
#[verifier::opaque]
pub open spec fn stmt_tree(all: Seq<TokenView>, p: int) -> StmtShape
    decreases all.len() - p, 48int,
{
    proof {
        lemma_skip_blanks_bounds(all, p);
    }
    let q = skip_blanks(all, p);
    if p <= all.len() {
        proof {
            lemma_skip_ignored_bounds(all, q + 1);
        }
        match tok_at(all, q) {
            Some(TokenView::ReturnKw) => StmtShape::Return(
                if tok_at(all, q + 1) matches Some(t) && expr_lookahead(t) {
                    Some(expr_tree(all, q + 1, 0))
                } else {
                    None
                },
            ),
            Some(TokenView::ContinueKw) => StmtShape::Continue,
            Some(TokenView::BreakKw) => StmtShape::Break,
            Some(TokenView::WhileKw) => StmtShape::While(cond_tree(all, step_past(all, q))),
            Some(TokenView::LoopKw) => StmtShape::Loop(body_tree(all, step_past(all, q))),
            Some(TokenView::IfKw) => if_tree(all, q),
            _ => match expr_end(all, q, 0) {
                Some(e) => match tok_at(all, e) {
                    Some(TokenView::AssignOp(op)) => StmtShape::Assign(
                        expr_tree(all, q, 0),
                        op,
                        expr_tree(all, step_past(all, e), 0),
                    ),
                    _ => StmtShape::Expr(expr_tree(all, q, 0)),
                },
                None => StmtShape::Expr(expr_tree(all, q, 0)),
            },
        }
    } else {
        StmtShape::Continue
    }
}

/// The tree of the `if` statement at `p`.
#[verifier::opaque]
pub open spec fn if_tree(all: Seq<TokenView>, p: int) -> StmtShape
    decreases all.len() - p, 45int,
{
    if tok_at(all, p) == Some(TokenView::IfKw) {
        proof {
            lemma_skip_ignored_bounds(all, p + 1);
        }
        let first = cond_tree(all, step_past(all, p));
        match cond_end(all, step_past(all, p)) {
            Some(c) => if moved(all, p, c) {
                let rest = else_tree(all, c);
                StmtShape::If(first, rest.0, rest.1)
            } else {
                StmtShape::If(first, Seq::empty(), None)
            },
            None => StmtShape::If(first, Seq::empty(), None),
        }
    } else {
        StmtShape::Continue
    }
}

/// The trees of what follows the blocks of an `if` so far: its `else if` blocks and its `else`
/// block.
#[verifier::opaque]
pub open spec fn else_tree(all: Seq<TokenView>, p: int) -> (Seq<CondShape>, Option<Seq<StmtShape>>)
    decreases all.len() - p, 44int,
{
    if tok_at(all, p) == Some(TokenView::ElseKw) {
        proof {
            lemma_skip_ignored_bounds(all, p + 1);
        }
        let r = step_past(all, p);
        if tok_at(all, r) == Some(TokenView::IfKw) {
            proof {
                lemma_skip_ignored_bounds(all, r + 1);
            }
            match cond_end(all, step_past(all, r)) {
                Some(c) => if moved(all, p, c) {
                    let rest = else_tree(all, c);
                    (seq![cond_tree(all, step_past(all, r))] + rest.0, rest.1)
                } else {
                    (Seq::empty(), None)
                },
                None => (Seq::empty(), None),
            }
        } else {
            (Seq::empty(), Some(body_tree(all, r)))
        }
    } else {
        (Seq::empty(), None)
    }
}

/// The tree of the condition block at `p`.
#[verifier::opaque]
pub open spec fn cond_tree(all: Seq<TokenView>, p: int) -> CondShape
    decreases all.len() - p, 43int,
{
    CondShape {
        cond: expr_tree(all, p, 0),
        body: match expr_end(all, p, 0) {
            Some(e) => if moved(all, p, e) {
                body_tree(all, e)
            } else {
                Seq::empty()
            },
            None => Seq::empty(),
        },
    }
}

/// The trees of the statements of the braced block at `p`.
#[verifier::opaque]
pub open spec fn body_tree(all: Seq<TokenView>, p: int) -> Seq<StmtShape>
    decreases all.len() - p, 42int,
{
    if tok_at(all, p) == Some(TokenView::LBrace) {
        proof {
            lemma_skip_ignored_bounds(all, p + 1);
        }
        block_tree(all, step_past(all, p), seq![TokenView::RBrace])
    } else {
        Seq::empty()
    }
}

/// The tree of the function definition at `p`.
#[verifier::opaque]
pub open spec fn function_tree(all: Seq<TokenView>, p: int) -> FunShape
    decreases all.len() - p, 46int,
{
    let n = step_past(all, p);
    let l = step_past(all, n);
    let params = params_trees(all, step_past(all, l), false);
    match params_end(all, step_past(all, l), false) {
        Some(r) => if tok_at(all, p) == Some(TokenView::FunKw) && tok_at(all, r) == Some(TokenView::RParen)
            && moved(all, p, r) {
            proof {
                lemma_skip_ignored_bounds(all, r + 1);
                lemma_annotation_moves(all, step_past(all, r));
            }
            let a = step_past(all, r);
            FunShape {
                name: name_text(tok_at(all, n)),
                params,
                return_ty: annotation_ty(all, a),
                body: match annotation_end(all, a) {
                    Some(b) => body_tree(all, b),
                    None => Seq::empty(),
                },
            }
        } else {
            FunShape { name: name_text(tok_at(all, n)), params, return_ty: None, body: Seq::empty() }
        },
        None => FunShape { name: name_text(tok_at(all, n)), params, return_ty: None, body: Seq::empty() },
    }
}

/// The tree of the parameter at `p`.
pub open spec fn param_tree(all: Seq<TokenView>, p: int, defaults: bool) -> ParamShape {
    let a = step_past(all, p);
    ParamShape {
        name: name_text(tok_at(all, p)),
        ty: annotation_ty(all, a),
        default: match annotation_end(all, a) {
            Some(b) => if defaults || tok_at(all, b) == Some(TokenView::AssignOp(AssignOp::Equals)) {
                Some(expr_tree(all, step_past(all, b), 0))
            } else {
                None
            },
            None => None,
        },
    }
}

/// The trees of the parameters from `p` up to the closing parenthesis.
#[verifier::opaque]
pub open spec fn params_trees(all: Seq<TokenView>, p: int, defaults: bool) -> Seq<ParamShape>
    decreases all.len() - p,
{
    if tok_at(all, p) == Some(TokenView::RParen) {
        Seq::empty()
    } else {
        match param_end(all, p, defaults) {
            Some((d, given)) => seq![param_tree(all, p, defaults)] + if tok_at(all, d) != Some(TokenView::RParen)
                && tok_at(all, d) == Some(TokenView::Comma) && moved(all, p, d) {
                proof {
                    lemma_skip_ignored_bounds(all, d + 1);
                }
                params_trees(all, step_past(all, d), given)
            } else {
                Seq::empty()
            },
            None => Seq::empty(),
        }
    }
}

/// The names of the further parents of a type from `p`.
#[verifier::opaque]
pub open spec fn parents_names(all: Seq<TokenView>, p: int) -> Seq<Seq<char>>
    decreases all.len() - p,
{
    if tok_at(all, p) == Some(TokenView::Comma) {
        proof {
            lemma_skip_ignored_bounds(all, p + 1);
        }
        let c = step_past(all, p);
        if tok_at(all, c) matches Some(TokenView::Bareword(_)) {
            proof {
                lemma_skip_ignored_bounds(all, c + 1);
            }
            seq![name_text(tok_at(all, c))] + parents_names(all, step_past(all, c))
        } else {
            Seq::empty()
        }
    } else {
        Seq::empty()
    }
}

/// The tree of the type definition at `p`.
#[verifier::opaque]
pub open spec fn user_type_tree(all: Seq<TokenView>, p: int) -> StmtShape
    decreases all.len() - p, 48int,
{
    let n = step_past(all, p);
    let h = step_past(all, n);
    let c = step_past(all, h);
    let parents = if tok_at(all, h) == Some(TokenView::Colon) {
        seq![name_text(tok_at(all, c))] + parents_names(all, step_past(all, c))
    } else {
        Seq::empty()
    };
    let g = if tok_at(all, h) == Some(TokenView::Colon) {
        parents_end(all, step_past(all, c))
    } else {
        Some(h)
    };
    let funs = match g {
        Some(g) => if tok_at(all, p) == Some(TokenView::TypeKw) && moved(all, p, g) && g < all.len() {
            proof {
                lemma_skip_ignored_bounds(all, g + 1);
            }
            funs_trees(all, step_past(all, g))
        } else {
            Seq::empty()
        },
        None => Seq::empty(),
    };
    StmtShape::UserTy(name_text(tok_at(all, n)), parents, funs)
}

/// The trees of the functions of a type from `p`.
#[verifier::opaque]
pub open spec fn funs_trees(all: Seq<TokenView>, p: int) -> Seq<FunShape>
    decreases all.len() - p, 47int,
{
    if tok_at(all, p) == Some(TokenView::FunKw) {
        match function_end(all, p) {
            Some(f) => if moved(all, p, f) {
                proof {
                    lemma_skip_comments_bounds(all, f);
                }
                seq![function_tree(all, p)] + funs_trees(all, skip_comments(all, f))
            } else {
                Seq::empty()
            },
            None => Seq::empty(),
        }
    } else {
        Seq::empty()
    }
}

/// A type annotation stays at or after its start, and within the tokens where that is.
pub proof fn lemma_annotation_moves(all: Seq<TokenView>, p: int)
    ensures
        annotation_end(all, p) matches Some(q) ==> p <= q && (p <= all.len() ==> q <= all.len()),
{
    lemma_skip_ignored_bounds(all, p + 1);
    lemma_skip_ignored_bounds(all, step_past(all, p) + 1);
}

/// The end of a line stays at or after its start, and within the tokens where that is.
pub proof fn lemma_eol_moves(all: Seq<TokenView>, p: int)
    ensures
        eol_end(all, p) matches Some(q) ==> p <= q && (p <= all.len() ==> q <= all.len()),
{
    lemma_skip_ignored_bounds(all, p + 1);
}

/// A block stays at or after its start, and within the tokens where that is.
pub proof fn lemma_block_moves(all: Seq<TokenView>, p: int, ends: Seq<TokenView>)
    requires
        0 <= p <= all.len(),
    ensures
        block_end(all, p, ends) matches Some(q) ==> p <= q <= all.len(),
    decreases all.len() - p, 50int,
{
    reveal(block_end);
    reveal(item_end);
    reveal(stmt_end);
    reveal(if_end);
    reveal(else_end);
    reveal(cond_end);
    reveal(body_end);
    reveal(function_end);
    reveal(user_type_end);
    reveal(funs_end);
    if !at_end(all, p, ends) {
        lemma_item_moves(all, p);
        if let Some(q) = item_end(all, p) {
            if moved(all, p, q) {
                lemma_block_moves(all, q, ends);
            }
        }
    }
}

/// An item that parses moves forward and stays within the tokens.
pub proof fn lemma_item_moves(all: Seq<TokenView>, p: int)
    requires
        0 <= p <= all.len(),
    ensures
        item_end(all, p) matches Some(q) ==> moved(all, p, q),
    decreases all.len() - p, 49int,
{
    reveal(block_end);
    reveal(item_end);
    reveal(stmt_end);
    reveal(if_end);
    reveal(else_end);
    reveal(cond_end);
    reveal(body_end);
    reveal(function_end);
    reveal(user_type_end);
    reveal(funs_end);
    lemma_skip_blanks_bounds(all, p);
    let q = skip_blanks(all, p);
    match tok_at(all, q) {
        None => {},
        Some(TokenView::FunKw) => {
            lemma_function_moves(all, q);
        },
        Some(TokenView::TypeKw) => {
            lemma_user_type_moves(all, q);
            if let Some(u) = user_type_end(all, q) {
                lemma_eol_moves(all, u);
            }
        },
        Some(_) => {
            lemma_stmt_moves(all, q);
        },
    }
}

/// A statement that parses moves forward and stays within the tokens.
pub proof fn lemma_stmt_moves(all: Seq<TokenView>, p: int)
    requires
        0 <= p <= all.len(),
    ensures
        stmt_end(all, p) matches Some(q) ==> moved(all, p, q),
    decreases all.len() - p, 48int,
{
    reveal(block_end);
    reveal(item_end);
    reveal(stmt_end);
    reveal(if_end);
    reveal(else_end);
    reveal(cond_end);
    reveal(body_end);
    reveal(function_end);
    reveal(user_type_end);
    reveal(funs_end);
    lemma_skip_blanks_bounds(all, p);
    let q = skip_blanks(all, p);
    lemma_skip_ignored_bounds(all, q + 1);
    lemma_eol_moves(all, q + 1);
    match tok_at(all, q) {
        None => {},
        Some(TokenView::ReturnKw) => {
            let r = q + 1;
            if let Some(t) = tok_at(all, r) {
                if expr_lookahead(t) {
                    lemma_expr_moves(all, r, 0);
                    if let Some(v) = expr_end(all, r, 0) {
                        lemma_eol_moves(all, v);
                    }
                }
            }
        },
        Some(TokenView::ContinueKw) => {},
        Some(TokenView::BreakKw) => {},
        Some(TokenView::WhileKw) => {
            lemma_cond_moves(all, step_past(all, q));
        },
        Some(TokenView::LoopKw) => {
            lemma_body_moves(all, step_past(all, q));
        },
        Some(TokenView::IfKw) => {
            lemma_if_moves(all, q);
        },
        Some(t) => {
            lemma_expr_moves(all, q, 0);
            if let Some(e) = expr_end(all, q, 0) {
                lemma_eol_moves(all, e);
                lemma_skip_ignored_bounds(all, e + 1);
                lemma_expr_moves(all, step_past(all, e), 0);
                if let Some(v) = expr_end(all, step_past(all, e), 0) {
                    lemma_eol_moves(all, v);
                }
            }
        },
    }
}

/// An `if` statement that parses moves forward and stays within the tokens.
pub proof fn lemma_if_moves(all: Seq<TokenView>, p: int)
    requires
        0 <= p <= all.len(),
    ensures
        if_end(all, p) matches Some(q) ==> moved(all, p, q),
    decreases all.len() - p, 45int,
{
    reveal(block_end);
    reveal(item_end);
    reveal(stmt_end);
    reveal(if_end);
    reveal(else_end);
    reveal(cond_end);
    reveal(body_end);
    reveal(function_end);
    reveal(user_type_end);
    reveal(funs_end);
    if tok_at(all, p) == Some(TokenView::IfKw) {
        lemma_skip_ignored_bounds(all, p + 1);
        lemma_cond_moves(all, step_past(all, p));
        if let Some(c) = cond_end(all, step_past(all, p)) {
            if moved(all, p, c) {
                lemma_else_moves(all, c);
            }
        }
    }
}

/// What follows the blocks of an `if` stays at or after its start, and within the tokens.
pub proof fn lemma_else_moves(all: Seq<TokenView>, p: int)
    requires
        0 <= p <= all.len(),
    ensures
        else_end(all, p) matches Some(q) ==> p <= q <= all.len(),
    decreases all.len() - p, 44int,
{
    reveal(block_end);
    reveal(item_end);
    reveal(stmt_end);
    reveal(if_end);
    reveal(else_end);
    reveal(cond_end);
    reveal(body_end);
    reveal(function_end);
    reveal(user_type_end);
    reveal(funs_end);
    if tok_at(all, p) == Some(TokenView::ElseKw) {
        lemma_skip_ignored_bounds(all, p + 1);
        let r = step_past(all, p);
        if tok_at(all, r) == Some(TokenView::IfKw) {
            lemma_skip_ignored_bounds(all, r + 1);
            lemma_cond_moves(all, step_past(all, r));
            if let Some(c) = cond_end(all, step_past(all, r)) {
                if moved(all, p, c) {
                    lemma_else_moves(all, c);
                }
            }
        } else {
            lemma_body_moves(all, r);
        }
    }
}

/// A condition block that parses moves forward and stays within the tokens.
pub proof fn lemma_cond_moves(all: Seq<TokenView>, p: int)
    requires
        0 <= p <= all.len(),
    ensures
        cond_end(all, p) matches Some(q) ==> moved(all, p, q),
    decreases all.len() - p, 43int,
{
    reveal(block_end);
    reveal(item_end);
    reveal(stmt_end);
    reveal(if_end);
    reveal(else_end);
    reveal(cond_end);
    reveal(body_end);
    reveal(function_end);
    reveal(user_type_end);
    reveal(funs_end);
    lemma_expr_moves(all, p, 0);
    if let Some(e) = expr_end(all, p, 0) {
        if moved(all, p, e) {
            lemma_body_moves(all, e);
        }
    }
}

/// A block in braces that parses moves forward and stays within the tokens.
pub proof fn lemma_body_moves(all: Seq<TokenView>, p: int)
    requires
        0 <= p <= all.len(),
    ensures
        body_end(all, p) matches Some(q) ==> moved(all, p, q),
    decreases all.len() - p, 42int,
{
    reveal(block_end);
    reveal(item_end);
    reveal(stmt_end);
    reveal(if_end);
    reveal(else_end);
    reveal(cond_end);
    reveal(body_end);
    reveal(function_end);
    reveal(user_type_end);
    reveal(funs_end);
    if tok_at(all, p) == Some(TokenView::LBrace) {
        lemma_skip_ignored_bounds(all, p + 1);
        lemma_block_moves(all, step_past(all, p), seq![TokenView::RBrace]);
        if let Some(b) = block_end(all, step_past(all, p), seq![TokenView::RBrace]) {
            lemma_skip_ignored_bounds(all, b + 1);
        }
    }
}

/// A function definition that parses moves forward and stays within the tokens.
pub proof fn lemma_function_moves(all: Seq<TokenView>, p: int)
    requires
        0 <= p <= all.len(),
    ensures
        function_end(all, p) matches Some(q) ==> moved(all, p, q),
    decreases all.len() - p, 46int,
{
    reveal(block_end);
    reveal(item_end);
    reveal(stmt_end);
    reveal(if_end);
    reveal(else_end);
    reveal(cond_end);
    reveal(body_end);
    reveal(function_end);
    reveal(user_type_end);
    reveal(funs_end);
    if tok_at(all, p) == Some(TokenView::FunKw) {
        let n = step_past(all, p);
        let l = step_past(all, n);
        lemma_skip_ignored_bounds(all, p + 1);
        lemma_skip_ignored_bounds(all, n + 1);
        lemma_skip_ignored_bounds(all, l + 1);
        if let Some(r) = params_end(all, step_past(all, l), false) {
            if tok_at(all, r) == Some(TokenView::RParen) && moved(all, p, r) {
                lemma_skip_ignored_bounds(all, r + 1);
                lemma_annotation_moves(all, step_past(all, r));
                if let Some(b) = annotation_end(all, step_past(all, r)) {
                    lemma_body_moves(all, b);
                }
            }
        }
    }
}

/// A parameter that parses moves forward and stays within the tokens.
pub proof fn lemma_param_moves(all: Seq<TokenView>, p: int, defaults: bool)
    requires
        0 <= p <= all.len(),
    ensures
        param_end(all, p, defaults) matches Some((q, _)) ==> moved(all, p, q),
{
    reveal(param_end);
    lemma_skip_ignored_bounds(all, p + 1);
    lemma_annotation_moves(all, step_past(all, p));
    if let Some(b) = annotation_end(all, step_past(all, p)) {
        lemma_skip_ignored_bounds(all, b + 1);
        if p < b && b < all.len() {
            lemma_expr_moves(all, step_past(all, b), 0);
        }
    }
}

/// A type definition that parses moves forward and stays within the tokens.
pub proof fn lemma_user_type_moves(all: Seq<TokenView>, p: int)
    requires
        0 <= p <= all.len(),
    ensures
        user_type_end(all, p) matches Some(q) ==> moved(all, p, q),
    decreases all.len() - p, 48int,
{
    reveal(block_end);
    reveal(item_end);
    reveal(stmt_end);
    reveal(if_end);
    reveal(else_end);
    reveal(cond_end);
    reveal(body_end);
    reveal(function_end);
    reveal(user_type_end);
    reveal(funs_end);
    if tok_at(all, p) == Some(TokenView::TypeKw) {
        let n = step_past(all, p);
        lemma_skip_ignored_bounds(all, p + 1);
        lemma_skip_ignored_bounds(all, n + 1);
        let h = step_past(all, n);
        lemma_skip_ignored_bounds(all, h + 1);
        let c = step_past(all, h);
        lemma_skip_ignored_bounds(all, c + 1);
        if tok_at(all, n) matches Some(TokenView::Bareword(_)) {
            let g = if tok_at(all, h) == Some(TokenView::Colon) {
                if tok_at(all, c) matches Some(TokenView::Bareword(_)) {
                    parents_end(all, step_past(all, c))
                } else {
                    None
                }
            } else {
                Some(h)
            };
            if let Some(g) = g {
                if tok_at(all, g) == Some(TokenView::LBrace) && moved(all, p, g) {
                    lemma_skip_ignored_bounds(all, g + 1);
                    lemma_funs_moves(all, step_past(all, g));
                }
            }
        }
    }
}

/// The functions of a type stay at or after their start, and within the tokens where that is.
pub proof fn lemma_funs_moves(all: Seq<TokenView>, p: int)
    requires
        0 <= p <= all.len(),
    ensures
        funs_end(all, p) matches Some(q) ==> p <= q <= all.len(),
    decreases all.len() - p, 47int,
{
    reveal(block_end);
    reveal(item_end);
    reveal(stmt_end);
    reveal(if_end);
    reveal(else_end);
    reveal(cond_end);
    reveal(body_end);
    reveal(function_end);
    reveal(user_type_end);
    reveal(funs_end);
    if tok_at(all, p) == Some(TokenView::FunKw) {
        lemma_function_moves(all, p);
        if let Some(f) = function_end(all, p) {
            if moved(all, p, f) {
                lemma_skip_comments_bounds(all, f);
                lemma_funs_moves(all, skip_comments(all, f));
            }
        }
    }
}

/// Every parse of the grammar that succeeds moves forward and stays within the tokens.
pub proof fn lemma_expr_moves(all: Seq<TokenView>, p: int, level: int)
    requires
        0 <= p,
    ensures
        expr_end(all, p, level) matches Some(q) ==> moved(all, p, q),
    decreases all.len() - p, 20int,
{
    lemma_binary_moves(all, p, level, expr_levels(), 0);
}

/// A binary expression that parses moves forward and stays within the tokens.
pub proof fn lemma_binary_moves(all: Seq<TokenView>, p: int, level: int, ops: Seq<Seq<OpView>>, k: int)
    requires
        0 <= p,
    ensures
        binary_end(all, p, level, ops, k) matches Some(q) ==> moved(all, p, q),
    decreases all.len() - p, 10 + levels_left(ops, k),
{
    if 0 <= k < ops.len() {
        lemma_binary_moves(all, p, level, ops, k + 1);
        if let Some(q) = binary_end(all, p, level, ops, k + 1) {
            if let Some(TokenView::Op(o)) = tok_at(all, q) {
                if ops[k].contains(o) && moved(all, p, q) {
                    lemma_skip_ignored_bounds(all, q + 1);
                    lemma_binary_moves(all, step_past(all, q), level, ops, k);
                }
            }
        }
    } else {
        lemma_unary_moves(all, p, level);
    }
}

/// A unary expression that parses moves forward and stays within the tokens.
pub proof fn lemma_unary_moves(all: Seq<TokenView>, p: int, level: int)
    requires
        0 <= p,
    ensures
        unary_end(all, p, level) matches Some(q) ==> moved(all, p, q),
    decreases all.len() - p, 3int,
{
    match tok_at(all, p) {
        Some(TokenView::Op(o)) => {
            if expr_lookahead(TokenView::Op(o)) {
                lemma_skip_ignored_bounds(all, p + 1);
                lemma_unary_moves(all, step_past(all, p), level);
            }
        },
        _ => {
            lemma_atom_moves(all, p, level);
        },
    }
}

/// An atom that parses moves forward and stays within the tokens.
pub proof fn lemma_atom_moves(all: Seq<TokenView>, p: int, level: int)
    requires
        0 <= p,
    ensures
        atom_end(all, p, level) matches Some(q) ==> moved(all, p, q),
    decreases all.len() - p, 2int,
{
    lemma_atom_base_moves(all, p, level);
    if let Some(q) = atom_base_end(all, p, level) {
        if moved(all, p, q) {
            if tok_at(all, q) == Some(TokenView::LParen) {
                lemma_args_moves(all, q, level);
            }
            let call = if tok_at(all, q) == Some(TokenView::LParen) {
                args_end(all, q, level)
            } else {
                Some(q)
            };
            if let Some(c) = call {
                if moved(all, p, c) {
                    lemma_index_moves(all, c, level);
                }
            }
        }
    }
}

/// An atom or a parenthesised expression that parses moves forward and stays within the
/// tokens.
pub proof fn lemma_atom_base_moves(all: Seq<TokenView>, p: int, level: int)
    requires
        0 <= p,
    ensures
        atom_base_end(all, p, level) matches Some(q) ==> moved(all, p, q),
    decreases all.len() - p, 1int,
{
    lemma_skip_ignored_bounds(all, p + 1);
    if let Some(t) = tok_at(all, p) {
        if expr_lookahead(t) && t == TokenView::LParen {
            lemma_expr_moves(all, step_past(all, p), level + 1);
            if let Some(q) = expr_end(all, step_past(all, p), level + 1) {
                lemma_skip_ignored_bounds(all, q + 1);
            }
        }
    }
}

/// Call arguments that parse move forward and stay within the tokens.
pub proof fn lemma_args_moves(all: Seq<TokenView>, p: int, level: int)
    requires
        0 <= p,
    ensures
        args_end(all, p, level) matches Some(q) ==> moved(all, p, q),
    decreases all.len() - p, 1int,
{
    if tok_at(all, p) == Some(TokenView::LParen) {
        lemma_skip_ignored_bounds(all, p + 1);
        let q = step_past(all, p);
        lemma_skip_ignored_bounds(all, q + 1);
        if tok_at(all, q) != Some(TokenView::RParen) {
            lemma_expr_moves(all, q, level);
            if let Some(e) = expr_end(all, q, level) {
                if moved(all, p, e) {
                    lemma_args_rest_moves(all, e, level);
                }
            }
        }
    }
}

/// The rest of an argument list that parses moves forward and stays within the tokens.
pub proof fn lemma_args_rest_moves(all: Seq<TokenView>, p: int, level: int)
    requires
        0 <= p,
    ensures
        args_rest(all, p, level) matches Some(q) ==> moved(all, p, q),
    decreases all.len() - p, 0int,
{
    lemma_skip_ignored_bounds(all, p + 1);
    if tok_at(all, p) == Some(TokenView::Comma) {
        lemma_expr_moves(all, step_past(all, p), level);
        if let Some(e) = expr_end(all, step_past(all, p), level) {
            if moved(all, p, e) {
                lemma_args_rest_moves(all, e, level);
            }
        }
    }
}

/// An index that parses moves forward and stays within the tokens; where none follows, it
/// stays in place.
pub proof fn lemma_index_moves(all: Seq<TokenView>, p: int, level: int)
    requires
        0 <= p <= all.len(),
    ensures
        index_end(all, p, level) matches Some(q) ==> p <= q <= all.len(),
    decreases all.len() - p, 0int,
{
    if tok_at(all, p) == Some(TokenView::LBracket) {
        lemma_skip_ignored_bounds(all, p + 1);
        lemma_expr_moves(all, step_past(all, p), level);
    }
}

/// One step of `block_end`: its definition.
pub proof fn lemma_block_unfold(all: Seq<TokenView>, p: int, ends: Seq<TokenView>)
    ensures
        block_end(all, p, ends) == {
            if at_end(all, p, ends) {
                Some(p)
            } else {
                match item_end(all, p) {
                    None => None,
                    Some(q) => if moved(all, p, q) {
                        block_end(all, q, ends)
                    } else {
                        None
                    },
                }
            }
        },
{
    reveal(block_end);
    reveal(item_end);
    reveal(stmt_end);
    reveal(if_end);
    reveal(else_end);
    reveal(cond_end);
    reveal(body_end);
    reveal(function_end);
    reveal(user_type_end);
    reveal(funs_end);
}

/// One step of `item_end`: its definition.
pub proof fn lemma_item_unfold(all: Seq<TokenView>, p: int)
    ensures
        item_end(all, p) == {
            let q = skip_blanks(all, p);
            if p <= all.len() {
                match tok_at(all, q) {
                    None => None,
                    Some(TokenView::FunKw) => function_end(all, q),
                    Some(TokenView::TypeKw) => match user_type_end(all, q) {
                        None => None,
                        Some(u) => eol_end(all, u),
                    },
                    Some(_) => stmt_end(all, q),
                }
            } else {
                None
            }
        },
{
    reveal(block_end);
    reveal(item_end);
    reveal(stmt_end);
    reveal(if_end);
    reveal(else_end);
    reveal(cond_end);
    reveal(body_end);
    reveal(function_end);
    reveal(user_type_end);
    reveal(funs_end);
}

/// One step of `stmt_end`: its definition.
pub proof fn lemma_stmt_unfold(all: Seq<TokenView>, p: int)
    ensures
        stmt_end(all, p) == {
            let q = skip_blanks(all, p);
            if p <= all.len() {
                match tok_at(all, q) {
                    None => None,
                    Some(TokenView::ReturnKw) => {
                        let r = q + 1;
                        let v = match tok_at(all, r) {
                            Some(t) => if expr_lookahead(t) {
                                expr_end(all, r, 0)
                            } else {
                                Some(r)
                            },
                            None => Some(r),
                        };
                        match v {
                            None => None,
                            Some(v) => eol_end(all, v),
                        }
                    },
                    Some(TokenView::ContinueKw) => eol_end(all, q + 1),
                    Some(TokenView::BreakKw) => eol_end(all, q + 1),
                    Some(TokenView::WhileKw) => cond_end(all, step_past(all, q)),
                    Some(TokenView::LoopKw) => body_end(all, step_past(all, q)),
                    Some(TokenView::IfKw) => if_end(all, q),
                    Some(t) => if expr_lookahead(t) {
                        match expr_end(all, q, 0) {
                            None => None,
                            Some(e) => match tok_at(all, e) {
                                Some(TokenView::AssignOp(_)) => match expr_end(all, step_past(all, e), 0) {
                                    None => None,
                                    Some(v) => eol_end(all, v),
                                },
                                _ => eol_end(all, e),
                            },
                        }
                    } else {
                        None
                    },
                }
            } else {
                None
            }
        },
{
    reveal(block_end);
    reveal(item_end);
    reveal(stmt_end);
    reveal(if_end);
    reveal(else_end);
    reveal(cond_end);
    reveal(body_end);
    reveal(function_end);
    reveal(user_type_end);
    reveal(funs_end);
}

/// One step of `if_end`: its definition.
pub proof fn lemma_if_unfold(all: Seq<TokenView>, p: int)
    ensures
        if_end(all, p) == {
            if tok_at(all, p) == Some(TokenView::IfKw) {
                match cond_end(all, step_past(all, p)) {
                    None => None,
                    Some(c) => if moved(all, p, c) {
                        else_end(all, c)
                    } else {
                        None
                    },
                }
            } else {
                None
            }
        },
{
    reveal(block_end);
    reveal(item_end);
    reveal(stmt_end);
    reveal(if_end);
    reveal(else_end);
    reveal(cond_end);
    reveal(body_end);
    reveal(function_end);
    reveal(user_type_end);
    reveal(funs_end);
}

/// One step of `else_end`: its definition.
pub proof fn lemma_else_unfold(all: Seq<TokenView>, p: int)
    ensures
        else_end(all, p) == {
            if tok_at(all, p) == Some(TokenView::ElseKw) {
                let r = step_past(all, p);
                if tok_at(all, r) == Some(TokenView::IfKw) {
                    match cond_end(all, step_past(all, r)) {
                        None => None,
                        Some(c) => if moved(all, p, c) {
                            else_end(all, c)
                        } else {
                            None
                        },
                    }
                } else {
                    body_end(all, r)
                }
            } else {
                Some(p)
            }
        },
{
    reveal(block_end);
    reveal(item_end);
    reveal(stmt_end);
    reveal(if_end);
    reveal(else_end);
    reveal(cond_end);
    reveal(body_end);
    reveal(function_end);
    reveal(user_type_end);
    reveal(funs_end);
}

/// One step of `cond_end`: its definition.
pub proof fn lemma_cond_unfold(all: Seq<TokenView>, p: int)
    ensures
        cond_end(all, p) == {
            match expr_end(all, p, 0) {
                None => None,
                Some(e) => if moved(all, p, e) {
                    body_end(all, e)
                } else {
                    None
                },
            }
        },
{
    reveal(block_end);
    reveal(item_end);
    reveal(stmt_end);
    reveal(if_end);
    reveal(else_end);
    reveal(cond_end);
    reveal(body_end);
    reveal(function_end);
    reveal(user_type_end);
    reveal(funs_end);
}

/// One step of `body_end`: its definition.
pub proof fn lemma_body_unfold(all: Seq<TokenView>, p: int)
    ensures
        body_end(all, p) == {
            if tok_at(all, p) == Some(TokenView::LBrace) {
                match block_end(all, step_past(all, p), seq![TokenView::RBrace]) {
                    None => None,
                    Some(b) => if tok_at(all, b) == Some(TokenView::RBrace) {
                        Some(step_past(all, b))
                    } else {
                        None
                    },
                }
            } else {
                None
            }
        },
{
    reveal(block_end);
    reveal(item_end);
    reveal(stmt_end);
    reveal(if_end);
    reveal(else_end);
    reveal(cond_end);
    reveal(body_end);
    reveal(function_end);
    reveal(user_type_end);
    reveal(funs_end);
}

/// One step of `function_end`: its definition.
pub proof fn lemma_function_unfold(all: Seq<TokenView>, p: int)
    ensures
        function_end(all, p) == {
            if tok_at(all, p) == Some(TokenView::FunKw) {
                let n = step_past(all, p);
                let l = step_past(all, n);
                if tok_at(all, n) matches Some(TokenView::Bareword(_)) && tok_at(all, l) == Some(TokenView::LParen) {
                    match params_end(all, step_past(all, l), false) {
                        None => None,
                        Some(r) => if tok_at(all, r) == Some(TokenView::RParen) && moved(all, p, r) {
                            match annotation_end(all, step_past(all, r)) {
                                None => None,
                                Some(b) => {
                                    body_end(all, b)
                                },
                            }
                        } else {
                            None
                        },
                    }
                } else {
                    None
                }
            } else {
                None
            }
        },
{
    reveal(block_end);
    reveal(item_end);
    reveal(stmt_end);
    reveal(if_end);
    reveal(else_end);
    reveal(cond_end);
    reveal(body_end);
    reveal(function_end);
    reveal(user_type_end);
    reveal(funs_end);
}

/// One step of `user_type_end`: its definition.
pub proof fn lemma_user_type_unfold(all: Seq<TokenView>, p: int)
    ensures
        user_type_end(all, p) == {
            if tok_at(all, p) == Some(TokenView::TypeKw) {
                let n = step_past(all, p);
                if tok_at(all, n) matches Some(TokenView::Bareword(_)) {
                    let h = step_past(all, n);
                    let g = if tok_at(all, h) == Some(TokenView::Colon) {
                        let c = step_past(all, h);
                        if tok_at(all, c) matches Some(TokenView::Bareword(_)) {
                            parents_end(all, step_past(all, c))
                        } else {
                            None
                        }
                    } else {
                        Some(h)
                    };
                    match g {
                        None => None,
                        Some(g) => if tok_at(all, g) == Some(TokenView::LBrace) && moved(all, p, g) {
                            match funs_end(all, step_past(all, g)) {
                                None => None,
                                Some(f) => if tok_at(all, f) == Some(TokenView::RBrace) {
                                    Some(f + 1)
                                } else {
                                    None
                                },
                            }
                        } else {
                            None
                        },
                    }
                } else {
                    None
                }
            } else {
                None
            }
        },
{
    reveal(block_end);
    reveal(item_end);
    reveal(stmt_end);
    reveal(if_end);
    reveal(else_end);
    reveal(cond_end);
    reveal(body_end);
    reveal(function_end);
    reveal(user_type_end);
    reveal(funs_end);
}

/// One step of `funs_end`: its definition.
pub proof fn lemma_funs_unfold(all: Seq<TokenView>, p: int)
    ensures
        funs_end(all, p) == {
            if tok_at(all, p) == Some(TokenView::FunKw) {
                match function_end(all, p) {
                    None => None,
                    Some(f) => if moved(all, p, f) {
                        funs_end(all, skip_comments(all, f))
                    } else {
                        None
                    },
                }
            } else {
                Some(p)
            }
        },
{
    reveal(block_end);
    reveal(item_end);
    reveal(stmt_end);
    reveal(if_end);
    reveal(else_end);
    reveal(cond_end);
    reveal(body_end);
    reveal(function_end);
    reveal(user_type_end);
    reveal(funs_end);
}

/// One step of `params_end`: its definition.
pub proof fn lemma_params_unfold(all: Seq<TokenView>, p: int, defaults: bool)
    ensures
        params_end(all, p, defaults) == if tok_at(all, p) == Some(TokenView::RParen) {
            Some(p)
        } else {
            match param_end(all, p, defaults) {
                None => None,
                Some((d, given)) => if tok_at(all, d) == Some(TokenView::RParen) {
                    Some(d)
                } else if tok_at(all, d) == Some(TokenView::Comma) && moved(all, p, d) {
                    params_end(all, step_past(all, d), given)
                } else {
                    None
                },
            }
        },
{
    reveal(params_end);
}

/// One step of `parents_end`: its definition.
pub proof fn lemma_parents_unfold(all: Seq<TokenView>, p: int)
    ensures
        parents_end(all, p) == {
            if tok_at(all, p) == Some(TokenView::Comma) {
                let c = step_past(all, p);
                if tok_at(all, c) matches Some(TokenView::Bareword(_)) {
                    parents_end(all, step_past(all, c))
                } else {
                    None
                }
            } else {
                Some(p)
            }
        },
{
    reveal(parents_end);
}

/// One step of `expr_tree`: its definition.
pub proof fn lemma_expr_tree_unfold(all: Seq<TokenView>, p: int, level: int)
    ensures
        expr_tree(all, p, level) == {
            binary_tree(all, p, level, expr_levels(), 0)
        },
{
    reveal(expr_tree);
    reveal(binary_tree);
    reveal(unary_tree);
    reveal(atom_tree);
    reveal(atom_base_tree);
    reveal(args_trees);
    reveal(args_rest_trees);
}

/// One step of `binary_tree`: its definition.
pub proof fn lemma_binary_tree_unfold(all: Seq<TokenView>, p: int, level: int, ops: Seq<Seq<OpView>>, k: int)
    ensures
        binary_tree(all, p, level, ops, k) == {
            if 0 <= k < ops.len() {
                let lhs = binary_tree(all, p, level, ops, k + 1);
                match binary_end(all, p, level, ops, k + 1) {
                    Some(q) => match tok_at(all, q) {
                        Some(TokenView::Op(o)) => if ops[k].contains(o) && moved(all, p, q) {
                            ExprShape::Binary(Box::new(lhs), o, Box::new(binary_tree(all, step_past(all, q), level, ops, k)))
                        } else {
                            lhs
                        },
                        _ => lhs,
                    },
                    None => lhs,
                }
            } else {
                unary_tree(all, p, level)
            }
        },
{
    reveal(expr_tree);
    reveal(binary_tree);
    reveal(unary_tree);
    reveal(atom_tree);
    reveal(atom_base_tree);
    reveal(args_trees);
    reveal(args_rest_trees);
}

/// One step of `unary_tree`: its definition.
pub proof fn lemma_unary_tree_unfold(all: Seq<TokenView>, p: int, level: int)
    ensures
        unary_tree(all, p, level) == {
            match tok_at(all, p) {
                Some(TokenView::Op(o)) => {
                    ExprShape::Unary(o, Box::new(unary_tree(all, step_past(all, p), level)))
                },
                _ => atom_tree(all, p, level),
            }
        },
{
    reveal(expr_tree);
    reveal(binary_tree);
    reveal(unary_tree);
    reveal(atom_tree);
    reveal(atom_base_tree);
    reveal(args_trees);
    reveal(args_rest_trees);
}

/// One step of `atom_tree`: its definition.
pub proof fn lemma_atom_tree_unfold(all: Seq<TokenView>, p: int, level: int)
    ensures
        atom_tree(all, p, level) == {
            let base = atom_base_tree(all, p, level);
            match atom_base_end(all, p, level) {
                Some(q) => if moved(all, p, q) {
                    let called = if tok_at(all, q) == Some(TokenView::LParen) {
                        ExprShape::Call(Box::new(base), args_trees(all, q, level))
                    } else {
                        base
                    };
                    let call = if tok_at(all, q) == Some(TokenView::LParen) {
                        args_end(all, q, level)
                    } else {
                        Some(q)
                    };
                    match call {
                        Some(c) => if moved(all, p, c) && tok_at(all, c) == Some(TokenView::LBracket) {
                            ExprShape::Index(Box::new(called), Box::new(expr_tree(all, step_past(all, c), level)))
                        } else {
                            called
                        },
                        None => called,
                    }
                } else {
                    base
                },
                None => base,
            }
        },
{
    reveal(expr_tree);
    reveal(binary_tree);
    reveal(unary_tree);
    reveal(atom_tree);
    reveal(atom_base_tree);
    reveal(args_trees);
    reveal(args_rest_trees);
}

/// One step of `atom_base_tree`: its definition.
pub proof fn lemma_atom_base_tree_unfold(all: Seq<TokenView>, p: int, level: int)
    ensures
        atom_base_tree(all, p, level) == {
            match tok_at(all, p) {
                Some(t) => if t == TokenView::LParen {
                    expr_tree(all, step_past(all, p), level + 1)
                } else {
                    ExprShape::Atom(t)
                },
                None => ExprShape::Atom(TokenView::Comment),
            }
        },
{
    reveal(expr_tree);
    reveal(binary_tree);
    reveal(unary_tree);
    reveal(atom_tree);
    reveal(atom_base_tree);
    reveal(args_trees);
    reveal(args_rest_trees);
}

/// One step of `args_trees`: its definition.
pub proof fn lemma_args_trees_unfold(all: Seq<TokenView>, p: int, level: int)
    ensures
        args_trees(all, p, level) == {
            if tok_at(all, p) == Some(TokenView::LParen) {
                let q = step_past(all, p);
                if tok_at(all, q) == Some(TokenView::RParen) {
                    Seq::empty()
                } else {
                    match expr_end(all, q, level) {
                        Some(e) => if moved(all, p, e) {
                            seq![expr_tree(all, q, level)] + args_rest_trees(all, e, level)
                        } else {
                            Seq::empty()
                        },
                        None => Seq::empty(),
                    }
                }
            } else {
                Seq::empty()
            }
        },
{
    reveal(expr_tree);
    reveal(binary_tree);
    reveal(unary_tree);
    reveal(atom_tree);
    reveal(atom_base_tree);
    reveal(args_trees);
    reveal(args_rest_trees);
}

/// One step of `args_rest_trees`: its definition.
pub proof fn lemma_args_rest_trees_unfold(all: Seq<TokenView>, p: int, level: int)
    ensures
        args_rest_trees(all, p, level) == {
            if tok_at(all, p) == Some(TokenView::Comma) {
                match expr_end(all, step_past(all, p), level) {
                    Some(e) => if moved(all, p, e) {
                        seq![expr_tree(all, step_past(all, p), level)] + args_rest_trees(all, e, level)
                    } else {
                        Seq::empty()
                    },
                    None => Seq::empty(),
                }
            } else {
                Seq::empty()
            }
        },
{
    reveal(expr_tree);
    reveal(binary_tree);
    reveal(unary_tree);
    reveal(atom_tree);
    reveal(atom_base_tree);
    reveal(args_trees);
    reveal(args_rest_trees);
}

/// One step of `block_tree`: its definition.
pub proof fn lemma_block_tree_unfold(all: Seq<TokenView>, p: int, ends: Seq<TokenView>)
    ensures
        block_tree(all, p, ends) == {
            if at_end(all, p, ends) {
                Seq::empty()
            } else {
                match item_end(all, p) {
                    Some(q) => if moved(all, p, q) {
                        seq![item_tree(all, p)] + block_tree(all, q, ends)
                    } else {
                        Seq::empty()
                    },
                    None => Seq::empty(),
                }
            }
        },
{
    reveal(block_tree);
    reveal(item_tree);
    reveal(stmt_tree);
    reveal(if_tree);
    reveal(else_tree);
    reveal(cond_tree);
    reveal(body_tree);
    reveal(function_tree);
    reveal(user_type_tree);
    reveal(funs_trees);
}

/// One step of `item_tree`: its definition.
pub proof fn lemma_item_tree_unfold(all: Seq<TokenView>, p: int)
    ensures
        item_tree(all, p) == {
            let q = skip_blanks(all, p);
            if p <= all.len() {
                match tok_at(all, q) {
                    Some(TokenView::FunKw) => StmtShape::Fun(function_tree(all, q)),
                    Some(TokenView::TypeKw) => user_type_tree(all, q),
                    _ => stmt_tree(all, q),
                }
            } else {
                StmtShape::Continue
            }
        },
{
    reveal(block_tree);
    reveal(item_tree);
    reveal(stmt_tree);
    reveal(if_tree);
    reveal(else_tree);
    reveal(cond_tree);
    reveal(body_tree);
    reveal(function_tree);
    reveal(user_type_tree);
    reveal(funs_trees);
}

/// One step of `stmt_tree`: its definition.
pub proof fn lemma_stmt_tree_unfold(all: Seq<TokenView>, p: int)
    ensures
        stmt_tree(all, p) == {
            let q = skip_blanks(all, p);
            if p <= all.len() {
                match tok_at(all, q) {
                    Some(TokenView::ReturnKw) => StmtShape::Return(
                        if tok_at(all, q + 1) matches Some(t) && expr_lookahead(t) {
                            Some(expr_tree(all, q + 1, 0))
                        } else {
                            None
                        },
                    ),
                    Some(TokenView::ContinueKw) => StmtShape::Continue,
                    Some(TokenView::BreakKw) => StmtShape::Break,
                    Some(TokenView::WhileKw) => StmtShape::While(cond_tree(all, step_past(all, q))),
                    Some(TokenView::LoopKw) => StmtShape::Loop(body_tree(all, step_past(all, q))),
                    Some(TokenView::IfKw) => if_tree(all, q),
                    _ => match expr_end(all, q, 0) {
                        Some(e) => match tok_at(all, e) {
                            Some(TokenView::AssignOp(op)) => StmtShape::Assign(
                                expr_tree(all, q, 0),
                                op,
                                expr_tree(all, step_past(all, e), 0),
                            ),
                            _ => StmtShape::Expr(expr_tree(all, q, 0)),
                        },
                        None => StmtShape::Expr(expr_tree(all, q, 0)),
                    },
                }
            } else {
                StmtShape::Continue
            }
        },
{
    reveal(block_tree);
    reveal(item_tree);
    reveal(stmt_tree);
    reveal(if_tree);
    reveal(else_tree);
    reveal(cond_tree);
    reveal(body_tree);
    reveal(function_tree);
    reveal(user_type_tree);
    reveal(funs_trees);
}

/// One step of `if_tree`: its definition.
pub proof fn lemma_if_tree_unfold(all: Seq<TokenView>, p: int)
    ensures
        if_tree(all, p) == {
            if tok_at(all, p) == Some(TokenView::IfKw) {
                let first = cond_tree(all, step_past(all, p));
                match cond_end(all, step_past(all, p)) {
                    Some(c) => if moved(all, p, c) {
                        let rest = else_tree(all, c);
                        StmtShape::If(first, rest.0, rest.1)
                    } else {
                        StmtShape::If(first, Seq::empty(), None)
                    },
                    None => StmtShape::If(first, Seq::empty(), None),
                }
            } else {
                StmtShape::Continue
            }
        },
{
    reveal(block_tree);
    reveal(item_tree);
    reveal(stmt_tree);
    reveal(if_tree);
    reveal(else_tree);
    reveal(cond_tree);
    reveal(body_tree);
    reveal(function_tree);
    reveal(user_type_tree);
    reveal(funs_trees);
}

/// One step of `else_tree`: its definition.
pub proof fn lemma_else_tree_unfold(all: Seq<TokenView>, p: int)
    ensures
        else_tree(all, p) == {
            if tok_at(all, p) == Some(TokenView::ElseKw) {
                let r = step_past(all, p);
                if tok_at(all, r) == Some(TokenView::IfKw) {
                    match cond_end(all, step_past(all, r)) {
                        Some(c) => if moved(all, p, c) {
                            let rest = else_tree(all, c);
                            (seq![cond_tree(all, step_past(all, r))] + rest.0, rest.1)
                        } else {
                            (Seq::empty(), None)
                        },
                        None => (Seq::empty(), None),
                    }
                } else {
                    (Seq::empty(), Some(body_tree(all, r)))
                }
            } else {
                (Seq::empty(), None)
            }
        },
{
    reveal(block_tree);
    reveal(item_tree);
    reveal(stmt_tree);
    reveal(if_tree);
    reveal(else_tree);
    reveal(cond_tree);
    reveal(body_tree);
    reveal(function_tree);
    reveal(user_type_tree);
    reveal(funs_trees);
}

/// One step of `cond_tree`: its definition.
pub proof fn lemma_cond_tree_unfold(all: Seq<TokenView>, p: int)
    ensures
        cond_tree(all, p) == {
            CondShape {
                cond: expr_tree(all, p, 0),
                body: match expr_end(all, p, 0) {
                    Some(e) => if moved(all, p, e) {
                        body_tree(all, e)
                    } else {
                        Seq::empty()
                    },
                    None => Seq::empty(),
                },
            }
        },
{
    reveal(block_tree);
    reveal(item_tree);
    reveal(stmt_tree);
    reveal(if_tree);
    reveal(else_tree);
    reveal(cond_tree);
    reveal(body_tree);
    reveal(function_tree);
    reveal(user_type_tree);
    reveal(funs_trees);
}

/// One step of `body_tree`: its definition.
pub proof fn lemma_body_tree_unfold(all: Seq<TokenView>, p: int)
    ensures
        body_tree(all, p) == {
            if tok_at(all, p) == Some(TokenView::LBrace) {
                block_tree(all, step_past(all, p), seq![TokenView::RBrace])
            } else {
                Seq::empty()
            }
        },
{
    reveal(block_tree);
    reveal(item_tree);
    reveal(stmt_tree);
    reveal(if_tree);
    reveal(else_tree);
    reveal(cond_tree);
    reveal(body_tree);
    reveal(function_tree);
    reveal(user_type_tree);
    reveal(funs_trees);
}

/// One step of `function_tree`: its definition.
pub proof fn lemma_function_tree_unfold(all: Seq<TokenView>, p: int)
    ensures
        function_tree(all, p) == {
            let n = step_past(all, p);
            let l = step_past(all, n);
            let params = params_trees(all, step_past(all, l), false);
            match params_end(all, step_past(all, l), false) {
                Some(r) => if tok_at(all, p) == Some(TokenView::FunKw) && tok_at(all, r) == Some(TokenView::RParen)
                    && moved(all, p, r) {
                    let a = step_past(all, r);
                    FunShape {
                        name: name_text(tok_at(all, n)),
                        params,
                        return_ty: annotation_ty(all, a),
                        body: match annotation_end(all, a) {
                            Some(b) => body_tree(all, b),
                            None => Seq::empty(),
                        },
                    }
                } else {
                    FunShape { name: name_text(tok_at(all, n)), params, return_ty: None, body: Seq::empty() }
                },
                None => FunShape { name: name_text(tok_at(all, n)), params, return_ty: None, body: Seq::empty() },
            }
        },
{
    reveal(block_tree);
    reveal(item_tree);
    reveal(stmt_tree);
    reveal(if_tree);
    reveal(else_tree);
    reveal(cond_tree);
    reveal(body_tree);
    reveal(function_tree);
    reveal(user_type_tree);
    reveal(funs_trees);
}

/// The tree of a function definition whose parts all read: its name, the trees of its
/// parameters, its return type and the trees of its body.
pub proof fn lemma_function_tree_parts(all: Seq<TokenView>, p: int, r: int, b: int)
    requires
        tok_at(all, p) == Some(TokenView::FunKw),
        params_end(all, step_past(all, step_past(all, step_past(all, p))), false) == Some(r),
        tok_at(all, r) == Some(TokenView::RParen),
        moved(all, p, r),
        annotation_end(all, step_past(all, r)) == Some(b),
    ensures
        function_tree(all, p) == (FunShape {
            name: name_text(tok_at(all, step_past(all, p))),
            params: params_trees(all, step_past(all, step_past(all, step_past(all, p))), false),
            return_ty: annotation_ty(all, step_past(all, r)),
            body: body_tree(all, b),
        }),
{
    lemma_function_tree_unfold(all, p);
}

/// One step of `user_type_tree`: its definition.
pub proof fn lemma_user_type_tree_unfold(all: Seq<TokenView>, p: int)
    ensures
        user_type_tree(all, p) == {
            let n = step_past(all, p);
            let h = step_past(all, n);
            let c = step_past(all, h);
            let parents = if tok_at(all, h) == Some(TokenView::Colon) {
                seq![name_text(tok_at(all, c))] + parents_names(all, step_past(all, c))
            } else {
                Seq::empty()
            };
            let g = if tok_at(all, h) == Some(TokenView::Colon) {
                parents_end(all, step_past(all, c))
            } else {
                Some(h)
            };
            let funs = match g {
                Some(g) => if tok_at(all, p) == Some(TokenView::TypeKw) && moved(all, p, g) && g < all.len() {
                    funs_trees(all, step_past(all, g))
                } else {
                    Seq::empty()
                },
                None => Seq::empty(),
            };
            StmtShape::UserTy(name_text(tok_at(all, n)), parents, funs)
        },
{
    reveal(block_tree);
    reveal(item_tree);
    reveal(stmt_tree);
    reveal(if_tree);
    reveal(else_tree);
    reveal(cond_tree);
    reveal(body_tree);
    reveal(function_tree);
    reveal(user_type_tree);
    reveal(funs_trees);
}

/// One step of `funs_trees`: its definition.
pub proof fn lemma_funs_trees_unfold(all: Seq<TokenView>, p: int)
    ensures
        funs_trees(all, p) == {
            if tok_at(all, p) == Some(TokenView::FunKw) {
                match function_end(all, p) {
                    Some(f) => if moved(all, p, f) {
                        seq![function_tree(all, p)] + funs_trees(all, skip_comments(all, f))
                    } else {
                        Seq::empty()
                    },
                    None => Seq::empty(),
                }
            } else {
                Seq::empty()
            }
        },
{
    reveal(block_tree);
    reveal(item_tree);
    reveal(stmt_tree);
    reveal(if_tree);
    reveal(else_tree);
    reveal(cond_tree);
    reveal(body_tree);
    reveal(function_tree);
    reveal(user_type_tree);
    reveal(funs_trees);
}

/// One step of `params_trees`: its definition.
pub proof fn lemma_params_trees_unfold(all: Seq<TokenView>, p: int, defaults: bool)
    ensures
        params_trees(all, p, defaults) == {
            if tok_at(all, p) == Some(TokenView::RParen) {
                Seq::empty()
            } else {
                match param_end(all, p, defaults) {
                    Some((d, given)) => seq![param_tree(all, p, defaults)] + if tok_at(all, d) != Some(TokenView::RParen)
                        && tok_at(all, d) == Some(TokenView::Comma) && moved(all, p, d) {
                        params_trees(all, step_past(all, d), given)
                    } else {
                        Seq::empty()
                    },
                    None => Seq::empty(),
                }
            }
        },
{
    reveal(params_trees);
}

/// One step of `parents_names`: its definition.
pub proof fn lemma_parents_names_unfold(all: Seq<TokenView>, p: int)
    ensures
        parents_names(all, p) == {
            if tok_at(all, p) == Some(TokenView::Comma) {
                let c = step_past(all, p);
                if tok_at(all, c) matches Some(TokenView::Bareword(_)) {
                    seq![name_text(tok_at(all, c))] + parents_names(all, step_past(all, c))
                } else {
                    Seq::empty()
                }
            } else {
                Seq::empty()
            }
        },
{
    reveal(parents_names);
}

} // verus!
