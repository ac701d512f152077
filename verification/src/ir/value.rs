use vstd::prelude::*;
use crate::common::lang::{Op, OpView};
use crate::common::pos::{RangeWrapper, Ranged};
use crate::syntax::token::{Token, TokenView};
use crate::syntax::tree::Expr;
use crate::syntax::grammar::{ExprShape, expr_shape, expr_shapes};
use crate::ir::symbol::{Symbol, names_type};

verus! {

/// A literal value, kept as it was written.
#[derive(Debug)]
pub enum Const {
    /// A string literal.
    Str(String),
    /// An integer literal: its digits and its radix.
    Int(String, usize),
    /// A floating point literal: its text.
    Float(String),
}

/// A value of the intermediate representation.
#[derive(Debug)]
pub enum ValueKind {
    Const(Const),
    Symbol(Symbol),
    ArrayAccess(Box<Value>, Box<Value>),
    BinaryExpr(Box<Value>, Op, Box<Value>),
    UnaryExpr(Op, Box<Value>),
    FunCall(Box<Value>, Vec<Value>),
}

/// A value, with the range of source it comes from.
pub type Value = RangeWrapper<ValueKind>;

/// The shape of a value: its tree, with the source ranges left out.
pub enum ValueShape {
    Str(Seq<char>),
    Int(Seq<char>, usize),
    Float(Seq<char>),
    Var(Seq<char>),
    Fun(Seq<char>),
    Ty(Seq<char>),
    Index(Box<ValueShape>, Box<ValueShape>),
    Binary(Box<ValueShape>, OpView, Box<ValueShape>),
    Unary(OpView, Box<ValueShape>),
    Call(Box<ValueShape>, Seq<ValueShape>),
}

/// The shape of a value.
pub open spec fn value_shape(v: Value) -> ValueShape
    decreases v,
{
    match v.1 {
        ValueKind::Const(Const::Str(s)) => ValueShape::Str(s@),
        ValueKind::Const(Const::Int(s, r)) => ValueShape::Int(s@, r),
        ValueKind::Const(Const::Float(s)) => ValueShape::Float(s@),
        ValueKind::Symbol(Symbol::Variable(s)) => ValueShape::Var(s@),
        ValueKind::Symbol(Symbol::Fun(s)) => ValueShape::Fun(s@),
        ValueKind::Symbol(Symbol::Ty(s)) => ValueShape::Ty(s@),
        ValueKind::ArrayAccess(a, i) => ValueShape::Index(Box::new(value_shape(*a)), Box::new(value_shape(*i))),
        ValueKind::BinaryExpr(l, op, r) => ValueShape::Binary(Box::new(value_shape(*l)), op@, Box::new(value_shape(*r))),
        ValueKind::UnaryExpr(op, x) => ValueShape::Unary(op@, Box::new(value_shape(*x))),
        ValueKind::FunCall(f, args) => ValueShape::Call(Box::new(value_shape(*f)), value_shapes(args@)),
    }
}

/// The shapes of a list of values, in order.
pub open spec fn value_shapes(vs: Seq<Value>) -> Seq<ValueShape>
    decreases vs,
{
    if vs.len() == 0 {
        Seq::empty()
    } else {
        value_shapes(vs.drop_last()).push(value_shape(vs.last()))
    }
}

/// The value that an expression stands for: literals become constants, variables and
/// barewords become symbols (a bareword with an upper-case initial names a type, any other a
/// function), and operators, calls and indexing keep their structure. An atom of any other
/// token, which the parser never reads, becomes a function of no name.
pub open spec fn lower_expr(e: ExprShape) -> ValueShape
    decreases e,
{
    match e {
        ExprShape::Atom(TokenView::StrLit(s)) => ValueShape::Str(s),
        ExprShape::Atom(TokenView::IntLit(s, r)) => ValueShape::Int(s, r),
        ExprShape::Atom(TokenView::FloatLit(s)) => ValueShape::Float(s),
        ExprShape::Atom(TokenView::Variable(s)) => ValueShape::Var(s),
        ExprShape::Atom(TokenView::Bareword(s)) => if names_type(s) {
            ValueShape::Ty(s)
        } else {
            ValueShape::Fun(s)
        },
        ExprShape::Atom(_) => ValueShape::Fun(Seq::empty()),
        ExprShape::Unary(op, x) => ValueShape::Unary(op, Box::new(lower_expr(*x))),
        ExprShape::Binary(l, op, r) => ValueShape::Binary(Box::new(lower_expr(*l)), op, Box::new(lower_expr(*r))),
        ExprShape::Call(f, args) => ValueShape::Call(Box::new(lower_expr(*f)), lower_exprs(args)),
        ExprShape::Index(a, i) => ValueShape::Index(Box::new(lower_expr(*a)), Box::new(lower_expr(*i))),
    }
}

/// The values of a list of expressions, in order.
pub open spec fn lower_exprs(es: Seq<ExprShape>) -> Seq<ValueShape>
    decreases es,
{
    if es.len() == 0 {
        Seq::empty()
    } else {
        lower_exprs(es.drop_last()).push(lower_expr(es.last()))
    }
}

/// The values of a list of expressions are those of its items, one by one.
pub proof fn lemma_lower_exprs_index(es: Seq<ExprShape>)
    ensures
        lower_exprs(es).len() == es.len(),
        forall|i: int| 0 <= i < es.len() ==> #[trigger] lower_exprs(es)[i] == lower_expr(es[i]),
    decreases es.len(),
{
    if es.len() > 0 {
        lemma_lower_exprs_index(es.drop_last());
    }
}

/// What each expression lowers to, read off the value itself: an operator keeps its operator
/// and its operands, each lowered, the left one first; a call keeps its callee and its
/// arguments, each lowered, in order; indexing keeps the array and the index; a literal
/// becomes the constant it spells, a variable the variable of that name, and a bareword a type
/// where it begins with an upper-case letter and a function otherwise.
pub proof fn lemma_expression_lowering(e: Expr, v: Value)
    requires
        value_shape(v) == lower_expr(expr_shape(e)),
    ensures
        match e {
            Expr::Binary(l, op, r) => v.1 matches ValueKind::BinaryExpr(a, o, b)
                && o@ == op@
                && value_shape(*a) == lower_expr(expr_shape(*l))
                && value_shape(*b) == lower_expr(expr_shape(*r)),
            Expr::Unary(op, x) => v.1 matches ValueKind::UnaryExpr(o, a)
                && o@ == op@
                && value_shape(*a) == lower_expr(expr_shape(*x)),
            Expr::FunCall { function, args, range: _ } => v.1 matches ValueKind::FunCall(f, vs)
                && value_shape(*f) == lower_expr(expr_shape(*function))
                && vs@.len() == args@.len()
                && forall|i: int| 0 <= i < args@.len() ==> value_shape(#[trigger] vs@[i]) == lower_expr(expr_shape(args@[i])),
            Expr::ArrayAccess { array, index, range: _ } => v.1 matches ValueKind::ArrayAccess(a, x)
                && value_shape(*a) == lower_expr(expr_shape(*array))
                && value_shape(*x) == lower_expr(expr_shape(*index)),
            Expr::Atom(t) => match t.1@ {
                TokenView::StrLit(s) => v.1 matches ValueKind::Const(Const::Str(c)) && c@ == s,
                TokenView::IntLit(s, r) => v.1 matches ValueKind::Const(Const::Int(c, q)) && c@ == s && q == r,
                TokenView::FloatLit(s) => v.1 matches ValueKind::Const(Const::Float(c)) && c@ == s,
                TokenView::Variable(s) => v.1 matches ValueKind::Symbol(Symbol::Variable(n)) && n@ == s,
                TokenView::Bareword(s) => if s.len() > 0 && 'A' <= s[0] <= 'Z' {
                    v.1 matches ValueKind::Symbol(Symbol::Ty(n)) && n@ == s
                } else {
                    v.1 matches ValueKind::Symbol(Symbol::Fun(n)) && n@ == s
                },
                _ => true,
            },
        },
{
    match e {
        Expr::FunCall { function, args, range: _ } => {
            lemma_expr_shapes_index(args@);
            lemma_lower_exprs_index(expr_shapes(args@));
            if let ValueKind::FunCall(f, vs) = v.1 {
                crate::compile::context::lemma_value_shapes_index(vs@);
                assert forall|i: int| 0 <= i < args@.len() implies value_shape(#[trigger] vs@[i]) == lower_expr(expr_shape(args@[i])) by {
                    assert(value_shapes(vs@)[i] == lower_exprs(expr_shapes(args@))[i]);
                }
            }
        },
        _ => {},
    }
}

/// The shapes of a list of expressions are those of its items, one by one.
pub proof fn lemma_expr_shapes_index(es: Seq<Expr>)
    ensures
        expr_shapes(es).len() == es.len(),
        forall|i: int| 0 <= i < es.len() ==> #[trigger] expr_shapes(es)[i] == expr_shape(es[i]),
    decreases es.len(),
{
    if es.len() > 0 {
        lemma_expr_shapes_index(es.drop_last());
    }
}

/// Makes the value that an expression stands for.
pub fn value_from_expr(e: Expr) -> (r: Value)
    ensures
        value_shape(r) == lower_expr(expr_shape(e)),
        r.0 == e.spec_range(),
    decreases e,
{
    let range = e.range();
    let kind = match e {
        Expr::Atom(RangeWrapper(_, tok)) => match tok {
            Token::StrLit(s) => ValueKind::Const(Const::Str(s)),
            Token::IntLit(s, radix) => ValueKind::Const(Const::Int(s, radix)),
            Token::FloatLit(s) => ValueKind::Const(Const::Float(s)),
            Token::Variable(_) | Token::Bareword(_) => ValueKind::Symbol(Symbol::from_token(&tok)),
            _ => ValueKind::Symbol(Symbol::Fun(String::new())),
        },
        Expr::Unary(op, x) => ValueKind::UnaryExpr(op, Box::new(value_from_expr(*x))),
        Expr::Binary(l, op, r) => {
            let lv = value_from_expr(*l);
            let rv = value_from_expr(*r);
            ValueKind::BinaryExpr(Box::new(lv), op, Box::new(rv))
        },
        Expr::ArrayAccess { array, index, range: _ } => {
            let av = value_from_expr(*array);
            let iv = value_from_expr(*index);
            ValueKind::ArrayAccess(Box::new(av), Box::new(iv))
        },
        Expr::FunCall { function, args, range: _ } => {
            let fv = value_from_expr(*function);
            let ghost all = args@;
            proof {
                lemma_expr_shapes_index(all);
                assert forall|i: int| 0 <= i < all.len() implies decreases_to!(e => #[trigger] all[i]) by {
                    assert(decreases_to!(e => args));
                    assert(decreases_to!(args => args@));
                    assert(decreases_to!(args@ => args@[i]));
                }
            }
            let mut rest = args;
            let mut out: Vec<Value> = Vec::new();
            proof {
                assert(all.subrange(0, 0) =~= Seq::<Expr>::empty());
                assert(expr_shapes(all.subrange(0, 0)) =~= Seq::<ExprShape>::empty());
            }
            while rest.len() > 0
                invariant
                    all.len() == out@.len() + rest@.len(),
                    rest@ == all.subrange(out@.len() as int, all.len() as int),
                    value_shapes(out@) == lower_exprs(expr_shapes(all.subrange(0, out@.len() as int))),
                    forall|i: int| 0 <= i < all.len() ==> expr_shapes(all)[i] == expr_shape(#[trigger] all[i]),
                    forall|i: int| 0 <= i < all.len() ==> decreases_to!(e => #[trigger] all[i]),
                decreases rest.len(),
            {
                let k = out.len();
                let ghost before = out@;
                let a = rest.remove(0);
                assert(a == all[k as int]);
                let ghost sa = expr_shape(a);
                let av = value_from_expr(a);
                out.push(av);
                proof {
                    let pre = all.subrange(0, k as int);
                    let now = all.subrange(0, k + 1);
                    assert(now.drop_last() =~= pre);
                    assert(now.last() == all[k as int]);
                    assert(out@.drop_last() =~= before);
                    assert(value_shapes(out@) == value_shapes(before).push(lower_expr(sa)));
                    assert(expr_shapes(now) == expr_shapes(pre).push(sa));
                    let z = expr_shapes(now);
                    assert(z.drop_last() =~= expr_shapes(pre));
                    assert(z.last() == sa);
                    assert(lower_exprs(z) == lower_exprs(z.drop_last()).push(lower_expr(z.last())));
                    assert(rest@ =~= all.subrange(k + 1, all.len() as int));
                }
            }
            proof {
                assert(all.subrange(0, all.len() as int) =~= all);
            }
            ValueKind::FunCall(Box::new(fv), out)
        },
    };
    RangeWrapper(range, kind)
}

} // verus!
