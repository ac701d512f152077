use vstd::prelude::*;
use crate::common::lang::{Op, OpView, op_text};
use crate::common::pos::{Range, RangeWrapper, Ranged, range_union};
use crate::syntax::token::{AssignOp, Token, TokenView, RangedToken, display_text};
use crate::util::concat;

verus! {

/// An item of the syntax tree.
pub trait Ast: Ranged {
    /// Whether a token can begin this item.
    spec fn spec_lookahead(token: TokenView) -> bool;

    /// Whether a token can begin this item.
    fn token_is_lookahead(token: &Token) -> (r: bool)
        ensures
            r == Self::spec_lookahead(token@);

    /// The name of this kind of item, as used in error messages.
    spec fn item_name() -> Seq<char>;

    /// The name of this kind of item, as used in error messages.
    fn name() -> (r: &'static str)
        ensures
            r@ == Self::item_name();
}

impl<T: Ast> Ast for RangeWrapper<T> {
    open spec fn spec_lookahead(token: TokenView) -> bool {
        T::spec_lookahead(token)
    }

    fn token_is_lookahead(token: &Token) -> (r: bool) {
        T::token_is_lookahead(token)
    }

    open spec fn item_name() -> Seq<char> {
        T::item_name()
    }

    fn name() -> (r: &'static str) {
        T::name()
    }
}

/// A whole parsed source.
#[derive(Debug)]
pub struct SyntaxTree {
    pub stmts: Vec<Stmt>,
    pub range: Range,
}

impl SyntaxTree {
    pub fn new(stmts: Vec<Stmt>, range: Range) -> (r: Self)
        ensures
            r == (SyntaxTree { stmts, range }),
    {
        SyntaxTree { stmts, range }
    }
}

impl Ranged for SyntaxTree {
    open spec fn spec_range(&self) -> Range {
        self.range
    }

    fn range(&self) -> (r: Range) {
        self.range.clone()
    }
}

impl Ast for SyntaxTree {
    open spec fn spec_lookahead(token: TokenView) -> bool {
        stmt_lookahead(token)
    }

    fn token_is_lookahead(token: &Token) -> (r: bool) {
        Stmt::token_is_lookahead(token)
    }

    open spec fn item_name() -> Seq<char> {
        "syntax tree"@
    }

    fn name() -> (r: &'static str) {
        "syntax tree"
    }
}

/// A statement.
#[derive(Debug, PartialEq)]
pub enum Stmt {
    Fun(Fun),
    UserTy(UserTy),
    Expr(Expr),
    Assign(Expr, AssignOp, Expr),
    While(ConditionBlock),
    Loop(Block),
    If { if_block: ConditionBlock, elseif_blocks: Vec<ConditionBlock>, else_block: Option<Block> },
    Continue(Range),
    Break(Range),
    Return(Option<Expr>, Range),
}

/// The tokens that can begin an expression.
pub open spec fn expr_lookahead(t: TokenView) -> bool {
    match t {
        TokenView::StrLit(_) | TokenView::IntLit(_, _) | TokenView::FloatLit(_) | TokenView::TrueKw
        | TokenView::FalseKw | TokenView::Variable(_) | TokenView::Bareword(_) | TokenView::LParen => true,
        TokenView::Op(o) => o == OpView::Plus || o == OpView::Minus || o == OpView::Bang,
        _ => false,
    }
}

/// The tokens that can begin a statement.
pub open spec fn stmt_lookahead(t: TokenView) -> bool {
    expr_lookahead(t) || t == TokenView::FunKw || t == TokenView::ReturnKw || t == TokenView::IfKw
}

impl Ast for Stmt {
    open spec fn spec_lookahead(token: TokenView) -> bool {
        stmt_lookahead(token)
    }

    fn token_is_lookahead(token: &Token) -> (r: bool) {
        Expr::token_is_lookahead(token) || match token {
            Token::FunKw | Token::ReturnKw | Token::IfKw => true,
            _ => false,
        }
    }

    open spec fn item_name() -> Seq<char> {
        "statement"@
    }

    fn name() -> (r: &'static str) {
        "statement"
    }
}

/// The range a statement occupies.
pub open spec fn stmt_range(s: Stmt) -> Range {
    match s {
        Stmt::Fun(f) => f.range,
        Stmt::UserTy(u) => u.range,
        Stmt::Expr(e) => expr_range(e),
        Stmt::Assign(lhs, _, rhs) => range_union(expr_range(lhs), expr_range(rhs)),
        Stmt::While(c) => c.spec_range(),
        Stmt::Loop(b) => b.0,
        Stmt::If { if_block, elseif_blocks, else_block } => match else_block {
            Some(else_block) => range_union(if_block.spec_range(), else_block.0),
            None => if elseif_blocks@.len() > 0 {
                range_union(if_block.spec_range(), elseif_blocks@.last().spec_range())
            } else {
                if_block.spec_range()
            },
        },
        Stmt::Continue(r) => r,
        Stmt::Break(r) => r,
        Stmt::Return(_, r) => r,
    }
}

impl Ranged for Stmt {
    open spec fn spec_range(&self) -> Range {
        stmt_range(*self)
    }

    fn range(&self) -> (r: Range) {
        match self {
            Stmt::Fun(f) => f.range.clone(),
            Stmt::UserTy(u) => u.range.clone(),
            Stmt::Expr(e) => e.range(),
            Stmt::Assign(lhs, _, rhs) => lhs.range().union(&rhs.range()),
            Stmt::While(c) => c.range(),
            Stmt::Loop(b) => b.0.clone(),
            Stmt::If { if_block, elseif_blocks, else_block } => {
                match else_block {
                    Some(else_block) => if_block.range().union(&else_block.0),
                    None => {
                        if elseif_blocks.len() > 0 {
                            let last = &elseif_blocks[elseif_blocks.len() - 1];
                            if_block.range().union(&last.range())
                        } else {
                            if_block.range()
                        }
                    },
                }
            },
            Stmt::Continue(r) => r.clone(),
            Stmt::Break(r) => r.clone(),
            Stmt::Return(_, r) => r.clone(),
        }
    }
}

/// A block of statements.
pub type Block = RangeWrapper<Vec<Stmt>>;

/// A user-defined type.
#[derive(Debug, PartialEq)]
pub struct UserTy {
    pub name: String,
    pub parents: Vec<String>,
    pub functions: Vec<Fun>,
    pub range: Range,
}

impl Ranged for UserTy {
    open spec fn spec_range(&self) -> Range {
        self.range
    }

    fn range(&self) -> (r: Range) {
        self.range.clone()
    }
}

impl Ast for UserTy {
    open spec fn spec_lookahead(token: TokenView) -> bool {
        token == TokenView::TypeKw
    }

    fn token_is_lookahead(token: &Token) -> (r: bool) {
        match token {
            Token::TypeKw => true,
            _ => false,
        }
    }

    open spec fn item_name() -> Seq<char> {
        "type definition"@
    }

    fn name() -> (r: &'static str) {
        "type definition"
    }
}

/// A function definition.
#[derive(Debug, PartialEq)]
pub struct Fun {
    pub name: String,
    pub params: Vec<FunParam>,
    pub return_ty: Option<String>,
    pub body: Block,
    pub range: Range,
}

impl Ranged for Fun {
    open spec fn spec_range(&self) -> Range {
        self.range
    }

    fn range(&self) -> (r: Range) {
        self.range.clone()
    }
}

impl Ast for Fun {
    open spec fn spec_lookahead(token: TokenView) -> bool {
        token == TokenView::FunKw
    }

    fn token_is_lookahead(token: &Token) -> (r: bool) {
        match token {
            Token::FunKw => true,
            _ => false,
        }
    }

    open spec fn item_name() -> Seq<char> {
        "function definition"@
    }

    fn name() -> (r: &'static str) {
        "function definition"
    }
}

/// A parameter of a function definition.
#[derive(Debug, PartialEq)]
pub struct FunParam {
    pub name: String,
    pub ty: Option<String>,
    pub default: Option<Expr>,
    pub range: Range,
}

impl FunParam {
    pub fn new(name: String, ty: Option<String>, default: Option<Expr>, range: Range) -> (r: Self)
        ensures
            r == (FunParam { name, ty, default, range }),
    {
        FunParam { name, ty, default, range }
    }
}

impl Ranged for FunParam {
    open spec fn spec_range(&self) -> Range {
        self.range
    }

    fn range(&self) -> (r: Range) {
        self.range.clone()
    }
}

impl Ast for FunParam {
    open spec fn spec_lookahead(token: TokenView) -> bool {
        token is Variable
    }

    fn token_is_lookahead(token: &Token) -> (r: bool) {
        match token {
            Token::Variable(_) => true,
            _ => false,
        }
    }

    open spec fn item_name() -> Seq<char> {
        "function parameter"@
    }

    fn name() -> (r: &'static str) {
        "function parameter"
    }
}

/// A block that comes with a condition.
#[derive(Debug, PartialEq)]
pub struct ConditionBlock {
    pub condition: Expr,
    pub block: Block,
}

impl ConditionBlock {
    pub fn new(condition: Expr, block: Block) -> (r: Self)
        ensures
            r == (ConditionBlock { condition, block }),
    {
        ConditionBlock { condition, block }
    }
}

impl Ranged for ConditionBlock {
    open spec fn spec_range(&self) -> Range {
        range_union(expr_range(self.condition), self.block.0)
    }

    fn range(&self) -> (r: Range) {
        self.condition.range().union(&self.block.0)
    }
}

/// An expression.
#[derive(Debug, PartialEq)]
pub enum Expr {
    FunCall { function: Box<Expr>, args: Vec<Expr>, range: Range },
    ArrayAccess { array: Box<Expr>, index: Box<Expr>, range: Range },
    Atom(RangedToken),
    Unary(Op, Box<Expr>),
    Binary(Box<Expr>, Op, Box<Expr>),
}

/// The tokens that can stand as an atom.
pub open spec fn atom_lookahead(t: TokenView) -> bool {
    t is StrLit || t is IntLit || t is FloatLit || t is Variable || t is Bareword
}

/// An expression made only of atoms and binary operations.
pub open spec fn is_binary_tree(e: Expr) -> bool
    decreases e,
{
    match e {
        Expr::Atom(_) => true,
        Expr::Binary(l, _, r) => is_binary_tree(*l) && is_binary_tree(*r),
        _ => false,
    }
}

/// The fully parenthesised text of an expression of atoms and binary operations.
pub open spec fn canonical_expr_text(e: Expr) -> Seq<char>
    decreases e,
{
    match e {
        Expr::Binary(l, op, r) => "("@ + canonical_expr_text(*l) + " "@ + op_text(op@) + " "@
            + canonical_expr_text(*r) + ")"@,
        Expr::Atom(t) => display_text(t.1@),
        _ => Seq::empty(),
    }
}

impl Expr {
    /// The fully parenthesised text of this expression of atoms and binary operations.
    pub fn canonicalize(&self) -> (r: String)
        requires
            is_binary_tree(*self),
        ensures
            r@ == canonical_expr_text(*self),
        decreases self,
    {
        match self {
            Expr::Binary(lhs, op, rhs) => {
                let l = lhs.canonicalize();
                let o = op.to_string();
                let r = rhs.canonicalize();
                let a = concat("(", l.as_str());
                let b = concat(a.as_str(), " ");
                let c = concat(b.as_str(), o.as_str());
                let d = concat(c.as_str(), " ");
                let e = concat(d.as_str(), r.as_str());
                concat(e.as_str(), ")")
            },
            Expr::Atom(e) => e.token().to_string(),
            _ => {
                proof {
                    assert(false);
                }
                String::new()
            },
        }
    }

    /// Whether a token can stand as an atom.
    pub fn token_is_atom_lookahead(token: &Token) -> (r: bool)
        ensures
            r == atom_lookahead(token@),
    {
        match token {
            Token::StrLit(_) | Token::IntLit(_, _) | Token::FloatLit(_) | Token::Variable(_)
            | Token::Bareword(_) => true,
            _ => false,
        }
    }
}

impl Ast for Expr {
    open spec fn spec_lookahead(token: TokenView) -> bool {
        expr_lookahead(token)
    }

    fn token_is_lookahead(token: &Token) -> (r: bool) {
        match token {
            Token::StrLit(_) | Token::IntLit(_, _) | Token::FloatLit(_) | Token::TrueKw
            | Token::FalseKw | Token::Variable(_) | Token::Bareword(_) | Token::LParen => true,
            Token::Op(o) => match o {
                Op::Plus | Op::Minus | Op::Bang => true,
                _ => false,
            },
            _ => false,
        }
    }

    open spec fn item_name() -> Seq<char> {
        "expression"@
    }

    fn name() -> (r: &'static str) {
        "expression"
    }
}

/// The range an expression occupies: its own where it records one, else that of its parts.
pub open spec fn expr_range(e: Expr) -> Range
    decreases e,
{
    match e {
        Expr::FunCall { function: _, args: _, range } => range,
        Expr::ArrayAccess { array: _, index: _, range } => range,
        Expr::Atom(t) => t.0,
        Expr::Unary(_, e) => expr_range(*e),
        Expr::Binary(l, _, r) => range_union(expr_range(*l), expr_range(*r)),
    }
}

impl Ranged for Expr {
    open spec fn spec_range(&self) -> Range {
        expr_range(*self)
    }

    fn range(&self) -> (r: Range) {
        let r = range_of(self);
        assert(r == expr_range(*self));
        assert(self.spec_range() == expr_range(*self));
        r
    }
}

/// The range an expression occupies.
fn range_of(e: &Expr) -> (r: Range)
    ensures
        r == expr_range(*e),
    decreases e,
{
    match e {
        Expr::FunCall { function: _, args: _, range } => range.clone(),
        Expr::ArrayAccess { array: _, index: _, range } => range.clone(),
        Expr::Atom(t) => t.0.clone(),
        Expr::Unary(_, inner) => range_of(inner),
        Expr::Binary(lhs, _, rhs) => range_of(lhs).union(&range_of(rhs)),
    }
}

} // verus!
