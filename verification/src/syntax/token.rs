use vstd::prelude::*;
use crate::common::lang::{Op, OpView, op_text};
use crate::common::pos::RangeWrapper;
use crate::syntax::tree::Ast;
use crate::util::{owned, concat, string_debug, debug_text};
use vstd::std_specs::cmp::PartialEqSpecImpl;

verus! {

/// An assignment operator.
#[derive(Debug, Clone, Copy, PartialEq, Eq, Structural)]
pub enum AssignOp {
    Equals,
    PlusEquals,
    MinusEquals,
    SplatEquals,
    FSlashEquals,
    TildeEquals,
}

/// The assignment operator that the text `s` spells, if any.
pub open spec fn assign_op_from_text(s: Seq<char>) -> Option<AssignOp> {
    if s == "="@ {
        Some(AssignOp::Equals)
    } else if s == "+="@ {
        Some(AssignOp::PlusEquals)
    } else if s == "-="@ {
        Some(AssignOp::MinusEquals)
    } else if s == "*="@ {
        Some(AssignOp::SplatEquals)
    } else if s == "/="@ {
        Some(AssignOp::FSlashEquals)
    } else if s == "~="@ {
        Some(AssignOp::TildeEquals)
    } else {
        None
    }
}

/// The text by which an assignment operator is written.
pub open spec fn assign_op_text(a: AssignOp) -> Seq<char> {
    match a {
        AssignOp::Equals => "="@,
        AssignOp::PlusEquals => "+="@,
        AssignOp::MinusEquals => "-="@,
        AssignOp::SplatEquals => "*="@,
        AssignOp::FSlashEquals => "/="@,
        AssignOp::TildeEquals => "~="@,
    }
}

/// Every assignment operator reads back from its own text.
pub proof fn lemma_assign_op_text_round_trip(a: AssignOp)
    ensures
        assign_op_from_text(assign_op_text(a)) == Some(a),
{
    reveal_strlit("=");
    reveal_strlit("+=");
    reveal_strlit("-=");
    reveal_strlit("*=");
    reveal_strlit("/=");
    reveal_strlit("~=");
    let t = assign_op_text(a);
    assert(t.len() == 1 || t.len() == 2);
    let c0 = t[0];
    if t.len() == 2 {
        let c1 = t[1];
    }
}

impl AssignOp {
    /// The assignment operator that the text spells, if any.
    pub fn from_str(other: &str) -> (r: Option<Self>)
        ensures
            r == assign_op_from_text(other@),
    {
        let v = crate::util::chars_of(other);
        proof {
            reveal_strlit("=");
            reveal_strlit("+=");
            reveal_strlit("-=");
            reveal_strlit("*=");
            reveal_strlit("/=");
            reveal_strlit("~=");
        }
        if v.len() == 1 {
            assert(other@ =~= seq![v@[0]]);
            if v[0] == '=' {
                assert(other@ =~= "="@);
                    return Some(AssignOp::Equals);
            }
        } else if v.len() == 2 {
            assert(other@ =~= seq![v@[0], v@[1]]);
            if v[1] == '=' {
                let c = v[0];
                if c == '+' {
                    assert(other@ =~= "+="@);
                    return Some(AssignOp::PlusEquals);
                } else if c == '-' {
                    assert(other@ =~= "-="@);
                    return Some(AssignOp::MinusEquals);
                } else if c == '*' {
                    assert(other@ =~= "*="@);
                    return Some(AssignOp::SplatEquals);
                } else if c == '/' {
                    assert(other@ =~= "/="@);
                    return Some(AssignOp::FSlashEquals);
                } else if c == '~' {
                    assert(other@ =~= "~="@);
                    return Some(AssignOp::TildeEquals);
                }
            }
        }
        None
    }

    /// The text by which this operator is written.
    pub fn to_string(&self) -> (r: String)
        ensures
            r@ == assign_op_text(*self),
    {
        match self {
            AssignOp::Equals => owned("="),
            AssignOp::PlusEquals => owned("+="),
            AssignOp::MinusEquals => owned("-="),
            AssignOp::SplatEquals => owned("*="),
            AssignOp::FSlashEquals => owned("/="),
            AssignOp::TildeEquals => owned("~="),
        }
    }
}

/// A token of the language.
#[derive(Debug, Clone, Eq)]
pub enum Token {
    StrLit(String),
    IntLit(String, usize),
    FloatLit(String),
    Comment,
    Variable(String),
    Bareword(String),
    IfKw,
    ElseKw,
    WhileKw,
    LoopKw,
    ContinueKw,
    BreakKw,
    ReturnKw,
    TrueKw,
    FalseKw,
    FunKw,
    TypeKw,
    SelfKw,
    AssignOp(AssignOp),
    Op(Op),
    Comma,
    Colon,
    LParen,
    RParen,
    LBrace,
    RBrace,
    LBracket,
    RBracket,
    LineEnd,
    NewLine,
}

/// The mathematical value of a `Token`: the same variants, with texts in place of strings.
pub enum TokenView {
    StrLit(Seq<char>),
    IntLit(Seq<char>, usize),
    FloatLit(Seq<char>),
    Comment,
    Variable(Seq<char>),
    Bareword(Seq<char>),
    IfKw,
    ElseKw,
    WhileKw,
    LoopKw,
    ContinueKw,
    BreakKw,
    ReturnKw,
    TrueKw,
    FalseKw,
    FunKw,
    TypeKw,
    SelfKw,
    AssignOp(AssignOp),
    Op(OpView),
    Comma,
    Colon,
    LParen,
    RParen,
    LBrace,
    RBrace,
    LBracket,
    RBracket,
    LineEnd,
    NewLine,
}

impl View for Token {
    type V = TokenView;

    open spec fn view(&self) -> TokenView {
        match self {
            Token::StrLit(s) => TokenView::StrLit(s@),
            Token::IntLit(s, r) => TokenView::IntLit(s@, *r),
            Token::FloatLit(s) => TokenView::FloatLit(s@),
            Token::Comment => TokenView::Comment,
            Token::Variable(s) => TokenView::Variable(s@),
            Token::Bareword(s) => TokenView::Bareword(s@),
            Token::IfKw => TokenView::IfKw,
            Token::ElseKw => TokenView::ElseKw,
            Token::WhileKw => TokenView::WhileKw,
            Token::LoopKw => TokenView::LoopKw,
            Token::ContinueKw => TokenView::ContinueKw,
            Token::BreakKw => TokenView::BreakKw,
            Token::ReturnKw => TokenView::ReturnKw,
            Token::TrueKw => TokenView::TrueKw,
            Token::FalseKw => TokenView::FalseKw,
            Token::FunKw => TokenView::FunKw,
            Token::TypeKw => TokenView::TypeKw,
            Token::SelfKw => TokenView::SelfKw,
            Token::AssignOp(a) => TokenView::AssignOp(*a),
            Token::Op(o) => TokenView::Op(o@),
            Token::Comma => TokenView::Comma,
            Token::Colon => TokenView::Colon,
            Token::LParen => TokenView::LParen,
            Token::RParen => TokenView::RParen,
            Token::LBrace => TokenView::LBrace,
            Token::RBrace => TokenView::RBrace,
            Token::LBracket => TokenView::LBracket,
            Token::RBracket => TokenView::RBracket,
            Token::LineEnd => TokenView::LineEnd,
            Token::NewLine => TokenView::NewLine,
        }
    }
}

/// The radixes in which integer literals are written.
pub open spec fn valid_radix(r: usize) -> bool {
    r == 2 || r == 8 || r == 10 || r == 16
}

/// The canonical source text of a token.
pub open spec fn canonical_text(t: TokenView) -> Seq<char> {
    match t {
        TokenView::StrLit(s) => debug_text(s),
        TokenView::IntLit(i, r) => if r == 2 {
            "0b"@ + i
        } else if r == 8 {
            "0o"@ + i
        } else if r == 16 {
            "0x"@ + i
        } else {
            i
        },
        TokenView::FloatLit(f) => f,
        TokenView::Comment => "#"@,
        TokenView::Variable(s) => s,
        TokenView::Bareword(s) => s,
        TokenView::IfKw => "if"@,
        TokenView::ElseKw => "else"@,
        TokenView::WhileKw => "while"@,
        TokenView::LoopKw => "loop"@,
        TokenView::ContinueKw => "continue"@,
        TokenView::BreakKw => "break"@,
        TokenView::ReturnKw => "return"@,
        TokenView::TrueKw => "true"@,
        TokenView::FalseKw => "false"@,
        TokenView::FunKw => "fun"@,
        TokenView::TypeKw => "type"@,
        TokenView::SelfKw => "self"@,
        TokenView::Op(o) => op_text(o),
        TokenView::AssignOp(a) => assign_op_text(a),
        TokenView::Comma => ","@,
        TokenView::Colon => ":"@,
        TokenView::LParen => "("@,
        TokenView::RParen => ")"@,
        TokenView::LBrace => "{"@,
        TokenView::RBrace => "}"@,
        TokenView::LBracket => "["@,
        TokenView::RBracket => "]"@,
        TokenView::LineEnd => ";"@,
        TokenView::NewLine => "\n"@,
    }
}

/// How a token is named to a reader, as in error messages.
pub open spec fn display_text(t: TokenView) -> Seq<char> {
    match t {
        TokenView::StrLit(_) => "string literal"@,
        TokenView::IntLit(_, _) => "int literal"@,
        TokenView::FloatLit(_) => "float literal"@,
        TokenView::Comment => "comment"@,
        TokenView::Variable(s) => "variable $"@ + s,
        TokenView::Bareword(s) => "bareword "@ + s,
        TokenView::IfKw => "if keyword"@,
        TokenView::ElseKw => "else keyword"@,
        TokenView::WhileKw => "while keyword"@,
        TokenView::LoopKw => "loop keyword"@,
        TokenView::ContinueKw => "continue keyword"@,
        TokenView::BreakKw => "break keyword"@,
        TokenView::ReturnKw => "return keyword"@,
        TokenView::TrueKw => "true keyword"@,
        TokenView::FalseKw => "false keyword"@,
        TokenView::FunKw => "fun keyword"@,
        TokenView::TypeKw => "type keyword"@,
        TokenView::SelfKw => "self keyword"@,
        TokenView::Op(o) => "operator "@ + op_text(o),
        TokenView::AssignOp(a) => "assignment operator "@ + assign_op_text(a),
        TokenView::Comma => "comma"@,
        TokenView::Colon => "colon"@,
        TokenView::LParen => "left paren"@,
        TokenView::RParen => "right paren"@,
        TokenView::LBrace => "left brace"@,
        TokenView::RBrace => "right brace"@,
        TokenView::LBracket => "left bracket"@,
        TokenView::RBracket => "right bracket"@,
        TokenView::LineEnd => "end-of-line"@,
        TokenView::NewLine => "end-of-line"@,
    }
}

impl Token {
    /// Whether this token can begin the AST item `A`.
    pub fn is_lookahead<A: Ast>(&self) -> (r: bool)
        ensures
            r == A::spec_lookahead(self@),
    {
        A::token_is_lookahead(self)
    }

    /// The operator this token holds.
    pub fn into_op(self) -> (r: Op)
        requires
            self is Op,
        ensures
            self == Token::Op(r),
    {
        match self {
            Token::Op(op) => op,
            _ => { proof { assert(false); } unreached() },
        }
    }

    pub fn is_op(&self) -> (r: bool)
        ensures
            r == (self is Op),
    {
        match self {
            Token::Op(_) => true,
            _ => false,
        }
    }

    /// The assignment operator this token holds.
    pub fn into_assign_op(self) -> (r: AssignOp)
        requires
            self is AssignOp,
        ensures
            self == Token::AssignOp(r),
    {
        match self {
            Token::AssignOp(op) => op,
            _ => { proof { assert(false); } unreached() },
        }
    }

    pub fn is_assign_op(&self) -> (r: bool)
        ensures
            r == (self is AssignOp),
    {
        match self {
            Token::AssignOp(_) => true,
            _ => false,
        }
    }

    /// The canonical source text of this token.
    pub fn canonicalize(&self) -> (r: String)
        requires
            self matches Token::IntLit(_, radix) ==> valid_radix(*radix),
        ensures
            r@ == canonical_text(self@),
    {
        match self {
            Token::StrLit(s) => string_debug(s.as_str()),
            Token::IntLit(i, r) => {
                if *r == 2 {
                    concat("0b", i.as_str())
                } else if *r == 8 {
                    concat("0o", i.as_str())
                } else if *r == 16 {
                    concat("0x", i.as_str())
                } else {
                    i.clone()
                }
            },
            Token::FloatLit(f) => f.clone(),
            Token::Comment => owned("#"),
            Token::Variable(s) => s.clone(),
            Token::Bareword(s) => s.clone(),
            Token::IfKw => owned("if"),
            Token::ElseKw => owned("else"),
            Token::WhileKw => owned("while"),
            Token::LoopKw => owned("loop"),
            Token::ContinueKw => owned("continue"),
            Token::BreakKw => owned("break"),
            Token::ReturnKw => owned("return"),
            Token::TrueKw => owned("true"),
            Token::FalseKw => owned("false"),
            Token::FunKw => owned("fun"),
            Token::TypeKw => owned("type"),
            Token::SelfKw => owned("self"),
            Token::Op(o) => o.to_string(),
            Token::AssignOp(a) => a.to_string(),
            Token::Comma => owned(","),
            Token::Colon => owned(":"),
            Token::LParen => owned("("),
            Token::RParen => owned(")"),
            Token::LBrace => owned("{"),
            Token::RBrace => owned("}"),
            Token::LBracket => owned("["),
            Token::RBracket => owned("]"),
            Token::LineEnd => owned(";"),
            Token::NewLine => owned("\n"),
        }
    }

    /// How this token is named to a reader, as in error messages.
    pub fn to_string(&self) -> (r: String)
        ensures
            r@ == display_text(self@),
    {
        match self {
            Token::StrLit(_) => owned("string literal"),
            Token::IntLit(_, _) => owned("int literal"),
            Token::FloatLit(_) => owned("float literal"),
            Token::Comment => owned("comment"),
            Token::Variable(s) => concat("variable $", s.as_str()),
            Token::Bareword(s) => concat("bareword ", s.as_str()),
            Token::IfKw => owned("if keyword"),
            Token::ElseKw => owned("else keyword"),
            Token::WhileKw => owned("while keyword"),
            Token::LoopKw => owned("loop keyword"),
            Token::ContinueKw => owned("continue keyword"),
            Token::BreakKw => owned("break keyword"),
            Token::ReturnKw => owned("return keyword"),
            Token::TrueKw => owned("true keyword"),
            Token::FalseKw => owned("false keyword"),
            Token::FunKw => owned("fun keyword"),
            Token::TypeKw => owned("type keyword"),
            Token::SelfKw => owned("self keyword"),
            Token::Op(o) => {
                let t = o.to_string();
                concat("operator ", t.as_str())
            },
            Token::AssignOp(a) => {
                let t = a.to_string();
                concat("assignment operator ", t.as_str())
            },
            Token::Comma => owned("comma"),
            Token::Colon => owned("colon"),
            Token::LParen => owned("left paren"),
            Token::RParen => owned("right paren"),
            Token::LBrace => owned("left brace"),
            Token::RBrace => owned("right brace"),
            Token::LBracket => owned("left bracket"),
            Token::RBracket => owned("right bracket"),
            Token::LineEnd => owned("end-of-line"),
            Token::NewLine => owned("end-of-line"),
        }
    }
}

impl PartialEq for Token {
    fn eq(&self, other: &Self) -> (r: bool) {
        match self {
            Token::StrLit(a) => match other {
                Token::StrLit(b) => *a == *b,
                _ => false,
            },
            Token::FloatLit(a) => match other {
                Token::FloatLit(b) => *a == *b,
                _ => false,
            },
            Token::Variable(a) => match other {
                Token::Variable(b) => *a == *b,
                _ => false,
            },
            Token::Bareword(a) => match other {
                Token::Bareword(b) => *a == *b,
                _ => false,
            },
            Token::IntLit(a, ra) => match other {
                Token::IntLit(b, rb) => *ra == *rb && *a == *b,
                _ => false,
            },
            Token::AssignOp(a) => match other {
                Token::AssignOp(b) => *a == *b,
                _ => false,
            },
            Token::Op(a) => match other {
                Token::Op(b) => *a == *b,
                _ => false,
            },
            Token::IfKw => match other {
                Token::IfKw => true,
                _ => false,
            },
            Token::ElseKw => match other {
                Token::ElseKw => true,
                _ => false,
            },
            Token::WhileKw => match other {
                Token::WhileKw => true,
                _ => false,
            },
            Token::LoopKw => match other {
                Token::LoopKw => true,
                _ => false,
            },
            Token::ContinueKw => match other {
                Token::ContinueKw => true,
                _ => false,
            },
            Token::BreakKw => match other {
                Token::BreakKw => true,
                _ => false,
            },
            Token::ReturnKw => match other {
                Token::ReturnKw => true,
                _ => false,
            },
            Token::TrueKw => match other {
                Token::TrueKw => true,
                _ => false,
            },
            Token::FalseKw => match other {
                Token::FalseKw => true,
                _ => false,
            },
            Token::FunKw => match other {
                Token::FunKw => true,
                _ => false,
            },
            Token::TypeKw => match other {
                Token::TypeKw => true,
                _ => false,
            },
            Token::SelfKw => match other {
                Token::SelfKw => true,
                _ => false,
            },
            Token::Comma => match other {
                Token::Comma => true,
                _ => false,
            },
            Token::Colon => match other {
                Token::Colon => true,
                _ => false,
            },
            Token::LParen => match other {
                Token::LParen => true,
                _ => false,
            },
            Token::RParen => match other {
                Token::RParen => true,
                _ => false,
            },
            Token::LBrace => match other {
                Token::LBrace => true,
                _ => false,
            },
            Token::RBrace => match other {
                Token::RBrace => true,
                _ => false,
            },
            Token::LBracket => match other {
                Token::LBracket => true,
                _ => false,
            },
            Token::RBracket => match other {
                Token::RBracket => true,
                _ => false,
            },
            Token::LineEnd => match other {
                Token::LineEnd => true,
                _ => false,
            },
            Token::NewLine => match other {
                Token::NewLine => true,
                _ => false,
            },
            Token::Comment => match other {
                Token::Comment => true,
                _ => false,
            },
        }
    }
}

impl PartialEqSpecImpl for Token {
    open spec fn obeys_eq_spec() -> bool {
        true
    }

    open spec fn eq_spec(&self, other: &Self) -> bool {
        self@ == other@
    }
}

/// A token with the range of source it was read from.
pub type RangedToken = RangeWrapper<Token>;

impl RangeWrapper<Token> {
    pub fn token(&self) -> (r: &Token)
        ensures
            *r == self.1,
    {
        &self.1
    }
}

} // verus!
