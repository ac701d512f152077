use vstd::prelude::*;
use vstd::string::StrSliceExecFns;
use crate::syntax::token::{Token, TokenView};

verus! {

/// A symbol which is used to point to a value.
#[derive(Clone, Debug)]
pub enum Symbol {
    /// A function.
    Fun(String),
    /// A variable.
    Variable(String),
    /// A type.
    Ty(String),
}

/// Whether a bareword names a type: types begin with an upper-case letter.
pub open spec fn names_type(s: Seq<char>) -> bool {
    s.len() > 0 && 'A' <= s[0] <= 'Z'
}

impl Symbol {
    /// The symbol that a variable or a bareword token stands for: variables are variables,
    /// barewords that begin with an upper-case letter are types, and other barewords are
    /// functions.
    pub fn from_token(token: &Token) -> (r: Self)
        requires
            token@ is Variable || token@ is Bareword,
        ensures
            match token@ {
                TokenView::Variable(s) => r matches Symbol::Variable(n) && n@ == s,
                TokenView::Bareword(s) => if names_type(s) {
                    r matches Symbol::Ty(n) && n@ == s
                } else {
                    r matches Symbol::Fun(n) && n@ == s
                },
                _ => false,
            },
    {
        match token {
            Token::Variable(s) => Symbol::Variable(s.clone()),
            Token::Bareword(s) => {
                let text = s.as_str();
                let upper = if text.unicode_len() > 0 {
                    let c = text.get_char(0);
                    'A' <= c && c <= 'Z'
                } else {
                    false
                };
                if upper {
                    Symbol::Ty(s.clone())
                } else {
                    Symbol::Fun(s.clone())
                }
            },
            _ => {
                proof {
                    assert(false);
                }
                Symbol::Fun(String::new())
            },
        }
    }

    /// The name of the symbol.
    pub fn name(&self) -> (r: &str)
        ensures
            r@ == match self {
                Symbol::Fun(s) => s@,
                Symbol::Variable(s) => s@,
                Symbol::Ty(s) => s@,
            },
    {
        match self {
            Symbol::Fun(s) | Symbol::Variable(s) | Symbol::Ty(s) => s.as_str(),
        }
    }
}

} // verus!
