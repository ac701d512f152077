use vstd::prelude::*;
use crate::util::{chars_of, string_from_chars};
use vstd::std_specs::cmp::PartialEqSpecImpl;

verus! {

/// An operator of the language.
#[derive(Debug, Clone, Eq, Hash)]
pub enum Op {
    Bang,
    Plus,
    Minus,
    Splat,
    FSlash,
    Tilde,
    Or,
    And,
    DoublePercent,
    DoubleEquals,
    NotEquals,
    DoubleTilde,
    LessEquals,
    GreaterEquals,
    Less,
    Greater,
    Custom(String),
}

/// The mathematical value of an `Op`: the same variants, with the text of a custom operator.
pub enum OpView {
    Bang,
    Plus,
    Minus,
    Splat,
    FSlash,
    Tilde,
    Or,
    And,
    DoublePercent,
    DoubleEquals,
    NotEquals,
    DoubleTilde,
    LessEquals,
    GreaterEquals,
    Less,
    Greater,
    Custom(Seq<char>),
}

impl View for Op {
    type V = OpView;

    open spec fn view(&self) -> OpView {
        match self {
            Op::Bang => OpView::Bang,
            Op::Plus => OpView::Plus,
            Op::Minus => OpView::Minus,
            Op::Splat => OpView::Splat,
            Op::FSlash => OpView::FSlash,
            Op::Tilde => OpView::Tilde,
            Op::Or => OpView::Or,
            Op::And => OpView::And,
            Op::DoublePercent => OpView::DoublePercent,
            Op::DoubleEquals => OpView::DoubleEquals,
            Op::NotEquals => OpView::NotEquals,
            Op::DoubleTilde => OpView::DoubleTilde,
            Op::LessEquals => OpView::LessEquals,
            Op::GreaterEquals => OpView::GreaterEquals,
            Op::Less => OpView::Less,
            Op::Greater => OpView::Greater,
            Op::Custom(s) => OpView::Custom(s@),
        }
    }
}

/// The operator that the text `s` denotes: one of the built-in operators where `s` spells one,
/// and otherwise a custom operator with that text.
pub open spec fn op_from_text(s: Seq<char>) -> OpView {
    if s == seq!['!'] {
        OpView::Bang
    } else if s == seq!['+'] {
        OpView::Plus
    } else if s == seq!['-'] {
        OpView::Minus
    } else if s == seq!['*'] {
        OpView::Splat
    } else if s == seq!['/'] {
        OpView::FSlash
    } else if s == seq!['~'] {
        OpView::Tilde
    } else if s == seq!['|', '|'] {
        OpView::Or
    } else if s == seq!['&', '&'] {
        OpView::And
    } else if s == seq!['%', '%'] {
        OpView::DoublePercent
    } else if s == seq!['=', '='] {
        OpView::DoubleEquals
    } else if s == seq!['~', '~'] {
        OpView::DoubleTilde
    } else if s == seq!['!', '='] {
        OpView::NotEquals
    } else if s == seq!['<', '='] {
        OpView::LessEquals
    } else if s == seq!['>', '='] {
        OpView::GreaterEquals
    } else if s == seq!['<'] {
        OpView::Less
    } else if s == seq!['>'] {
        OpView::Greater
    } else {
        OpView::Custom(s)
    }
}

/// The text by which an operator is written.
pub open spec fn op_text(o: OpView) -> Seq<char> {
    match o {
        OpView::Bang => seq!['!'],
        OpView::Plus => seq!['+'],
        OpView::Minus => seq!['-'],
        OpView::Splat => seq!['*'],
        OpView::FSlash => seq!['/'],
        OpView::Tilde => seq!['~'],
        OpView::Or => seq!['|', '|'],
        OpView::And => seq!['&', '&'],
        OpView::DoublePercent => seq!['%', '%'],
        OpView::DoubleEquals => seq!['=', '='],
        OpView::NotEquals => seq!['!', '='],
        OpView::DoubleTilde => seq!['~', '~'],
        OpView::LessEquals => seq!['<', '='],
        OpView::GreaterEquals => seq!['>', '='],
        OpView::Less => seq!['<'],
        OpView::Greater => seq!['>'],
        OpView::Custom(s) => s,
    }
}

/// Writing an operator and reading the text back gives the same operator, except for a
/// custom operator whose text spells a built-in one.
pub proof fn lemma_op_text_round_trip(o: OpView)
    requires
        o matches OpView::Custom(s) ==> op_from_text(s) is Custom,
    ensures
        op_from_text(op_text(o)) == o,
{
    let t = op_text(o);
    if !(o is Custom) {
        assert(t.len() == 1 || t.len() == 2);
        let c0 = t[0];
        if t.len() == 2 {
            let c1 = t[1];
        }
    }
}

impl Op {
    /// The operator written by the given text.
    pub fn from(other: String) -> (r: Op)
        ensures
            r@ == op_from_text(other@),
    {
        let v = chars_of(other.as_str());
        let n = v.len();
        let ghost s = other@;
        if n == 1 {
            let c = v[0];
            proof {
                assert(s =~= seq![c]);
            }
            if c == '!' {
                return Op::Bang;
            } else if c == '+' {
                return Op::Plus;
            } else if c == '-' {
                return Op::Minus;
            } else if c == '*' {
                return Op::Splat;
            } else if c == '/' {
                return Op::FSlash;
            } else if c == '~' {
                return Op::Tilde;
            } else if c == '<' {
                return Op::Less;
            } else if c == '>' {
                return Op::Greater;
            }
        } else if n == 2 {
            let a = v[0];
            let b = v[1];
            proof {
                assert(s =~= seq![a, b]);
            }
            if a == '|' && b == '|' {
                return Op::Or;
            } else if a == '&' && b == '&' {
                return Op::And;
            } else if a == '%' && b == '%' {
                return Op::DoublePercent;
            } else if a == '=' && b == '=' {
                return Op::DoubleEquals;
            } else if a == '~' && b == '~' {
                return Op::DoubleTilde;
            } else if a == '!' && b == '=' {
                return Op::NotEquals;
            } else if a == '<' && b == '=' {
                return Op::LessEquals;
            } else if a == '>' && b == '=' {
                return Op::GreaterEquals;
            }
        }
        Op::Custom(other)
    }

    /// The text by which this operator is written.
    pub fn to_string(&self) -> (r: String)
        ensures
            r@ == op_text(self@),
    {
        match self {
            Op::Bang => string_from_chars(&vec!['!']),
            Op::Plus => string_from_chars(&vec!['+']),
            Op::Minus => string_from_chars(&vec!['-']),
            Op::Splat => string_from_chars(&vec!['*']),
            Op::FSlash => string_from_chars(&vec!['/']),
            Op::Tilde => string_from_chars(&vec!['~']),
            Op::Or => string_from_chars(&vec!['|', '|']),
            Op::And => string_from_chars(&vec!['&', '&']),
            Op::DoublePercent => string_from_chars(&vec!['%', '%']),
            Op::DoubleEquals => string_from_chars(&vec!['=', '=']),
            Op::NotEquals => string_from_chars(&vec!['!', '=']),
            Op::DoubleTilde => string_from_chars(&vec!['~', '~']),
            Op::LessEquals => string_from_chars(&vec!['<', '=']),
            Op::GreaterEquals => string_from_chars(&vec!['>', '=']),
            Op::Less => string_from_chars(&vec!['<']),
            Op::Greater => string_from_chars(&vec!['>']),
            Op::Custom(s) => s.clone(),
        }
    }
}

impl PartialEq for Op {
    fn eq(&self, other: &Self) -> (r: bool) {
        match self {
            Op::Bang => match other {
                Op::Bang => true,
                _ => false,
            },
            Op::Plus => match other {
                Op::Plus => true,
                _ => false,
            },
            Op::Minus => match other {
                Op::Minus => true,
                _ => false,
            },
            Op::Splat => match other {
                Op::Splat => true,
                _ => false,
            },
            Op::FSlash => match other {
                Op::FSlash => true,
                _ => false,
            },
            Op::Tilde => match other {
                Op::Tilde => true,
                _ => false,
            },
            Op::Or => match other {
                Op::Or => true,
                _ => false,
            },
            Op::And => match other {
                Op::And => true,
                _ => false,
            },
            Op::DoublePercent => match other {
                Op::DoublePercent => true,
                _ => false,
            },
            Op::DoubleEquals => match other {
                Op::DoubleEquals => true,
                _ => false,
            },
            Op::NotEquals => match other {
                Op::NotEquals => true,
                _ => false,
            },
            Op::DoubleTilde => match other {
                Op::DoubleTilde => true,
                _ => false,
            },
            Op::LessEquals => match other {
                Op::LessEquals => true,
                _ => false,
            },
            Op::GreaterEquals => match other {
                Op::GreaterEquals => true,
                _ => false,
            },
            Op::Less => match other {
                Op::Less => true,
                _ => false,
            },
            Op::Greater => match other {
                Op::Greater => true,
                _ => false,
            },
            Op::Custom(a) => match other {
                Op::Custom(b) => *a == *b,
                _ => false,
            },
        }
    }
}

impl PartialEqSpecImpl for Op {
    open spec fn obeys_eq_spec() -> bool {
        true
    }

    open spec fn eq_spec(&self, other: &Self) -> bool {
        self@ == other@
    }
}

} // verus!
