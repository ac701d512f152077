use vstd::prelude::*;
use crate::common::pos::Pos;
use crate::util::{owned, concat};

verus! {

/// The kinds of syntax errors.
#[derive(Debug)]
pub enum ErrorKind {
    Unexpected(String),
    ExpectedGot(String, String),
    EarlyStringEnd(String),
    Message(String),
}

/// The mathematical value of an `ErrorKind`: the same variants, with texts in place of strings.
pub enum ErrorKindView {
    Unexpected(Seq<char>),
    ExpectedGot(Seq<char>, Seq<char>),
    EarlyStringEnd(Seq<char>),
    Message(Seq<char>),
}

impl View for ErrorKind {
    type V = ErrorKindView;

    open spec fn view(&self) -> ErrorKindView {
        match self {
            ErrorKind::Unexpected(s) => ErrorKindView::Unexpected(s@),
            ErrorKind::ExpectedGot(a, b) => ErrorKindView::ExpectedGot(a@, b@),
            ErrorKind::EarlyStringEnd(s) => ErrorKindView::EarlyStringEnd(s@),
            ErrorKind::Message(s) => ErrorKindView::Message(s@),
        }
    }
}

/// The message that an error of the given kind shows.
pub open spec fn error_kind_text(k: ErrorKindView) -> Seq<char> {
    match k {
        ErrorKindView::Unexpected(s) => "unexpected "@ + s,
        ErrorKindView::ExpectedGot(a, b) => "expected "@ + a + "; got "@ + b,
        ErrorKindView::EarlyStringEnd(s) => "reached "@ + s + " while insode of string literal"@,
        ErrorKindView::Message(s) => s,
    }
}

impl ErrorKind {
    /// The message that this error shows.
    pub fn to_string(&self) -> (r: String)
        ensures
            r@ == error_kind_text(self@),
    {
        match self {
            ErrorKind::Unexpected(s) => concat("unexpected ", s.as_str()),
            ErrorKind::ExpectedGot(a, b) => {
                let x = concat("expected ", a.as_str());
                let y = concat(x.as_str(), "; got ");
                concat(y.as_str(), b.as_str())
            },
            ErrorKind::EarlyStringEnd(s) => {
                let x = concat("reached ", s.as_str());
                concat(x.as_str(), " while insode of string literal")
            },
            ErrorKind::Message(s) => s.clone(),
        }
    }
}

/// A syntax error: what went wrong, and where.
#[derive(Debug)]
pub struct Error {
    pub pos: Pos,
    pub kind: ErrorKind,
}

impl Error {
    pub fn new(pos: Pos, kind: ErrorKind) -> (r: Self)
        ensures
            r == (Error { pos, kind }),
    {
        Error { pos, kind }
    }

    pub fn kind(&self) -> (r: &ErrorKind)
        ensures
            *r == self.kind,
    {
        &self.kind
    }

    pub fn pos(&self) -> (r: Pos)
        ensures
            r == self.pos,
    {
        self.pos.clone()
    }

    /// The message that this error shows.
    pub fn to_string(&self) -> (r: String)
        ensures
            r@ == error_kind_text(self.kind@),
    {
        self.kind.to_string()
    }
}

} // verus!
