use vstd::prelude::*;
use std::sync::Arc;
use crate::common::lang::{Op, OpView, op_from_text, op_text, lemma_op_text_round_trip};
use crate::common::pos::{Pos, Range, RangeWrapper, SrcRange, src_range_new};
use crate::syntax::error::{Error, ErrorKind, ErrorKindView};
use crate::syntax::token::{
    AssignOp, Token, TokenView, RangedToken, assign_op_from_text, assign_op_text, canonical_text,
    lemma_assign_op_text_round_trip,
};
use crate::util::{
    chars_of, chars_eq_str, owned, concat, push_char, char_debug, char_debug_text, string_from_chars,
    is_alphabetic, is_alphanumeric, is_whitespace, is_digit, is_digit_in,
    char_is_whitespace, alphabetic, alphanumeric,
};

verus! {

/// A named class of characters.
#[derive(Debug, Clone, Copy, PartialEq, Eq, Structural)]
pub enum CharClassBase {
    /// Characters of a variable name.
    VariableName,
    /// Characters of an operator.
    Operator,
    /// Characters that can begin a bareword.
    BarewordStart,
    /// Characters of a bareword.
    Bareword,
    /// Characters that can follow a backslash in a string literal.
    StrLitEscape,
}

/// A named class of characters.
pub type CharClass = CharClassBase;

/// Whether a character may stand in a variable name or a bareword.
pub open spec fn is_name_char(c: char) -> bool {
    alphanumeric(c) || c == '_' || c == '-'
}

/// Whether a character may stand in an operator.
pub open spec fn is_op_char(c: char) -> bool {
    c == '|' || c == '&' || c == '=' || c == '+' || c == '-' || c == '*' || c == '/' || c == '~'
        || c == '!' || c == '@' || c == '%' || c == '^' || c == '?' || c == '<' || c == '>'
}

/// Whether a character may follow a backslash in a string literal.
pub open spec fn is_escape_char(c: char) -> bool {
    c == 't' || c == 'r' || c == 'n' || c == '"' || c == '\\'
}

/// The character that a backslash escape stands for.
pub open spec fn escaped_char(c: char) -> char {
    if c == 't' {
        '\t'
    } else if c == 'n' {
        '\n'
    } else if c == 'r' {
        '\r'
    } else {
        c
    }
}

/// Whether a character belongs to a class.
pub open spec fn class_matches(cls: CharClassBase, c: char) -> bool {
    match cls {
        CharClassBase::VariableName => is_name_char(c),
        CharClassBase::Operator => is_op_char(c),
        CharClassBase::BarewordStart => alphabetic(c),
        CharClassBase::Bareword => is_name_char(c),
        CharClassBase::StrLitEscape => is_escape_char(c),
    }
}

/// The name of a class, as error messages give it.
pub open spec fn class_name(cls: CharClassBase) -> Seq<char> {
    match cls {
        CharClassBase::VariableName => "variable name"@,
        CharClassBase::Operator => "operator"@,
        CharClassBase::BarewordStart => "bareword"@,
        CharClassBase::Bareword => "bareword"@,
        CharClassBase::StrLitEscape => "string escape"@,
    }
}

impl CharClassBase {
    /// Whether the character belongs to this class.
    pub fn is_match(&self, c: char) -> (r: bool)
        ensures
            r == class_matches(*self, c),
    {
        match self {
            CharClassBase::VariableName => is_alphanumeric(c) || c == '_' || c == '-',
            CharClassBase::Operator => c == '|' || c == '&' || c == '=' || c == '+' || c == '-'
                || c == '*' || c == '/' || c == '~' || c == '!' || c == '@' || c == '%' || c == '^'
                || c == '?' || c == '<' || c == '>',
            CharClassBase::BarewordStart => is_alphabetic(c),
            CharClassBase::Bareword => is_alphanumeric(c) || c == '_' || c == '-',
            CharClassBase::StrLitEscape => c == 't' || c == 'r' || c == 'n' || c == '"' || c == '\\',
        }
    }

    /// The human-readable name of this class.
    pub fn name(&self) -> (r: &'static str)
        ensures
            r@ == class_name(*self),
    {
        match self {
            CharClassBase::VariableName => "variable name",
            CharClassBase::Operator => "operator",
            CharClassBase::BarewordStart => "bareword",
            CharClassBase::Bareword => "bareword",
            CharClassBase::StrLitEscape => "string escape",
        }
    }
}

/// The character at index `i`, if there is one.
pub open spec fn char_at(t: Seq<char>, i: int) -> Option<char> {
    if 0 <= i < t.len() {
        Some(t[i])
    } else {
        None
    }
}

/// The number of characters that lie before the current character once `i` characters have
/// been read into the lexer's lookahead.
pub open spec fn src_at(i: int) -> int {
    if i <= 0 {
        0
    } else {
        i - 1
    }
}

/// The zero-based line and column of the character at index `k`.
pub open spec fn line_col(t: Seq<char>, k: nat) -> (nat, nat)
    decreases k,
{
    if k == 0 {
        (0, 0)
    } else {
        let lc = line_col(t, (k - 1) as nat);
        if t[k - 1] == '\n' {
            (lc.0 + 1, 0)
        } else {
            (lc.0, lc.1 + 1)
        }
    }
}

/// Lines and columns never exceed the character index.
pub proof fn lemma_line_col_bounds(t: Seq<char>, k: nat)
    ensures
        line_col(t, k).0 <= k,
        line_col(t, k).1 <= k,
    decreases k,
{
    if k > 0 {
        lemma_line_col_bounds(t, (k - 1) as nat);
    }
}

/// The index just past the run of characters of class `cls` that starts at `i`.
pub open spec fn run_end(t: Seq<char>, i: int, cls: CharClassBase) -> int
    decreases t.len() - i,
{
    if i < 0 || i >= t.len() {
        i
    } else if class_matches(cls, t[i]) {
        run_end(t, i + 1, cls)
    } else {
        i
    }
}

/// The index just past the run of white space that starts at `i`.
pub open spec fn whitespace_end(t: Seq<char>, i: int) -> int
    decreases t.len() - i,
{
    if i < 0 || i >= t.len() {
        i
    } else if char_is_whitespace(t[i]) {
        whitespace_end(t, i + 1)
    } else {
        i
    }
}

/// A run of white space ends at or after its start, within the text, and only at a
/// character that is not white space.
pub proof fn lemma_whitespace_end(t: Seq<char>, i: int)
    requires
        0 <= i <= t.len(),
    ensures
        i <= whitespace_end(t, i) <= t.len(),
        forall|k: int| i <= k < whitespace_end(t, i) ==> char_is_whitespace(#[trigger] t[k]),
        whitespace_end(t, i) < t.len() ==> !char_is_whitespace(t[whitespace_end(t, i)]),
    decreases t.len() - i,
{
    if i < t.len() && char_is_whitespace(t[i]) {
        lemma_whitespace_end(t, i + 1);
    }
}

/// A run of characters of a class ends at or after its start, within the text, and only at a
/// character outside the class.
pub proof fn lemma_run_end(t: Seq<char>, i: int, cls: CharClassBase)
    requires
        0 <= i <= t.len(),
    ensures
        i <= run_end(t, i, cls) <= t.len(),
        forall|k: int| i <= k < run_end(t, i, cls) ==> class_matches(cls, #[trigger] t[k]),
        run_end(t, i, cls) < t.len() ==> !class_matches(cls, t[run_end(t, i, cls)]),
    decreases t.len() - i,
{
    if i < t.len() && class_matches(cls, t[i]) {
        lemma_run_end(t, i + 1, cls);
    }
}

/// The outcome of reading one token: the token, or an error and the lexer index at which it is
/// reported.
pub type LexResult = Result<TokenView, (ErrorKindView, int)>;

/// The error for a character that is not of the expected class (`None`: the text ended).
pub open spec fn expect_error(cls: CharClassBase, got: Option<char>) -> ErrorKindView {
    ErrorKindView::Message(
        "expected "@ + class_name(cls) + " char, but got "@ + match got {
            Some(c) => char_debug_text(c),
            None => "EOF"@,
        } + " instead"@,
    )
}

/// Reading a comment from lexer index `i`: the index just past the end of the line.
pub open spec fn lex_comment(t: Seq<char>, i: int) -> int
    decreases t.len() + 1 - i,
{
    if i < 0 || i >= t.len() {
        t.len() + 1int
    } else if t[i] == '\n' {
        i + 1
    } else {
        lex_comment(t, i + 1)
    }
}

/// Reading a variable name after a `$`, from lexer index `i`.
pub open spec fn lex_variable(t: Seq<char>, i: int) -> (LexResult, int) {
    if i < 0 || i >= t.len() {
        (Err((expect_error(CharClassBase::VariableName, None), t.len() + 1int)), t.len() + 1int)
    } else if !is_name_char(t[i]) {
        (Err((expect_error(CharClassBase::VariableName, Some(t[i])), i + 1)), i + 1)
    } else {
        let j = run_end(t, i + 1, CharClassBase::VariableName);
        (Ok(TokenView::Variable(t.subrange(i, j))), j)
    }
}

/// The token an operator text stands for: an assignment operator where the text spells one.
pub open spec fn op_token(text: Seq<char>) -> TokenView {
    match assign_op_from_text(text) {
        Some(a) => TokenView::AssignOp(a),
        None => TokenView::Op(op_from_text(text)),
    }
}

/// Reading an operator whose first character is the one before lexer index `i`.
pub open spec fn lex_op(t: Seq<char>, i: int) -> (LexResult, int) {
    let j = run_end(t, i, CharClassBase::Operator);
    (Ok(op_token(t.subrange(i - 1, j))), j)
}

/// Reading the rest of a string literal from lexer index `i`, with `acc` read so far.
pub open spec fn lex_str(t: Seq<char>, i: int, acc: Seq<char>) -> (LexResult, int)
    decreases t.len() + 1 - i,
{
    if i < 0 || i >= t.len() {
        (Err((ErrorKindView::EarlyStringEnd("EOF"@), t.len() + 1int)), t.len() + 1int)
    } else {
        let c = t[i];
        if c == '\\' {
            if i + 1 >= t.len() {
                (Err((expect_error(CharClassBase::StrLitEscape, None), t.len() + 1int)), t.len() + 1int)
            } else if !is_escape_char(t[i + 1]) {
                (Err((expect_error(CharClassBase::StrLitEscape, Some(t[i + 1])), i + 2)), i + 2)
            } else {
                lex_str(t, i + 2, acc.push(escaped_char(t[i + 1])))
            }
        } else if c == '"' {
            (Ok(TokenView::StrLit(acc)), i + 1)
        } else if c == '\n' || c == '\r' {
            (Err((ErrorKindView::EarlyStringEnd("newline"@), i + 1)), i + 1)
        } else {
            lex_str(t, i + 1, acc.push(c))
        }
    }
}

/// The token a word stands for: a keyword, or a bareword.
pub open spec fn keyword_token(w: Seq<char>) -> TokenView {
    if w == "if"@ {
        TokenView::IfKw
    } else if w == "else"@ {
        TokenView::ElseKw
    } else if w == "while"@ {
        TokenView::WhileKw
    } else if w == "loop"@ {
        TokenView::LoopKw
    } else if w == "continue"@ {
        TokenView::ContinueKw
    } else if w == "break"@ {
        TokenView::BreakKw
    } else if w == "true"@ {
        TokenView::TrueKw
    } else if w == "false"@ {
        TokenView::FalseKw
    } else if w == "fun"@ {
        TokenView::FunKw
    } else if w == "return"@ {
        TokenView::ReturnKw
    } else if w == "type"@ {
        TokenView::TypeKw
    } else if w == "self"@ {
        TokenView::SelfKw
    } else {
        TokenView::Bareword(w)
    }
}

/// Where a word that begins just before lexer index `i` ends: after its run of name
/// characters, and after one `?` that follows them.
pub open spec fn bareword_end(t: Seq<char>, i: int) -> int {
    let j = run_end(t, i, CharClassBase::Bareword);
    if 0 <= j < t.len() && t[j] == '?' {
        j + 1
    } else {
        j
    }
}

/// Reading a word whose first character is the one before lexer index `i`.
pub open spec fn lex_bareword(t: Seq<char>, i: int) -> (LexResult, int) {
    let e = bareword_end(t, i);
    (Ok(keyword_token(t.subrange(i - 1, e))), e)
}

/// The integer or floating point literal with the given digits.
pub open spec fn number_token(acc: Seq<char>, radix: usize, is_float: bool) -> TokenView {
    if is_float {
        TokenView::FloatLit(acc)
    } else {
        TokenView::IntLit(acc, radix)
    }
}

/// Reading the digits of a number from lexer index `i`, with `acc` read so far.
pub open spec fn lex_digits(t: Seq<char>, i: int, radix: usize, acc: Seq<char>, is_float: bool) -> (
    LexResult,
    int,
)
    decreases t.len() - i,
{
    if i < 0 || i >= t.len() {
        (Ok(number_token(acc, radix, is_float)), i)
    } else {
        let c = t[i];
        if c == '.' {
            if radix != 10 {
                (
                    Err(
                        (
                            ErrorKindView::Message(
                                "non-base-ten floating point literals are not supported"@,
                            ),
                            i,
                        ),
                    ),
                    i,
                )
            } else if is_float {
                (
                    Err(
                        (
                            ErrorKindView::Message(
                                "second decimal encountered in floating point literal"@,
                            ),
                            i,
                        ),
                    ),
                    i,
                )
            } else {
                lex_digits(t, i + 1, radix, acc.push('.'), true)
            }
        } else if is_digit_in(c, radix as u32) {
            lex_digits(t, i + 1, radix, acc.push(c), is_float)
        } else if alphanumeric(c) {
            (Err((ErrorKindView::Message("unrecognized digit "@ + char_debug_text(c)), i)), i)
        } else {
            (Ok(number_token(acc, radix, is_float)), i)
        }
    }
}

/// The radix that a `0` followed by the given character announces.
pub open spec fn radix_marker(c: char) -> Option<usize> {
    if c == 'x' {
        Some(16)
    } else if c == 'o' {
        Some(8)
    } else if c == 'b' {
        Some(2)
    } else {
        None
    }
}

/// Reading a number whose first digit is the one before lexer index `i`: `0x`, `0o` and `0b`
/// announce radixes 16, 8 and 2; other numbers are decimal.
pub open spec fn lex_numeric(t: Seq<char>, i: int) -> (LexResult, int) {
    let d = t[i - 1];
    if d == '0' && 0 <= i < t.len() && radix_marker(t[i]) is Some {
        lex_digits(t, i + 1, radix_marker(t[i]).unwrap(), Seq::empty(), false)
    } else {
        lex_digits(t, i, 10, seq![d], false)
    }
}

/// Reading the next token from lexer index `p`: the outcome (`None` at the end of the text) and
/// the lexer index afterwards.
pub open spec fn lex_token(t: Seq<char>, p: int) -> (Option<LexResult>, int)
    decreases t.len() + 1 - p,
{
    if p < 0 || p >= t.len() {
        (None, t.len() + 1int)
    } else {
        let c = t[p];
        let i = p + 1;
        if c == '#' {
            (Some(Ok(TokenView::Comment)), lex_comment(t, i))
        } else if c == '$' {
            (Some(lex_variable(t, i).0), lex_variable(t, i).1)
        } else if c == '"' {
            (Some(lex_str(t, i, Seq::empty()).0), lex_str(t, i, Seq::empty()).1)
        } else if c == '(' {
            (Some(Ok(TokenView::LParen)), i)
        } else if c == ')' {
            (Some(Ok(TokenView::RParen)), i)
        } else if c == '{' {
            (Some(Ok(TokenView::LBrace)), i)
        } else if c == '}' {
            (Some(Ok(TokenView::RBrace)), i)
        } else if c == '[' {
            (Some(Ok(TokenView::LBracket)), i)
        } else if c == ']' {
            (Some(Ok(TokenView::RBracket)), i)
        } else if c == ';' {
            (Some(Ok(TokenView::LineEnd)), i)
        } else if c == '\n' {
            (Some(Ok(TokenView::NewLine)), i)
        } else if c == ',' {
            (Some(Ok(TokenView::Comma)), i)
        } else if c == ':' {
            (Some(Ok(TokenView::Colon)), i)
        } else if '0' <= c && c <= '9' {
            (Some(lex_numeric(t, i).0), lex_numeric(t, i).1)
        } else if is_op_char(c) {
            (Some(lex_op(t, i).0), lex_op(t, i).1)
        } else if alphabetic(c) {
            (Some(lex_bareword(t, i).0), lex_bareword(t, i).1)
        } else if char_is_whitespace(c) {
            proof {
                lemma_whitespace_end(t, i);
            }
            lex_token(t, whitespace_end(t, i))
        } else {
            (Some(Err((ErrorKindView::Unexpected("character: "@ + char_debug_text(c)), i))), i)
        }
    }
}

/// Reading a comment ends past its start and at most one past the end of the text.
pub proof fn lemma_lex_comment_bounds(t: Seq<char>, i: int)
    requires
        0 <= i <= t.len(),
    ensures
        i < lex_comment(t, i) <= t.len() + 1,
    decreases t.len() + 1 - i,
{
    if i < t.len() && t[i] != '\n' {
        lemma_lex_comment_bounds(t, i + 1);
    }
}

/// Reading a string literal ends past its start and at most one past the end of the text.
pub proof fn lemma_lex_str_bounds(t: Seq<char>, i: int, acc: Seq<char>)
    requires
        0 <= i <= t.len(),
    ensures
        i < lex_str(t, i, acc).1 <= t.len() + 1,
    decreases t.len() + 1 - i,
{
    if i < t.len() {
        let c = t[i];
        if c == '\\' {
            if i + 1 < t.len() && is_escape_char(t[i + 1]) {
                lemma_lex_str_bounds(t, i + 2, acc.push(escaped_char(t[i + 1])));
            }
        } else if c != '"' && c != '\n' && c != '\r' {
            lemma_lex_str_bounds(t, i + 1, acc.push(c));
        }
    }
}

/// Reading digits ends at or after its start, within the text.
pub proof fn lemma_lex_digits_bounds(t: Seq<char>, i: int, radix: usize, acc: Seq<char>, is_float: bool)
    requires
        0 <= i <= t.len(),
    ensures
        i <= lex_digits(t, i, radix, acc, is_float).1 <= t.len(),
    decreases t.len() - i,
{
    if i < t.len() {
        let c = t[i];
        if c == '.' {
            if radix == 10 && !is_float {
                lemma_lex_digits_bounds(t, i + 1, radix, acc.push('.'), true);
            }
        } else if is_digit_in(c, radix as u32) {
            lemma_lex_digits_bounds(t, i + 1, radix, acc.push(c), is_float);
        }
    }
}

/// Every read moves the lexer forward, by at most the rest of the text and one: reading
/// tokens one after another ends.
pub proof fn lemma_lex_token_progress(t: Seq<char>, p: int)
    requires
        0 <= p <= t.len(),
    ensures
        p < lex_token(t, p).1 <= t.len() + 1,
    decreases t.len() + 1 - p,
{
    if p < t.len() {
        let c = t[p];
        let i = p + 1;
        if c == '#' {
            lemma_lex_comment_bounds(t, i);
        } else if c == '$' {
            if i < t.len() && is_name_char(t[i]) {
                lemma_run_end(t, i + 1, CharClassBase::VariableName);
            }
        } else if c == '"' {
            lemma_lex_str_bounds(t, i, Seq::empty());
        } else if c == '(' || c == ')' || c == '{' || c == '}' || c == '[' || c == ']' || c == ';'
            || c == '\n' || c == ',' || c == ':' {
        } else if '0' <= c && c <= '9' {
            if c == '0' && i < t.len() && radix_marker(t[i]) is Some {
                lemma_lex_digits_bounds(t, i + 1, radix_marker(t[i]).unwrap(), Seq::empty(), false);
            } else {
                lemma_lex_digits_bounds(t, i, 10, seq![c], false);
            }
        } else if is_op_char(c) {
            lemma_run_end(t, i, CharClassBase::Operator);
        } else if alphabetic(c) {
            lemma_run_end(t, i, CharClassBase::Bareword);
        } else if char_is_whitespace(c) {
            lemma_whitespace_end(t, i);
            lemma_lex_token_progress(t, whitespace_end(t, i));
        }
    }
}

/// The tokens of the text from index `p` on, in order; `None` where reading them meets an
/// error.
pub open spec fn lex_from(t: Seq<char>, p: int) -> Option<Seq<TokenView>>
    decreases t.len() + 1 - p,
{
    if p < 0 || p > t.len() {
        Some(Seq::empty())
    } else {
        let (res, next) = lex_token(t, p);
        match res {
            None => Some(Seq::empty()),
            Some(Err(_)) => None,
            Some(Ok(tok)) => if p < next <= t.len() + 1 {
                match lex_from(t, next) {
                    Some(rest) => Some(seq![tok] + rest),
                    None => None,
                }
            } else {
                None
            },
        }
    }
}

/// The text yields no more tokens only where reading has run past its end.
pub proof fn lemma_lex_none_at_end(t: Seq<char>, p: int)
    requires
        0 <= p,
        lex_token(t, p).0 is None,
    ensures
        lex_token(t, p).1 == t.len() + 1,
    decreases t.len() + 1 - p,
{
    if p < t.len() {
        let c = t[p];
        let i = p + 1;
        if char_is_whitespace(c) && !(c == '#' || c == '$' || c == '"' || c == '(' || c == ')' || c == '{'
            || c == '}' || c == '[' || c == ']' || c == ';' || c == '\n' || c == ',' || c == ':'
            || ('0' <= c && c <= '9') || is_op_char(c) || alphabetic(c)) {
            lemma_whitespace_end(t, i);
            lemma_lex_none_at_end(t, whitespace_end(t, i));
        }
    }
}

/// One step of reading tokens from index `p`: the token read there comes first among the
/// tokens from `p` on, and the rest follow from where it ends.
pub proof fn lemma_lex_step(t: Seq<char>, p: int)
    requires
        0 <= p <= t.len() + 1,
    ensures
        match lex_token(t, p).0 {
            None => {
                &&& lex_token(t, p).1 == t.len() + 1
                &&& lex_from(t, p) == Some(Seq::<TokenView>::empty())
                &&& lex_from(t, lex_token(t, p).1) == Some(Seq::<TokenView>::empty())
            },
            Some(Ok(tv)) => {
                &&& p < lex_token(t, p).1 <= t.len() + 1
                &&& lex_from(t, p) == match lex_from(t, lex_token(t, p).1) {
                    Some(rest) => Some(seq![tv] + rest),
                    None => None,
                }
            },
            Some(Err(_)) => lex_from(t, p) is None,
        },
{
    if lex_token(t, p).0 is None {
        lemma_lex_none_at_end(t, p);
    }
    if p <= t.len() {
        lemma_lex_token_progress(t, p);
    }
}

/// A lexer, which converts a stream of characters into a stream of tokens.
pub struct Lexer {
    input: Vec<char>,
    idx: usize,
    curr: Option<char>,
    next: Option<char>,
    pos: Pos,
}

impl Lexer {
    /// The text being read.
    pub closed spec fn text(&self) -> Seq<char> {
        self.input@
    }

    /// How far the lexer has read: the index of its lookahead character.
    pub closed spec fn index(&self) -> int {
        self.idx as int
    }

    /// The name of the source, as positions carry it.
    pub closed spec fn source_name(&self) -> Arc<String> {
        self.pos.source_name
    }

    /// The text of the source, as positions carry it.
    pub closed spec fn source_text(&self) -> Arc<String> {
        self.pos.source_text
    }

    /// The position of the current character once the lexer has read up to index `i`.
    pub open spec fn pos_at(&self, i: int) -> Pos {
        let k = src_at(i);
        Pos {
            source: k as usize,
            line: line_col(self.text(), k as nat).0 as usize,
            col: line_col(self.text(), k as nat).1 as usize,
            source_name: self.source_name(),
            source_text: self.source_text(),
        }
    }

    /// The lexer's fields agree with its place in the text.
    pub closed spec fn wf(&self) -> bool {
        &&& self.input@.len() < usize::MAX
        &&& self.idx <= self.input@.len() + 1
        &&& self.curr == char_at(self.input@, self.idx - 1)
        &&& self.next == char_at(self.input@, self.idx as int)
        &&& self.pos == self.pos_at(self.idx as int)
    }

    /// Both lexers read the same source.
    pub open spec fn same_source(&self, other: &Lexer) -> bool {
        &&& self.text() == other.text()
        &&& self.source_name() == other.source_name()
        &&& self.source_text() == other.source_text()
    }

    /// Whether an executed outcome agrees with the specified one.
    pub open spec fn result_matches(&self, r: Result<Token, Error>, s: LexResult) -> bool {
        match (r, s) {
            (Ok(tok), Ok(tv)) => tok@ == tv,
            (Err(e), Err((k, i))) => e.kind@ == k && e.pos == self.pos_at(i),
            _ => false,
        }
    }

    /// A well-formed lexer's index lies within its text, or one past its end.
    pub proof fn lemma_wf_index(&self)
        requires
            self.wf(),
        ensures
            0 <= self.index() <= self.text().len() + 1,
            self.text().len() < usize::MAX,
    {
    }

    proof fn lemma_pos_fits(&self, i: int)
        requires
            self.wf(),
            0 <= i <= self.text().len() + 1,
        ensures
            src_at(i) <= self.text().len(),
            line_col(self.text(), src_at(i) as nat).0 <= src_at(i),
            line_col(self.text(), src_at(i) as nat).1 <= src_at(i),
    {
        lemma_line_col_bounds(self.text(), src_at(i) as nat);
    }

    /// Creates a new lexer with the specified input and source name.
    pub fn new(source_name: &str, source_text: &str) -> (r: Self)
        requires
            source_text@.len() < usize::MAX,
        ensures
            r.wf(),
            r.text() == source_text@,
            r.index() == 0,
            r.source_name()@ == source_name@,
            r.source_text()@ == source_text@,
    {
        let input = chars_of(source_text);
        let next = if input.len() > 0 {
            Some(input[0])
        } else {
            None
        };
        let pos = Pos::new(Arc::new(owned(source_name)), Arc::new(owned(source_text)));
        let r = Lexer { input, idx: 0, curr: None, next, pos };
        assert(line_col(r.input@, 0) == (0nat, 0nat));
        r
    }

    /// The position that the lexer is currently looking at.
    pub fn pos(&self) -> (r: Pos)
        requires
            self.wf(),
        ensures
            r == self.pos_at(self.index()),
    {
        self.pos.clone()
    }

    /// Moves to the next character, keeping the position in step.
    ///
    /// Returns the character that is now current.
    pub fn next_char(&mut self) -> (r: Option<char>)
        requires
            old(self).wf(),
        ensures
            final(self).wf(),
            final(self).same_source(old(self)),
            final(self).index() == if old(self).index() <= old(self).text().len() {
                old(self).index() + 1
            } else {
                old(self).index()
            },
            r == char_at(final(self).text(), final(self).index() - 1),
    {
        let ghost t = self.input@;
        let ghost k = src_at(self.idx as int);
        proof {
            self.lemma_pos_fits(self.idx as int);
        }
        let old = self.curr;
        self.curr = self.next;
        if self.idx <= self.input.len() {
            self.idx = self.idx + 1;
        }
        self.next = if self.idx < self.input.len() {
            Some(self.input[self.idx])
        } else {
            None
        };
        if let Some(c) = old {
            assert(t[k] == c);
            self.pos.adv();
            if c == '\n' {
                self.pos.line();
            }
            assert(line_col(t, (k + 1) as nat) == if t[k] == '\n' {
                (line_col(t, k as nat).0 + 1, 0nat)
            } else {
                (line_col(t, k as nat).0, line_col(t, k as nat).1 + 1)
            });
        }
        self.curr
    }

    /// Moves to the next character, which must belong to the class `char_class`.
    pub fn next_char_expect(&mut self, char_class: &CharClass) -> (r: Result<char, Error>)
        requires
            old(self).wf(),
        ensures
            final(self).wf(),
            final(self).same_source(old(self)),
            final(self).index() == if old(self).index() <= old(self).text().len() {
                old(self).index() + 1
            } else {
                old(self).index()
            },
            ({
                let got = char_at(final(self).text(), final(self).index() - 1);
                match r {
                    Ok(c) => got == Some(c) && class_matches(*char_class, c),
                    Err(e) => !(got matches Some(c) && class_matches(*char_class, c))
                        && e.kind@ == expect_error(*char_class, got)
                        && e.pos == final(self).pos_at(final(self).index()),
                }
            }),
    {
        match self.next_char() {
            Some(c) => {
                if char_class.is_match(c) {
                    Ok(c)
                } else {
                    let a = concat("expected ", char_class.name());
                    let b = concat(a.as_str(), " char, but got ");
                    let d = char_debug(c);
                    let e = concat(b.as_str(), d.as_str());
                    let msg = concat(e.as_str(), " instead");
                    Err(Error::new(self.pos.clone(), ErrorKind::Message(msg)))
                }
            },
            None => {
                let a = concat("expected ", char_class.name());
                let b = concat(a.as_str(), " char, but got ");
                let e = concat(b.as_str(), "EOF");
                let msg = concat(e.as_str(), " instead");
                proof {
                    reveal_strlit("EOF");
                }
                Err(Error::new(self.pos.clone(), ErrorKind::Message(msg)))
            },
        }
    }

    /// Reads the rest of a comment, up to and including the end of its line.
    pub fn next_comment(&mut self) -> (r: Result<Token, Error>)
        requires
            old(self).wf(),
            char_at(old(self).text(), old(self).index() - 1) == Some('#'),
        ensures
            final(self).wf(),
            final(self).same_source(old(self)),
            final(self).index() == lex_comment(old(self).text(), old(self).index()),
            r matches Ok(Token::Comment),
    {
        loop
            invariant
                self.wf(),
                self.same_source(old(self)),
                lex_comment(self.text(), self.index()) == lex_comment(old(self).text(), old(self).index()),
            decreases self.text().len() + 1 - self.index(),
        {
            match self.next_char() {
                Some(c) => {
                    if c == '\n' {
                        return Ok(Token::Comment);
                    }
                },
                None => {
                    return Ok(Token::Comment);
                },
            }
        }
    }

    /// Reads the characters of `cls` that follow, appending them to `acc`.
    fn next_run(&mut self, cls: &CharClass, acc: &mut String)
        requires
            old(self).wf(),
            old(self).index() <= old(self).text().len(),
        ensures
            final(self).wf(),
            final(self).same_source(old(self)),
            final(self).index() == run_end(old(self).text(), old(self).index(), *cls),
            old(self).index() <= final(self).index() <= old(self).text().len(),
            final(acc)@ == old(acc)@ + old(self).text().subrange(old(self).index(), final(self).index()),
    {
        let ghost i0 = self.idx as int;
        let ghost a0 = acc@;
        proof {
            lemma_run_end(self.input@, i0, *cls);
        }
        loop
            invariant
                self.wf(),
                self.same_source(old(self)),
                i0 == old(self).index(),
                a0 == old(acc)@,
                0 <= i0 <= self.index() <= self.text().len(),
                run_end(self.text(), self.index(), *cls) == run_end(self.text(), i0, *cls),
                acc@ == a0 + self.text().subrange(i0, self.index()),
            decreases self.text().len() - self.index(),
        {
            match self.next {
                Some(c) => {
                    if cls.is_match(c) {
                        push_char(acc, c);
                        let ghost before = self.idx as int;
                        self.next_char();
                        assert(self.text().subrange(i0, self.index()) =~= self.text().subrange(i0, before).push(c));
                    } else {
                        return;
                    }
                },
                None => {
                    return;
                },
            }
        }
    }

    /// Reads a variable token, after its `$`.
    pub fn next_variable_token(&mut self) -> (r: Result<Token, Error>)
        requires
            old(self).wf(),
            char_at(old(self).text(), old(self).index() - 1) == Some('$'),
        ensures
            final(self).wf(),
            final(self).same_source(old(self)),
            final(self).index() == lex_variable(old(self).text(), old(self).index()).1,
            final(self).result_matches(r, lex_variable(old(self).text(), old(self).index()).0),
    {
        let ghost i = self.idx as int;
        let first = match self.next_char_expect(&CharClassBase::VariableName) {
            Ok(c) => c,
            Err(e) => {
                return Err(e);
            },
        };
        let mut var_name = String::new();
        push_char(&mut var_name, first);
        self.next_run(&CharClassBase::VariableName, &mut var_name);
        assert(var_name@ =~= self.text().subrange(i, self.index()));
        Ok(Token::Variable(var_name))
    }

    /// Reads an operator token whose first character is the current one.
    pub fn next_op_token(&mut self) -> (r: Result<Token, Error>)
        requires
            old(self).wf(),
            char_at(old(self).text(), old(self).index() - 1) matches Some(c) && is_op_char(c),
        ensures
            final(self).wf(),
            final(self).same_source(old(self)),
            final(self).index() == lex_op(old(self).text(), old(self).index()).1,
            final(self).result_matches(r, lex_op(old(self).text(), old(self).index()).0),
    {
        let ghost i = self.idx as int;
        let c = match self.curr {
            Some(c) => c,
            None => {
                proof {
                    assert(false);
                }
                return Err(Error::new(self.pos.clone(), ErrorKind::Message(String::new())));
            },
        };
        let mut op = String::new();
        push_char(&mut op, c);
        self.next_run(&CharClassBase::Operator, &mut op);
        assert(op@ =~= self.text().subrange(i - 1, self.index()));
        match AssignOp::from_str(op.as_str()) {
            Some(assign_op) => Ok(Token::AssignOp(assign_op)),
            None => Ok(Token::Op(Op::from(op))),
        }
    }

    /// Reads a string literal token, after its opening `"`.
    pub fn next_str_lit(&mut self) -> (r: Result<Token, Error>)
        requires
            old(self).wf(),
            char_at(old(self).text(), old(self).index() - 1) == Some('"'),
        ensures
            final(self).wf(),
            final(self).same_source(old(self)),
            final(self).index() == lex_str(old(self).text(), old(self).index(), Seq::empty()).1,
            final(self).result_matches(r, lex_str(old(self).text(), old(self).index(), Seq::empty()).0),
    {
        let mut str_lit = String::new();
        proof {
            reveal_strlit("EOF");
            reveal_strlit("newline");
        }
        loop
            invariant
                self.wf(),
                self.same_source(old(self)),
                lex_str(self.text(), self.index(), str_lit@) == lex_str(old(self).text(), old(self).index(), Seq::empty()),
            decreases self.text().len() + 1 - self.index(),
        {
            match self.next_char() {
                Some(c) => {
                    if c == '\\' {
                        match self.next_char_expect(&CharClassBase::StrLitEscape) {
                            Ok(e) => {
                                if e == 't' {
                                    push_char(&mut str_lit, '\t');
                                } else if e == 'n' {
                                    push_char(&mut str_lit, '\n');
                                } else if e == 'r' {
                                    push_char(&mut str_lit, '\r');
                                } else if e == '"' {
                                    push_char(&mut str_lit, '"');
                                } else {
                                    push_char(&mut str_lit, '\\');
                                }
                            },
                            Err(err) => {
                                return Err(err);
                            },
                        }
                    } else if c == '"' {
                        return Ok(Token::StrLit(str_lit));
                    } else if c == '\n' || c == '\r' {
                        return Err(Error::new(self.pos.clone(), ErrorKind::EarlyStringEnd(owned("newline"))));
                    } else {
                        push_char(&mut str_lit, c);
                    }
                },
                None => {
                    return Err(Error::new(self.pos.clone(), ErrorKind::EarlyStringEnd(owned("EOF"))));
                },
            }
        }
    }

    /// Reads a bareword or keyword token whose first character is the current one.
    pub fn next_bareword(&mut self) -> (r: Result<Token, Error>)
        requires
            old(self).wf(),
            char_at(old(self).text(), old(self).index() - 1) matches Some(c) && alphabetic(c),
        ensures
            final(self).wf(),
            final(self).same_source(old(self)),
            final(self).index() == lex_bareword(old(self).text(), old(self).index()).1,
            final(self).result_matches(r, lex_bareword(old(self).text(), old(self).index()).0),
    {
        let ghost i = self.idx as int;
        let c = match self.curr {
            Some(c) => c,
            None => {
                proof {
                    assert(false);
                }
                return Err(Error::new(self.pos.clone(), ErrorKind::Message(String::new())));
            },
        };
        let mut bareword = String::new();
        push_char(&mut bareword, c);
        self.next_run(&CharClassBase::Bareword, &mut bareword);
        if self.next == Some('?') {
            push_char(&mut bareword, '?');
            self.next_char();
        }
        assert(bareword@ =~= self.text().subrange(i - 1, self.index()));
        let w = chars_of(bareword.as_str());
        if chars_eq_str(&w, "if") {
            Ok(Token::IfKw)
        } else if chars_eq_str(&w, "else") {
            Ok(Token::ElseKw)
        } else if chars_eq_str(&w, "while") {
            Ok(Token::WhileKw)
        } else if chars_eq_str(&w, "loop") {
            Ok(Token::LoopKw)
        } else if chars_eq_str(&w, "continue") {
            Ok(Token::ContinueKw)
        } else if chars_eq_str(&w, "break") {
            Ok(Token::BreakKw)
        } else if chars_eq_str(&w, "true") {
            Ok(Token::TrueKw)
        } else if chars_eq_str(&w, "false") {
            Ok(Token::FalseKw)
        } else if chars_eq_str(&w, "fun") {
            Ok(Token::FunKw)
        } else if chars_eq_str(&w, "return") {
            Ok(Token::ReturnKw)
        } else if chars_eq_str(&w, "type") {
            Ok(Token::TypeKw)
        } else if chars_eq_str(&w, "self") {
            Ok(Token::SelfKw)
        } else {
            Ok(Token::Bareword(bareword))
        }
    }

    /// Reads a numeric token whose first digit is the current character.
    pub fn next_numeric_token(&mut self) -> (r: Result<Token, Error>)
        requires
            old(self).wf(),
            char_at(old(self).text(), old(self).index() - 1) matches Some(c) && '0' <= c && c <= '9',
        ensures
            final(self).wf(),
            final(self).same_source(old(self)),
            final(self).index() == lex_numeric(old(self).text(), old(self).index()).1,
            final(self).result_matches(r, lex_numeric(old(self).text(), old(self).index()).0),
    {
        let d = match self.curr {
            Some(d) => d,
            None => {
                proof {
                    assert(false);
                }
                return Err(Error::new(self.pos.clone(), ErrorKind::Message(String::new())));
            },
        };
        let mut number = String::new();
        let mut is_float = false;
        let radix: usize = if d == '0' {
            match self.next {
                Some('x') => 16,
                Some('o') => 8,
                Some('b') => 2,
                _ => {
                    push_char(&mut number, d);
                    10
                },
            }
        } else {
            push_char(&mut number, d);
            10
        };
        if radix != 10 {
            self.next_char();
        }
        proof {
            reveal_strlit("non-base-ten floating point literals are not supported");
            reveal_strlit("second decimal encountered in floating point literal");
        }
        loop
            invariant
                self.wf(),
                self.same_source(old(self)),
                radix == 2 || radix == 8 || radix == 10 || radix == 16,
                lex_digits(self.text(), self.index(), radix, number@, is_float)
                    == lex_numeric(old(self).text(), old(self).index()),
            ensures
                self.wf(),
                self.same_source(old(self)),
                lex_numeric(old(self).text(), old(self).index())
                    == (Ok::<TokenView, (ErrorKindView, int)>(number_token(number@, radix, is_float)), self.index()),
            decreases self.text().len() - self.index(),
        {
            match self.next {
                Some(c) => {
                    if c == '.' {
                        if radix != 10 {
                            return Err(Error::new(self.pos.clone(), ErrorKind::Message(
                                owned("non-base-ten floating point literals are not supported"),
                            )));
                        } else if is_float {
                            return Err(Error::new(self.pos.clone(), ErrorKind::Message(
                                owned("second decimal encountered in floating point literal"),
                            )));
                        } else {
                            push_char(&mut number, '.');
                            is_float = true;
                        }
                    } else if is_digit(c, radix as u32) {
                        push_char(&mut number, c);
                    } else if is_alphanumeric(c) {
                        let dbg = char_debug(c);
                        let msg = concat("unrecognized digit ", dbg.as_str());
                        return Err(Error::new(self.pos.clone(), ErrorKind::Message(msg)));
                    } else {
                        break;
                    }
                    self.next_char();
                },
                None => {
                    break;
                },
            }
        }
        if is_float {
            Ok(Token::FloatLit(number))
        } else {
            Ok(Token::IntLit(number, radix))
        }
    }

    /// Reads the next token, skipping white space before it; `None` at the end of the text.
    pub fn next_token(&mut self) -> (r: Option<Result<Token, Error>>)
        requires
            old(self).wf(),
        ensures
            final(self).wf(),
            final(self).same_source(old(self)),
            final(self).index() == lex_token(old(self).text(), old(self).index()).1,
            match (r, lex_token(old(self).text(), old(self).index()).0) {
                (None, None) => true,
                (Some(x), Some(y)) => final(self).result_matches(x, y),
                _ => false,
            },
        decreases old(self).text().len() + 1 - old(self).index(),
    {
        let c = match self.next_char() {
            Some(c) => c,
            None => {
                return None;
            },
        };
        if c == '#' {
            Some(self.next_comment())
        } else if c == '$' {
            Some(self.next_variable_token())
        } else if c == '"' {
            Some(self.next_str_lit())
        } else if c == '(' {
            Some(Ok(Token::LParen))
        } else if c == ')' {
            Some(Ok(Token::RParen))
        } else if c == '{' {
            Some(Ok(Token::LBrace))
        } else if c == '}' {
            Some(Ok(Token::RBrace))
        } else if c == '[' {
            Some(Ok(Token::LBracket))
        } else if c == ']' {
            Some(Ok(Token::RBracket))
        } else if c == ';' {
            Some(Ok(Token::LineEnd))
        } else if c == '\n' {
            Some(Ok(Token::NewLine))
        } else if c == ',' {
            Some(Ok(Token::Comma))
        } else if c == ':' {
            Some(Ok(Token::Colon))
        } else if '0' <= c && c <= '9' {
            Some(self.next_numeric_token())
        } else if CharClassBase::Operator.is_match(c) {
            Some(self.next_op_token())
        } else if CharClassBase::BarewordStart.is_match(c) {
            Some(self.next_bareword())
        } else if is_whitespace(c) {
            let ghost i = self.idx as int;
            proof {
                lemma_whitespace_end(self.input@, i);
            }
            loop
                invariant
                    self.wf(),
                    self.same_source(old(self)),
                    i <= self.index() <= self.text().len(),
                    whitespace_end(self.text(), self.index()) == whitespace_end(self.text(), i),
                ensures
                    self.wf(),
                    self.same_source(old(self)),
                    self.index() == whitespace_end(self.text(), i),
                decreases self.text().len() - self.index(),
            {
                match self.next {
                    Some(n) => {
                        if !is_whitespace(n) {
                            break;
                        }
                        self.next_char();
                    },
                    None => {
                        break;
                    },
                }
            }
            self.next_token()
        } else {
            let dbg = char_debug(c);
            let msg = concat("character: ", dbg.as_str());
            Some(Err(Error::new(self.pos.clone(), ErrorKind::Unexpected(msg))))
        }
    }

    /// Reads the next token together with the range of text it covers; `None` at the end of
    /// the text.
    pub fn next(&mut self) -> (r: Option<Result<RangedToken, Error>>)
        requires
            old(self).wf(),
        ensures
            final(self).wf(),
            final(self).same_source(old(self)),
            final(self).index() == lex_token(old(self).text(), old(self).index()).1,
            match (r, lex_token(old(self).text(), old(self).index()).0) {
                (None, None) => true,
                (Some(Ok(t)), Some(Ok(tv))) => t.1@ == tv && t.0 == Range::Src(
                    src_range_new(
                        old(self).pos_at(old(self).index()),
                        final(self).pos_at(final(self).index()),
                    ),
                ),
                (Some(Err(e)), Some(Err((k, i)))) => e.kind@ == k && e.pos == final(self).pos_at(i),
                _ => false,
            },
    {
        let start = self.pos.clone();
        let token = self.next_token();
        let end = self.pos.clone();
        match token {
            None => None,
            Some(Ok(t)) => Some(Ok(RangeWrapper::new(Range::Src(SrcRange::new(start, end)), t))),
            Some(Err(e)) => Some(Err(e)),
        }
    }
}

/// Whether a character may follow the first letter of a bareword written in ASCII: a letter, a
/// digit, `_` or `-`.
pub open spec fn ascii_name_char(c: char) -> bool {
    'a' <= c <= 'z' || 'A' <= c <= 'Z' || '0' <= c <= '9' || c == '_' || c == '-'
}

/// Whether a word is written in ASCII as the lexer reads one word: a letter, then letters,
/// digits, `_` or `-`, with at most one `?` at its end.
pub open spec fn ascii_word(w: Seq<char>) -> bool {
    &&& 0 < w.len()
    &&& ('a' <= w[0] <= 'z' || 'A' <= w[0] <= 'Z')
    &&& forall|k: int| 0 < k < w.len() ==> ascii_name_char(#[trigger] w[k]) || (k == w.len() - 1 && w[k] == '?')
}

/// Whether a text is a decimal number with one decimal point: a digit first, then digits and
/// exactly one `.`.
pub open spec fn float_text(f: Seq<char>) -> bool {
    &&& 0 < f.len()
    &&& '0' <= f[0] <= '9'
    &&& exists|j: int| #![trigger f[j]] 0 < j < f.len() && f[j] == '.' && forall|k: int|
        0 <= k < f.len() && k != j ==> '0' <= #[trigger] f[k] <= '9'
}

/// Whether the canonical text of a token reads back as that token: for an integer literal,
/// digits of its radix (at least one in radix ten, which has no prefix); for a float literal, a
/// decimal number with one point; for a bareword, an ASCII word that spells no keyword; for a
/// custom operator, operator characters that spell no built-in operator; always for keywords,
/// punctuation, comments and line ends. A variable is written without its `$` and so reads back
/// as a bareword; a string literal is left out.
pub open spec fn reads_back(t: TokenView) -> bool {
    match t {
        TokenView::StrLit(_) => false,
        TokenView::Variable(_) => false,
        TokenView::FloatLit(f) => float_text(f),
        TokenView::IntLit(i, r) => if r == 2 || r == 8 || r == 16 {
            forall|k: int| 0 <= k < i.len() ==> is_digit_in(#[trigger] i[k], r as u32)
        } else {
            r == 10 && 0 < i.len() && forall|k: int| 0 <= k < i.len() ==> '0' <= #[trigger] i[k] <= '9'
        },
        TokenView::Bareword(w) => ascii_word(w) && keyword_token(w) == TokenView::Bareword(w),
        TokenView::Op(o) => o matches OpView::Custom(s) ==> {
            &&& 0 < s.len()
            &&& forall|k: int| 0 <= k < s.len() ==> is_op_char(#[trigger] s[k])
            &&& op_from_text(s) is Custom
            &&& assign_op_from_text(s) is None
        },
        _ => true,
    }
}

/// A run of characters of a class from `i` ends at `j` where every character before `j` is of
/// the class and the one at `j`, if any, is not.
pub proof fn lemma_run_to(t: Seq<char>, i: int, j: int, cls: CharClassBase)
    requires
        0 <= i <= j <= t.len(),
        forall|k: int| i <= k < j ==> class_matches(cls, #[trigger] t[k]),
        j < t.len() ==> !class_matches(cls, t[j]),
    ensures
        run_end(t, i, cls) == j,
    decreases j - i,
{
    if i < j {
        lemma_run_to(t, i + 1, j, cls);
    }
}

/// Reading digits of a radix up to `j` adds them to what was read.
pub proof fn lemma_digits_run(t: Seq<char>, i: int, j: int, radix: usize, acc: Seq<char>, is_float: bool)
    requires
        0 <= i <= j <= t.len(),
        forall|k: int| i <= k < j ==> is_digit_in(#[trigger] t[k], radix as u32),
    ensures
        lex_digits(t, i, radix, acc, is_float) == lex_digits(t, j, radix, acc + t.subrange(i, j), is_float),
    decreases j - i,
{
    if i < j {
        assert(is_digit_in(t[i], radix as u32));
        lemma_digits_run(t, i + 1, j, radix, acc.push(t[i]), is_float);
        assert(acc.push(t[i]) + t.subrange(i + 1, j) =~= acc + t.subrange(i, j));
    } else {
        assert(acc + t.subrange(i, j) =~= acc);
    }
}

/// An ASCII word reads as the keyword it spells, or else as a bareword.
pub proof fn lemma_word_reads_back(w: Seq<char>)
    requires
        ascii_word(w),
    ensures
        lex_token(w, 0).0 == Some(Ok::<TokenView, (ErrorKindView, int)>(keyword_token(w))),
        w.len() <= lex_token(w, 0).1 <= w.len() + 1,
{
    let n = w.len() as int;
    let e = if w[n - 1] == '?' && n > 1 { n - 1 } else { n };
    assert forall|k: int| 1 <= k < e implies class_matches(CharClassBase::Bareword, #[trigger] w[k]) by {
        assert(ascii_name_char(w[k]));
    }
    lemma_run_to(w, 1, e, CharClassBase::Bareword);
    assert(w.subrange(0, bareword_end(w, 1)) =~= w);
}

/// The keywords read back from their canonical text.
pub proof fn lemma_keyword_reads_back(t: TokenView)
    requires
        t is IfKw || t is ElseKw || t is WhileKw || t is LoopKw || t is ContinueKw || t is BreakKw
            || t is ReturnKw || t is TrueKw || t is FalseKw || t is FunKw || t is TypeKw || t is SelfKw,
    ensures
        lex_token(canonical_text(t), 0).0 == Some(Ok::<TokenView, (ErrorKindView, int)>(t)),
        canonical_text(t).len() <= lex_token(canonical_text(t), 0).1 <= canonical_text(t).len() + 1,
{
    reveal_strlit("if");
    reveal_strlit("else");
    reveal_strlit("while");
    reveal_strlit("loop");
    reveal_strlit("continue");
    reveal_strlit("break");
    reveal_strlit("return");
    reveal_strlit("true");
    reveal_strlit("false");
    reveal_strlit("fun");
    reveal_strlit("type");
    reveal_strlit("self");
    let w = canonical_text(t);
    // A keyword has at most eight letters: look at each index in turn.
    assert forall|k: int| 0 < k < w.len() implies ascii_name_char(#[trigger] w[k]) by {
        if k == 1 {
        } else if k == 2 {
        } else if k == 3 {
        } else if k == 4 {
        } else if k == 5 {
        } else if k == 6 {
        } else if k == 7 {
        }
    }
    lemma_word_reads_back(w);
}

/// Lexing the canonical text of a token gives the token back, for every token whose text
/// reads back as it (see `reads_back`).
pub proof fn lemma_canonical_text_reads_back(t: TokenView)
    requires
        reads_back(t),
    ensures
        lex_token(canonical_text(t), 0).0 == Some(Ok::<TokenView, (ErrorKindView, int)>(t)),
        canonical_text(t).len() <= lex_token(canonical_text(t), 0).1 <= canonical_text(t).len() + 1,
{
    reveal_strlit("0b");
    reveal_strlit("0o");
    reveal_strlit("0x");
    reveal_strlit("#");
    reveal_strlit(",");
    reveal_strlit(":");
    reveal_strlit("(");
    reveal_strlit(")");
    reveal_strlit("{");
    reveal_strlit("}");
    reveal_strlit("[");
    reveal_strlit("]");
    reveal_strlit(";");
    reveal_strlit("\n");
    reveal_strlit("=");
    reveal_strlit("+=");
    reveal_strlit("-=");
    reveal_strlit("*=");
    reveal_strlit("/=");
    reveal_strlit("~=");
    let s = canonical_text(t);
    let n = s.len() as int;
    match t {
        TokenView::IntLit(i, r) => {
            if r == 2 || r == 8 || r == 16 {
                assert(forall|k: int| 2 <= k < n ==> s[k] == i[k - 2]);
                lemma_digits_run(s, 2, n, r, Seq::empty(), false);
                assert(Seq::<char>::empty() + s.subrange(2, n) =~= i);
            } else {
                lemma_digits_run(s, 1, n, 10, seq![s[0]], false);
                assert(seq![s[0]] + s.subrange(1, n) =~= i);
            }
        },
        TokenView::FloatLit(f) => {
            let j = choose|j: int| #![trigger f[j]] 0 < j < f.len() && f[j] == '.' && forall|k: int|
                0 <= k < f.len() && k != j ==> '0' <= #[trigger] f[k] <= '9';
            lemma_digits_run(s, 1, j, 10, seq![s[0]], false);
            let acc = (seq![s[0]] + s.subrange(1, j)).push('.');
            lemma_digits_run(s, j + 1, n, 10, acc, true);
            assert(acc + s.subrange(j + 1, n) =~= f);
        },
        TokenView::Bareword(w) => {
            lemma_word_reads_back(w);
        },
        TokenView::Op(o) => {
            lemma_op_text_round_trip(o);
            lemma_run_to(s, 1, n, CharClassBase::Operator);
            assert(s.subrange(0, n) =~= s);
        },
        TokenView::AssignOp(a) => {
            lemma_assign_op_text_round_trip(a);
            lemma_run_to(s, 1, n, CharClassBase::Operator);
            assert(s.subrange(0, n) =~= s);
        },
        TokenView::IfKw | TokenView::ElseKw | TokenView::WhileKw | TokenView::LoopKw
        | TokenView::ContinueKw | TokenView::BreakKw | TokenView::ReturnKw | TokenView::TrueKw
        | TokenView::FalseKw | TokenView::FunKw | TokenView::TypeKw | TokenView::SelfKw => {
            lemma_keyword_reads_back(t);
        },
        _ => {},
    }
}

/// Lexing the canonical text of a token that reads back gives that token and nothing more.
pub proof fn lemma_canonical_text_lexes_alone(t: TokenView)
    requires
        reads_back(t),
    ensures
        lex_from(canonical_text(t), 0) == Some(seq![t]),
{
    let s = canonical_text(t);
    lemma_canonical_text_reads_back(t);
    lemma_lex_step(s, 0);
    let end = lex_token(s, 0).1;
    assert(lex_from(s, end) == Some(Seq::<TokenView>::empty()));
    assert(seq![t] + Seq::<TokenView>::empty() =~= seq![t]);
}

} // verus!
