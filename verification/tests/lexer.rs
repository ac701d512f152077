use lib::common::lang::Op;
use lib::syntax::lexer::Lexer;
use lib::syntax::token::{AssignOp, Token};

fn tokens(text: &str) -> Vec<Token> {
    let mut lexer = Lexer::new("test", text);
    let mut out = Vec::new();
    while let Some(t) = lexer.next() {
        out.push(t.unwrap().into_inner());
    }
    out
}

fn first_error(text: &str) -> String {
    let mut lexer = Lexer::new("test", text);
    while let Some(t) = lexer.next() {
        if let Err(e) = t {
            return e.to_string();
        }
    }
    panic!("no error in {:?}", text);
}

#[test]
fn lexes_assignment_with_hex_literal() {
    assert_eq!(
        tokens("$x = 0x1F;"),
        vec![
            Token::Variable("x".to_string()),
            Token::AssignOp(AssignOp::Equals),
            Token::IntLit("1F".to_string(), 16),
            Token::LineEnd,
        ]
    );
}

#[test]
fn lexes_numbers_in_each_radix() {
    assert_eq!(
        tokens("12 0b101 0o17 0 1.5"),
        vec![
            Token::IntLit("12".to_string(), 10),
            Token::IntLit("101".to_string(), 2),
            Token::IntLit("17".to_string(), 8),
            Token::IntLit("0".to_string(), 10),
            Token::FloatLit("1.5".to_string()),
        ]
    );
}

#[test]
fn lexes_keywords_barewords_and_punctuation() {
    assert_eq!(
        tokens("fun empty?(){}[]:,\nwhile if else loop continue break return true false type self"),
        vec![
            Token::FunKw,
            Token::Bareword("empty?".to_string()),
            Token::LParen,
            Token::RParen,
            Token::LBrace,
            Token::RBrace,
            Token::LBracket,
            Token::RBracket,
            Token::Colon,
            Token::Comma,
            Token::NewLine,
            Token::WhileKw,
            Token::IfKw,
            Token::ElseKw,
            Token::LoopKw,
            Token::ContinueKw,
            Token::BreakKw,
            Token::ReturnKw,
            Token::TrueKw,
            Token::FalseKw,
            Token::TypeKw,
            Token::SelfKw,
        ]
    );
}

#[test]
fn lexes_operators_and_assignment_operators() {
    assert_eq!(
        tokens("a += b <= c && !d %% e ~~ f <=>"),
        vec![
            Token::Bareword("a".to_string()),
            Token::AssignOp(AssignOp::PlusEquals),
            Token::Bareword("b".to_string()),
            Token::Op(Op::LessEquals),
            Token::Bareword("c".to_string()),
            Token::Op(Op::And),
            Token::Op(Op::Bang),
            Token::Bareword("d".to_string()),
            Token::Op(Op::DoublePercent),
            Token::Bareword("e".to_string()),
            Token::Op(Op::DoubleTilde),
            Token::Bareword("f".to_string()),
            Token::Op(Op::Custom("<=>".to_string())),
        ]
    );
}

#[test]
fn lexes_strings_with_escapes_and_comments() {
    assert_eq!(
        tokens("\"a\\tb\\n\\\"\\\\\" # note\n$v_1-x"),
        vec![
            Token::StrLit("a\tb\n\"\\".to_string()),
            Token::Comment,
            Token::Variable("v_1-x".to_string()),
        ]
    );
}

#[test]
fn lexes_unicode_letters_and_whitespace() {
    assert_eq!(
        tokens("\u{e9}t\u{e9}\t\u{3000}x2"),
        vec![Token::Bareword("\u{e9}t\u{e9}".to_string()), Token::Bareword("x2".to_string())]
    );
}

#[test]
fn empty_text_has_no_tokens() {
    assert_eq!(tokens(""), Vec::<Token>::new());
    assert_eq!(tokens("   \t "), Vec::<Token>::new());
}

#[test]
fn unexpected_character_is_reported() {
    assert_eq!(first_error("`"), "unexpected character: '`'");
}

#[test]
fn unterminated_string_is_reported() {
    assert_eq!(first_error("\"abc"), "reached EOF while insode of string literal");
    assert_eq!(first_error("\"a\nb\""), "reached newline while insode of string literal");
}

#[test]
fn bad_numbers_are_reported() {
    assert_eq!(first_error("1.2.3"), "second decimal encountered in floating point literal");
    assert_eq!(first_error("0x1.5"), "non-base-ten floating point literals are not supported");
    assert_eq!(first_error("12a"), "unrecognized digit 'a'");
}

#[test]
fn bad_variable_and_escape_are_reported() {
    assert_eq!(first_error("$ "), "expected variable name char, but got ' ' instead");
    assert_eq!(first_error("$"), "expected variable name char, but got EOF instead");
    assert_eq!(first_error("\"\\q\""), "expected string escape char, but got 'q' instead");
}

#[test]
fn token_ranges_cover_their_text() {
    let mut lexer = Lexer::new("src", "ab  $cd");
    // a range runs from the character under the lexer before the token to the one under it
    // after: the last character read is not part of it
    let first = lexer.next().unwrap().unwrap();
    assert_eq!(first.range().source_text(), "a");
    assert_eq!(first.range().source_name(), "src");
    let second = lexer.next().unwrap().unwrap();
    assert_eq!(second.range().source_text(), "b  $c");
    assert!(lexer.next().is_none());
}

#[test]
fn positions_count_lines_and_columns() {
    let mut lexer = Lexer::new("src", "a\nbc");
    lexer.next();
    lexer.next();
    let t = lexer.next().unwrap().unwrap();
    assert_eq!(t.into_inner(), Token::Bareword("bc".to_string()));
    let pos = lexer.pos();
    // the position is that of the last character read
    assert_eq!((pos.line, pos.col), (1, 1));
    assert_eq!(pos.display_line_col(), (2, 2));
}

fn first_token(text: &str) -> Token {
    Lexer::new("testing", text).next().unwrap().unwrap().into_inner()
}

#[test]
fn first_tokens_of_variables_and_comments() {
    assert_eq!(first_token("$boop"), Token::Variable(String::from("boop")));
    assert_eq!(first_token("$1"), Token::Variable(String::from("1")));
    assert_eq!(first_token("$\u{4e2d}\u{6587}"), Token::Variable(String::from("\u{4e2d}\u{6587}")));
    assert_eq!(first_token("# this is a single line comment"), Token::Comment);
}

#[test]
fn first_tokens_of_operators() {
    assert_eq!(first_token("+"), Token::Op(Op::Plus));
    assert_eq!(first_token("-"), Token::Op(Op::Minus));
    assert_eq!(first_token("*"), Token::Op(Op::Splat));
    assert_eq!(first_token("/"), Token::Op(Op::FSlash));
    assert_eq!(first_token("~"), Token::Op(Op::Tilde));
    assert_eq!(first_token("=="), Token::Op(Op::DoubleEquals));
    assert_eq!(first_token("%%"), Token::Op(Op::DoublePercent));
    assert_eq!(first_token("~~"), Token::Op(Op::DoubleTilde));
    assert_eq!(first_token("/<+~-~+>/"), Token::Op(Op::Custom("/<+~-~+>/".to_string())));
}

#[test]
fn first_tokens_of_string_literals() {
    assert_eq!(
        first_token("\"hurry boy, she's waiting there for you\""),
        Token::StrLit(String::from("hurry boy, she's waiting there for you"))
    );
    assert_eq!(
        first_token(r#""\"I am leaving, I am leaving,\" but the fighter still remains""#),
        Token::StrLit(String::from("\"I am leaving, I am leaving,\" but the fighter still remains"))
    );
}

#[test]
fn first_tokens_of_barewords_and_keywords() {
    assert_eq!(first_token("boop"), Token::Bareword("boop".to_string()));
    assert_eq!(first_token("b00p"), Token::Bareword("b00p".to_string()));
    assert_eq!(first_token("if"), Token::IfKw);
    assert_eq!(first_token("else"), Token::ElseKw);
    assert_eq!(first_token("while"), Token::WhileKw);
    assert_eq!(first_token("loop"), Token::LoopKw);
    assert_eq!(first_token("continue"), Token::ContinueKw);
}

#[test]
fn first_tokens_of_numerics() {
    assert_eq!(first_token("199"), Token::IntLit("199".to_string(), 10));
    assert_eq!(first_token("0000"), Token::IntLit("0000".to_string(), 10));
    assert_eq!(first_token("0o777"), Token::IntLit("777".to_string(), 8));
    assert_eq!(first_token("0xdecafdad"), Token::IntLit("decafdad".to_string(), 16));
    assert_eq!(first_token("0.0"), Token::FloatLit("0.0".to_string()));
}

#[test]
fn string_literal_errors_on_newline_or_eof() {
    assert!(Lexer::new("testing", "\"\n\"").next().unwrap().is_err());
    assert!(Lexer::new("testing", "\"unclosed string").next().unwrap().is_err());
}

#[test]
fn canonical_text_lexes_back_to_the_token() {
    let cases = vec![
        Token::IntLit("42".to_string(), 10),
        Token::IntLit("1F".to_string(), 16),
        Token::IntLit("101".to_string(), 2),
        Token::IntLit("17".to_string(), 8),
        Token::FloatLit("1.5".to_string()),
        Token::Bareword("foo_bar-2?".to_string()),
        Token::IfKw,
        Token::ContinueKw,
        Token::SelfKw,
        Token::Op(Op::DoubleEquals),
        Token::Op(Op::Custom("<=>".to_string())),
        Token::AssignOp(AssignOp::TildeEquals),
        Token::Comma,
        Token::LBracket,
        Token::LineEnd,
        Token::NewLine,
        Token::Comment,
    ];
    for t in cases {
        assert_eq!(tokens(&t.canonicalize()), vec![t.clone()]);
    }
    assert_eq!(tokens(&Token::Variable("x".to_string()).canonicalize()), vec![Token::Bareword("x".to_string())]);
}
