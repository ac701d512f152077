use lib::common::lang::Op;
use lib::common::pos::{Pos, Range, RangeWrapper, SrcRange};
use lib::syntax::parser::Parser;
use lib::syntax::token::{AssignOp, RangedToken, Token};
use lib::syntax::tree::{Block, ConditionBlock, Expr, Stmt};

fn test_parser(input: &str) -> Parser {
    let mut parser = Parser::new("test", input);
    parser.init().unwrap();
    parser
}

fn token(t: Token) -> RangedToken {
    RangeWrapper::new(Range::Src(SrcRange::new(Pos::default(), Pos::default())), t)
}

#[test]
fn test_parser_expr() {
    let mut parser = test_parser("(1 + 2)");
    let expr = parser.next_expr().unwrap();
    assert_eq!(
        expr,
        Expr::Binary(
            Box::new(Expr::Atom(token(Token::IntLit("1".to_string(), 10)))),
            Op::Plus,
            Box::new(Expr::Atom(token(Token::IntLit("2".to_string(), 10))))
        )
    );
}

#[test]
fn test_parser_match_token() {
    let mut parser = test_parser("(1 + 2)");
    parser.match_token(Token::LParen).unwrap();
    parser.match_token(Token::IntLit("1".to_string(), 10)).unwrap();
    parser.match_token(Token::Op(Op::Plus)).unwrap();
    parser.match_token(Token::IntLit("2".to_string(), 10)).unwrap();
    parser.match_token(Token::RParen).unwrap();
}

fn empty_block() -> Block {
    RangeWrapper::new(Range::Src(SrcRange::new(Pos::default(), Pos::default())), vec![])
}

fn int_atom(text: &str) -> Box<Expr> {
    Box::new(Expr::Atom(token(Token::IntLit(text.to_string(), 10))))
}

#[test]
fn if_chain_reads_as_its_tree() {
    let mut parser = test_parser("if $a { } else if $b { } else { }");
    let stmt = parser.next_stmt().unwrap();
    assert_eq!(
        stmt,
        Stmt::If {
            if_block: ConditionBlock::new(Expr::Atom(token(Token::Variable("a".to_string()))), empty_block()),
            elseif_blocks: vec![ConditionBlock::new(
                Expr::Atom(token(Token::Variable("b".to_string()))),
                empty_block(),
            )],
            else_block: Some(empty_block()),
        }
    );
    assert!(parser.next_token().unwrap().is_none());
}

#[test]
fn assignment_reads_as_its_tree() {
    let mut parser = test_parser("$x = 1;");
    let stmt = parser.next_stmt().unwrap();
    assert_eq!(
        stmt,
        Stmt::Assign(
            Expr::Atom(token(Token::Variable("x".to_string()))),
            AssignOp::Equals,
            Expr::Atom(token(Token::IntLit("1".to_string(), 10))),
        )
    );
    assert!(parser.next_token().unwrap().is_none());
}

#[test]
fn call_reads_as_its_tree() {
    let mut parser = test_parser("f(1, 2)");
    match parser.next_atom_expr().unwrap() {
        Expr::FunCall { function, args, .. } => {
            assert_eq!(function, Box::new(Expr::Atom(token(Token::Bareword("f".to_string())))));
            assert_eq!(args, vec![*int_atom("1"), *int_atom("2")]);
        },
        other => panic!("expected a call, got {:?}", other),
    }
    assert!(parser.next_token().unwrap().is_none());
}

#[test]
fn products_bind_tighter_than_sums() {
    let mut parser = test_parser("1 + 2 * 3");
    assert_eq!(
        parser.next_expr().unwrap(),
        Expr::Binary(int_atom("1"), Op::Plus, Box::new(Expr::Binary(int_atom("2"), Op::Splat, int_atom("3"))))
    );
    let mut parser = test_parser("1 * 2 + 3");
    assert_eq!(
        parser.next_expr().unwrap(),
        Expr::Binary(Box::new(Expr::Binary(int_atom("1"), Op::Splat, int_atom("2"))), Op::Plus, int_atom("3"))
    );
}
