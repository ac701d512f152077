use lib::common::lang::Op;
use lib::syntax::parser::Parser;
use lib::syntax::token::{AssignOp, Token};
use lib::syntax::tree::{Expr, Stmt};

fn parse(text: &str) -> Result<Vec<Stmt>, String> {
    let parser = Parser::new("test", text);
    match parser.into_parse_tree() {
        Ok(block) => Ok(block.1),
        Err(e) => Err(e.to_string()),
    }
}

#[test]
fn op_text_round_trips() {
    for text in ["!", "+", "-", "*", "/", "~", "||", "&&", "%%", "==", "!=", "~~", "<=", ">=", "<", ">"] {
        let op = Op::from(text.to_string());
        assert!(!matches!(op, Op::Custom(_)), "{} should be built in", text);
        assert_eq!(op.to_string(), text);
        assert_eq!(Op::from(op.to_string()), op);
    }
    let custom = Op::from("<=>".to_string());
    assert_eq!(custom, Op::Custom("<=>".to_string()));
    assert_eq!(custom.to_string(), "<=>");
}

#[test]
fn assign_op_text_round_trips() {
    for text in ["=", "+=", "-=", "*=", "/=", "~="] {
        let op = AssignOp::from_str(text).unwrap();
        assert_eq!(op.to_string(), text);
    }
    assert!(AssignOp::from_str("==").is_none());
    assert!(AssignOp::from_str("").is_none());
}

#[test]
fn token_display_and_canonical_text() {
    assert_eq!(Token::Variable("x".to_string()).to_string(), "variable $x");
    assert_eq!(Token::Op(Op::Plus).to_string(), "operator +");
    assert_eq!(Token::AssignOp(AssignOp::TildeEquals).to_string(), "assignment operator ~=");
    assert_eq!(Token::NewLine.to_string(), "end-of-line");
    assert_eq!(Token::StrLit("hi \"there\"".to_string()).canonicalize(), "\"hi \\\"there\\\"\"");
    assert_eq!(Token::IntLit("ff".to_string(), 16).canonicalize(), "0xff");
    assert_eq!(Token::IntLit("17".to_string(), 8).canonicalize(), "0o17");
    assert_eq!(Token::IntLit("101".to_string(), 2).canonicalize(), "0b101");
    assert_eq!(Token::IntLit("9".to_string(), 10).canonicalize(), "9");
    assert_eq!(Token::LineEnd.canonicalize(), ";");
}

#[test]
fn token_conversions() {
    assert_eq!(Token::Op(Op::Minus).into_op(), Op::Minus);
    assert!(Token::Op(Op::Minus).is_op());
    assert!(!Token::Comma.is_op());
    assert_eq!(Token::AssignOp(AssignOp::SplatEquals).into_assign_op(), AssignOp::SplatEquals);
    assert!(Token::AssignOp(AssignOp::Equals).is_assign_op());
    assert!(!Token::Op(Op::Plus).is_assign_op());
    assert!(Expr::token_is_atom_lookahead(&Token::Bareword("f".to_string())));
    assert!(!Expr::token_is_atom_lookahead(&Token::LParen));
}

#[test]
fn expressions_group_by_precedence() {
    let mut parser = Parser::new("test", "1 + 2 * 3 < 4 && $a");
    parser.init().unwrap();
    let e = parser.next_expr().unwrap();
    assert_eq!(e.canonicalize(), "((int literal + (int literal * int literal)) < (int literal && variable $a))");
}

#[test]
fn operators_of_one_level_group_to_the_right() {
    let mut parser = Parser::new("test", "1 - 2 - 3");
    parser.init().unwrap();
    let e = parser.next_expr().unwrap();
    assert_eq!(e.canonicalize(), "(int literal - (int literal - int literal))");
}

#[test]
fn parses_a_whole_program() {
    let stmts = parse(
        "fun add($a, $b: Int = 1): Int { return $a + $b; }; $x = add(1, 2); \
         while $x < 10 { $x += 1; }; if $x { break; } else if $y { continue; } else { loop { } }; \
         type Point: Base, Other { fun norm() { } };",
    )
    .unwrap();
    assert_eq!(stmts.len(), 5);
    match &stmts[0] {
        Stmt::Fun(f) => {
            assert_eq!(f.name, "add");
            assert_eq!(f.params.len(), 2);
            assert_eq!(f.params[1].ty, Some("Int".to_string()));
            assert!(f.params[1].default.is_some());
            assert_eq!(f.return_ty, Some("Int".to_string()));
            assert_eq!(f.body.1.len(), 1);
            assert!(matches!(f.body.1[0], Stmt::Return(Some(_), _)));
        },
        _ => panic!("expected a function"),
    }
    match &stmts[1] {
        Stmt::Assign(_, op, Expr::FunCall { args, .. }) => {
            assert_eq!(*op, AssignOp::Equals);
            assert_eq!(args.len(), 2);
        },
        _ => panic!("expected an assignment of a call"),
    }
    match &stmts[2] {
        Stmt::While(c) => {
            assert_eq!(c.block.1.len(), 1);
            assert!(matches!(c.block.1[0], Stmt::Assign(_, AssignOp::PlusEquals, _)));
        },
        _ => panic!("expected a while loop"),
    }
    match &stmts[3] {
        Stmt::If { elseif_blocks, else_block, if_block } => {
            assert!(matches!(if_block.block.1[0], Stmt::Break(_)));
            assert_eq!(elseif_blocks.len(), 1);
            assert!(matches!(elseif_blocks[0].block.1[0], Stmt::Continue(_)));
            let else_block = else_block.as_ref().unwrap();
            assert!(matches!(else_block.1[0], Stmt::Loop(_)));
        },
        _ => panic!("expected an if statement"),
    }
    match &stmts[4] {
        Stmt::UserTy(u) => {
            assert_eq!(u.name, "Point");
            assert_eq!(u.parents, vec!["Base".to_string(), "Other".to_string()]);
            assert_eq!(u.functions.len(), 1);
            assert_eq!(u.functions[0].name, "norm");
        },
        _ => panic!("expected a type"),
    }
}

#[test]
fn empty_program_parses_to_nothing() {
    assert_eq!(parse("").unwrap().len(), 0);
    assert_eq!(parse(";;# only a comment").unwrap().len(), 0);
}

#[test]
fn parse_errors_name_what_was_expected() {
    assert_eq!(parse("fun 1").unwrap_err(), "expected bareword; got int literal");
    assert_eq!(parse("$x = 1 2").unwrap_err(), "expected end-of-line (`;`) or EOF; got int literal");
    assert_eq!(parse("while $x").unwrap_err(), "expected left brace; got EOF");
}

#[test]
fn lexer_errors_stop_the_parse() {
    assert_eq!(parse("$x = `").unwrap_err(), "unexpected character: '`'");
}

#[test]
fn parameters_follow_the_grammar() {
    assert_eq!(parse("fun f($a, $b,) { }").unwrap().len(), 1);
    assert!(parse("fun f($a = 1, $b) { }").is_err());
    assert!(parse("fun f($a $b) { }").is_err());
    assert_eq!(parse("fun f($a, $b = 2, $c = 3) { }").unwrap().len(), 1);
}

#[test]
fn calls_and_indexes_follow_the_grammar() {
    assert_eq!(parse("$x = f(1, (2 + 3))[0];").unwrap().len(), 1);
    assert!(parse("$x = f(1 2);").is_err());
    assert!(parse("$x = (1 + 2;").is_err());
    assert!(parse("$x = $a[1;").is_err());
}

#[test]
fn newlines_end_statements() {
    assert_eq!(parse("$x = 1\n$y = 2\n").unwrap().len(), 2);
    assert_eq!(parse("\n\n$x = 1\n\n# note\n$y = 2").unwrap().len(), 2);
    assert_eq!(parse("$x = (1\n + 2)\n").unwrap().len(), 1);
}
