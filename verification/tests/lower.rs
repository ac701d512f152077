use lib::ir::function::{Fun as IrFun, FunParam};
use lib::common::lang::Op;
use lib::common::pos::Range;
use lib::compile::context::{ValueContext, ValueContextKind};
use lib::compile::error::ErrorKind;
use lib::compile::function::FunStub;
use lib::compile::scope::LabelScope;
use lib::compile::state::{Fun, FunScope, State};
use lib::compile::thunk::{RootBlock, Thunk};
use lib::compile::ty::TyScope;
use lib::compile::value::VarScope;
use lib::ir::action::{action_from_block, action_from_stmt, Action, ActionKind};
use lib::ir::symbol::Symbol;
use lib::ir::ty::TyExpr;
use lib::ir::value::{value_from_expr, Const, ValueKind};
use lib::syntax::parser::Parser;
use lib::syntax::tree::{Block, Stmt};
use lib::ir::compile::Compile;
use lib::vm::bc::{Bc, Condition, JumpCond, Ref, Value};
use lib::vm::condition::CompareOp;
use lib::vm::symbol::{BlockSymbol, FunSymbol};

fn parse_block(text: &str) -> Block {
    Parser::new("test", text).into_parse_tree().unwrap()
}

fn parse_stmt(text: &str) -> Stmt {
    let mut stmts = parse_block(text).1;
    assert_eq!(stmts.len(), 1);
    stmts.remove(0)
}

fn stub(name: &str, symbol: FunSymbol, params: usize) -> FunStub {
    FunStub { name: name.to_string(), symbol, params, return_ty: TyExpr("Any".to_string()), range: Range::Builtin }
}

/// Scopes with one layer each, a function `print` of one parameter and the function of `+`.
fn state() -> State {
    let mut var_scope = VarScope::default();
    var_scope.push_empty_scope();
    let mut fun_scope = FunScope::default();
    fun_scope.push_empty_scope();
    let print = fun_scope.reserve_symbol();
    fun_scope.insert(Fun::Stub(stub("print", print, 1)));
    let plus = fun_scope.reserve_symbol();
    fun_scope.insert(Fun::Op(Op::Plus, stub("+", plus, 2)));
    let mut ty_scope = TyScope::default();
    ty_scope.push_empty_scope();
    State { var_scope, fun_scope, ty_scope, label_scope: LabelScope::default() }
}

fn lower(text: &str) -> Result<Thunk, ErrorKind> {
    let action: Action = action_from_block(parse_block(text));
    let mut root = RootBlock { state: state() };
    root.try_transform_mut(action).map_err(|e| e.kind)
}

#[test]
fn while_loops_become_loops_around_a_breaking_condition() {
    let action = action_from_stmt(parse_stmt("while $x { $y = 1; }"));
    match action.1 {
        ActionKind::Loop(inner) => match inner.1 {
            ActionKind::ConditionBlock { condition, success, failure } => {
                assert!(matches!(condition.1, ValueKind::Symbol(Symbol::Variable(ref n)) if n == "x"));
                assert!(matches!(success.1, ActionKind::Block(ref b) if b.len() == 1));
                assert!(matches!(failure.1, ActionKind::Break));
            },
            other => panic!("expected a condition block, got {:?}", other),
        },
        other => panic!("expected a loop, got {:?}", other),
    }
}

#[test]
fn if_chains_nest_through_their_failure_branches() {
    let action = action_from_stmt(parse_stmt("if $a { } else if $b { } else { 1; }"));
    match action.1 {
        ActionKind::ConditionBlock { condition, failure, .. } => {
            assert!(matches!(condition.1, ValueKind::Symbol(Symbol::Variable(ref n)) if n == "a"));
            match failure.1 {
                ActionKind::ConditionBlock { condition, failure, .. } => {
                    assert!(matches!(condition.1, ValueKind::Symbol(Symbol::Variable(ref n)) if n == "b"));
                    assert!(matches!(failure.1, ActionKind::Block(ref b) if b.len() == 1));
                },
                other => panic!("expected an else-if block, got {:?}", other),
            }
        },
        other => panic!("expected a condition block, got {:?}", other),
    }
    let bare = action_from_stmt(parse_stmt("if $a { }"));
    assert!(matches!(bare.1, ActionKind::ConditionBlock { ref failure, .. } if matches!(failure.1, ActionKind::Nop)));
}

#[test]
fn operator_assignments_keep_their_operator() {
    let action = action_from_stmt(parse_stmt("$x += 2;"));
    assert!(matches!(action.1, ActionKind::AugAssign(_, Op::Plus, _)));
    let plain = action_from_stmt(parse_stmt("$x = 2;"));
    assert!(matches!(plain.1, ActionKind::Assign(_, _)));
}

#[test]
fn expressions_become_values() {
    let stmt = parse_stmt("Point(f, 0x1F, \"s\");");
    let e = match stmt {
        Stmt::Expr(e) => e,
        other => panic!("expected an expression, got {:?}", other),
    };
    let v = value_from_expr(e);
    match v.1 {
        ValueKind::FunCall(f, args) => {
            assert!(matches!(f.1, ValueKind::Symbol(Symbol::Ty(ref n)) if n == "Point"));
            assert_eq!(args.len(), 3);
            assert!(matches!(args[0].1, ValueKind::Symbol(Symbol::Fun(ref n)) if n == "f"));
            assert!(matches!(args[1].1, ValueKind::Const(Const::Int(ref d, 16)) if d == "1F"));
            assert!(matches!(args[2].1, ValueKind::Const(Const::Str(ref s)) if s == "s"));
        },
        other => panic!("expected a call, got {:?}", other),
    }
}

#[test]
fn calls_push_their_arguments_then_call() {
    let thunk = lower("print(1 + 2);").unwrap();
    let code = match thunk {
        Thunk::Nested(mut ts) => match ts.remove(0) {
            Thunk::Code(c) => c,
            other => panic!("expected code, got {:?}", other),
        },
        other => panic!("expected a block, got {:?}", other),
    };
    assert_eq!(code.len(), 7);
    assert!(matches!(code[0], Bc::Store(Ref::Reg(_), Value::Const(Const::Int(ref d, 10))) if d == "1"));
    assert!(matches!(code[1], Bc::Store(Ref::Reg(_), Value::Const(Const::Int(ref d, 10))) if d == "2"));
    assert!(matches!(code[2], Bc::Push(Value::Ref(Ref::Reg(_)))));
    assert!(matches!(code[3], Bc::Push(Value::Ref(Ref::Reg(_)))));
    assert!(matches!(code[4], Bc::Call(FunSymbol(1))));
    assert!(matches!(code[5], Bc::Push(Value::Ref(Ref::Reg(_)))));
    assert!(matches!(code[6], Bc::Call(FunSymbol(0))));
}

#[test]
fn unknown_functions_and_stray_jumps_are_errors() {
    assert!(matches!(lower("nope(1);"), Err(ErrorKind::UnknownFun(ref n)) if n == "nope"));
    assert!(matches!(lower("1 - 2;"), Err(ErrorKind::UnknownBinaryOp(Op::Minus))));
    assert!(matches!(lower("break;"), Err(ErrorKind::BreakOutsideOfLoop)));
    assert!(matches!(lower("continue;"), Err(ErrorKind::ContinueOutsideOfLoop)));
    assert!(matches!(lower("1 = 2;"), Err(ErrorKind::InvalidAssignLhs)));
}

#[test]
fn breaks_in_loops_jump_to_the_loop_exit() {
    let thunk = lower("$x = 1; while $x { break; }").unwrap();
    let mut ts = match thunk {
        Thunk::Nested(ts) => ts,
        other => panic!("expected a block, got {:?}", other),
    };
    assert_eq!(ts.len(), 2);
    match ts.remove(1) {
        Thunk::Labeled { entry, exit, .. } => {
            assert_eq!(entry, BlockSymbol(0));
            assert_eq!(exit, BlockSymbol(1));
        },
        other => panic!("expected a labelled loop, got {:?}", other),
    }
}

#[test]
fn values_compile_into_their_context() {
    let stmt = parse_stmt("$x = 1;");
    let action = action_from_stmt(stmt);
    let mut state = state();
    let mut root = RootBlock { state };
    root.try_transform_mut(action).unwrap();
    state = root.state;
    let rhs = match action_from_stmt(parse_stmt("$x;")).1 {
        ActionKind::Eval(v) => v,
        other => panic!("expected an evaluation, got {:?}", other),
    };
    let code = ValueContext::new(ValueContextKind::Ret).try_transform(&mut state, &rhs).unwrap();
    assert_eq!(code.len(), 1);
    assert!(matches!(code[0], Bc::PushRet(Value::Ref(Ref::Reg(_)))));
    let code = ValueContext::new(ValueContextKind::Push).try_transform(&mut state, &rhs).unwrap();
    assert!(matches!(code[0], Bc::Push(Value::Ref(Ref::Reg(_)))));
    let _ = JumpCond::Always;
}

fn value_of(text: &str) -> lib::ir::value::Value {
    match parse_stmt(text) {
        Stmt::Expr(e) => value_from_expr(e),
        other => panic!("expected an expression, got {:?}", other),
    }
}

#[test]
fn compiled_values_use_immediates_where_they_stand() {
    let mut c = Compile { state: state() };
    let code = c.compile_value(&value_of("$x + 1;"), ValueContextKind::Push).unwrap();
    assert_eq!(code.len(), 1);
    assert!(matches!(code[0], Bc::BinOpPush(Value::Ref(Ref::Reg(_)), Op::Plus, Value::Const(Const::Int(ref d, 10))) if d == "1"));
    let code = c.compile_value(&value_of("1 + 2;"), ValueContextKind::Ret).unwrap();
    assert!(matches!(code[0], Bc::BinOpStore(_, Op::Plus, _, Ref::Reg(_))));
    let code = c.compile_value(&value_of("(1 + 2) + 3;"), ValueContextKind::Push).unwrap();
    assert_eq!(code.len(), 2);
    assert!(matches!(code[0], Bc::BinOpStore(_, Op::Plus, _, Ref::Reg(_))));
    assert!(matches!(code[1], Bc::BinOpPush(Value::Ref(Ref::Reg(_)), Op::Plus, _)));
}

#[test]
fn compiled_calls_push_their_arguments() {
    let mut c = Compile { state: state() };
    let code = c.compile_value(&value_of("print(7);"), ValueContextKind::Push).unwrap();
    assert_eq!(code.len(), 2);
    assert!(matches!(code[0], Bc::Push(Value::Const(Const::Int(ref d, 10))) if d == "7"));
    assert!(matches!(code[1], Bc::Call(FunSymbol(0))));
    assert!(matches!(c.compile_value(&value_of("nope(7);"), ValueContextKind::Push), Err(ref e) if matches!(e.kind, ErrorKind::UnknownFun(_))));
}

#[test]
fn comparisons_compare_their_operands() {
    let mut c = Compile { state: state() };
    let code = c.compile_comparison(&value_of("$a < 2;")).unwrap();
    assert_eq!(code.len(), 3);
    assert!(matches!(code[2], Bc::Compare(Condition::Compare(_, CompareOp::Less, _))));
    let code = c.compile_comparison(&value_of("$a;")).unwrap();
    assert_eq!(code.len(), 2);
    assert!(matches!(code[1], Bc::Compare(Condition::Truthy(Value::Ref(Ref::Reg(_))))));
}

#[test]
fn blocks_of_actions_nest_their_thunks() {
    let actions = match action_from_block(parse_block("print(1); print(2);")).1 {
        ActionKind::Block(actions) => actions,
        other => panic!("expected a block, got {:?}", other),
    };
    let mut root = RootBlock { state: state() };
    match root.try_transform_block(actions).unwrap() {
        Thunk::Nested(ts) => assert_eq!(ts.len(), 2),
        other => panic!("expected nested thunks, got {:?}", other),
    }
}

#[test]
fn stub_from_ir_function() {
    let param = FunParam::Variable {
        symbol: Symbol::Variable("x".to_string()),
        ty: TyExpr("Int".to_string()),
        default: None,
        range: Range::Builtin,
    };
    assert_eq!(param.name(), "x");
    let fun = IrFun {
        symbol: Symbol::Fun("area".to_string()),
        params: vec![FunParam::SelfKw(Range::Builtin), param],
        return_ty: TyExpr("Int".to_string()),
        body: vec![],
        inner_functions: vec![],
        range: Range::Builtin,
    };
    assert_eq!(fun.name(), "area");
    let stub = FunStub::from_ir_function(FunSymbol(7), &fun);
    assert_eq!(stub.name, "area");
    assert_eq!(stub.symbol, FunSymbol(7));
    assert_eq!(stub.params, 2);
    assert_eq!(stub.return_ty.0, "Int");
}

#[test]
fn statements_convert_into_actions() {
    let kind = ActionKind::from(parse_stmt("break;"));
    assert!(matches!(kind, ActionKind::Break));
    let action: Action = parse_stmt("loop { continue; }").into();
    match action.1 {
        ActionKind::Loop(inner) => match inner.1 {
            ActionKind::Block(b) => {
                assert_eq!(b.len(), 1);
                assert!(matches!(b[0].1, ActionKind::Continue));
            },
            other => panic!("expected a block, got {:?}", other),
        },
        other => panic!("expected a loop, got {:?}", other),
    }
}
