use lib::common::lang::Op;
use lib::compile::function::FunStub;
use lib::compile::ty::{Ty, TyStub};
use lib::common::pos::{Range, Ranged};
use lib::ir::symbol::Symbol;
use lib::ir::ty::TyExpr;
use lib::syntax::token::Token;
use lib::vm::condition::CompareOp;
use lib::vm::function::UserFun;
use lib::vm::label::Label;
use lib::vm::symbol::{BlockSymbol, FunSymbol, Symbol as _, Symbolic, TySymbol};
use lib::vm::ty::{BuiltinTy, Ty as VmTy, UserTy};
use lib::vm::value::StringSymbol;

#[test]
fn labels_are_named_by_block_and_position() {
    let l = Label::new(BlockSymbol(255), 16);
    assert_eq!(l.name, "Label#ff:10");
    assert_eq!(l.name(), "Label#ff:10");
    assert_eq!(l.symbol(), BlockSymbol(255));
    assert_eq!(Label::new(BlockSymbol(0), 0).name, "Label#0:0");
}

#[test]
fn builtin_types_have_names() {
    assert_eq!(BuiltinTy::Str.name(), "Str");
    assert_eq!(BuiltinTy::Int.name(), "Int");
    assert_eq!(BuiltinTy::Float.name(), "Float");
    assert_eq!(BuiltinTy::Bool.name(), "Bool");
    assert_eq!(BuiltinTy::NoneTy.name(), "None");
    let t = VmTy::Builtin(BuiltinTy::Int, TySymbol(3));
    assert_eq!(t.name(), "Int");
    assert_eq!(t.symbol(), TySymbol(3));
    let u = VmTy::User(UserTy { name: "Point".to_string(), symbol: TySymbol(9) });
    assert_eq!(u.name(), "Point");
}

#[test]
fn compile_types_name_their_stub_or_vm_type() {
    let stub = Ty::Stub(TyStub { name: "Shape".to_string(), symbol: TySymbol(1), range: Range::Builtin });
    assert_eq!(stub.name(), "Shape");
    assert_eq!(stub.symbol(), TySymbol(1));
    assert_eq!(stub.range(), Range::Builtin);
    let vm = Ty::Vm(VmTy::Builtin(BuiltinTy::Bool, TySymbol(2)));
    assert_eq!(vm.name(), "Bool");
    assert_eq!(vm.range(), Range::Builtin);
    let f = FunStub {
        name: "f".to_string(),
        symbol: FunSymbol(4),
        params: 2,
        return_ty: TyExpr("Int".to_string()),
        range: Range::Builtin,
    };
    assert_eq!(f.name(), "f");
    assert_eq!(f.symbol(), FunSymbol(4));
    let user = UserFun { symbol: FunSymbol(5), name: "g".to_string(), params: 0 };
    assert_eq!(user.name(), "g");
}

#[test]
fn comparison_operators_convert() {
    assert_eq!(CompareOp::from_syntax(&Op::Or), Some(CompareOp::Or));
    assert_eq!(CompareOp::from_syntax(&Op::And), Some(CompareOp::And));
    assert_eq!(CompareOp::from_syntax(&Op::DoubleEquals), Some(CompareOp::Equals));
    assert_eq!(CompareOp::from_syntax(&Op::DoubleTilde), Some(CompareOp::FuzzyEquals));
    assert_eq!(CompareOp::from_syntax(&Op::NotEquals), Some(CompareOp::NotEquals));
    assert_eq!(CompareOp::from_syntax(&Op::LessEquals), Some(CompareOp::LessEquals));
    assert_eq!(CompareOp::from_syntax(&Op::GreaterEquals), Some(CompareOp::GreaterEquals));
    assert_eq!(CompareOp::from_syntax(&Op::Less), Some(CompareOp::Less));
    assert_eq!(CompareOp::from_syntax(&Op::Greater), Some(CompareOp::Greater));
}

#[test]
fn symbols_from_tokens() {
    let v = Symbol::from_token(&Token::Variable("x".to_string()));
    assert!(matches!(v, Symbol::Variable(ref n) if n == "x"));
    let t = Symbol::from_token(&Token::Bareword("Point".to_string()));
    assert!(matches!(t, Symbol::Ty(ref n) if n == "Point"));
    let f = Symbol::from_token(&Token::Bareword("print".to_string()));
    assert!(matches!(f, Symbol::Fun(ref n) if n == "print"));
    assert_eq!(t.name(), "Point");
    assert_eq!(f.name(), "print");
    assert_eq!(v.name(), "x");
}

#[test]
fn string_symbols_index_their_pool() {
    let s = StringSymbol(3);
    assert_eq!(s.index(), 3);
    assert_eq!(s.next(), StringSymbol(4));
    assert!(s.before(&StringSymbol(4)));
    assert!(s.same(&StringSymbol(3)));
}
