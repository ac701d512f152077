use lib::compile::allocator::{Alloc, BlockSymbolAlloc, FunSymbolAlloc, RegSymbolLayer};
use lib::compile::scope::{AllocScope, LabelScope};
use lib::compile::symbol::{NextSymbol, ReserveSymbol, TySymbolAlloc, VariableSymbolAlloc};
use lib::compile::value::VarScope;
use lib::compile::variable::Variable;
use lib::vm::label::Label;
use lib::vm::symbol::{BlockSymbol, FunSymbol, RegSymbol, Symbolic, TySymbol, VariableSymbol};

#[test]
fn symbol_allocators_hand_out_symbols_in_order() {
    let mut funs = FunSymbolAlloc::default();
    assert_eq!(funs.reserve(), FunSymbol(0));
    assert_eq!(funs.reserve(), FunSymbol(1));
    funs.on_push_scope();
    funs.on_pop_scope();
    assert_eq!(funs.reserve(), FunSymbol(2));
}

#[test]
fn register_layer_counts_local_slots() {
    let mut layer = RegSymbolLayer::new(4);
    assert_eq!(layer.reserve(), RegSymbol { global: 4, local: 0 });
    assert_eq!(layer.reserve(), RegSymbol { global: 4, local: 1 });
}

#[test]
fn type_symbols_follow_each_other() {
    assert_eq!(TySymbol(7).next_symbol(), TySymbol(8));
    assert_eq!(
        VariableSymbol { global: 1, local: 2 }.next_symbol(),
        VariableSymbol { global: 2, local: 3 }
    );
    let mut tys: TySymbolAlloc = TySymbolAlloc::new();
    assert_eq!(tys.reserve_symbol(), TySymbol(0));
    assert_eq!(tys.reserve_symbol(), TySymbol(1));
    assert_eq!(tys.next_symbol(), TySymbol(3));
}

#[test]
fn variable_allocator_restores_locals_after_a_scope() {
    let mut vars = VariableSymbolAlloc::default();
    assert_eq!(vars.reserve_symbol(), VariableSymbol { global: 0, local: 0 });
    assert_eq!(vars.reserve_symbol(), VariableSymbol { global: 1, local: 1 });
    vars.enter_scope();
    assert_eq!(vars.reserve_symbol(), VariableSymbol { global: 2, local: 0 });
    vars.exit_scope();
    assert_eq!(vars.reserve_symbol(), VariableSymbol { global: 3, local: 2 });
}

#[test]
fn variables_have_a_name_and_symbol() {
    let v = Variable("x".to_string(), VariableSymbol { global: 0, local: 5 });
    assert_eq!(v.name(), "x");
    assert_eq!(v.symbol(), VariableSymbol { global: 0, local: 5 });
}

#[test]
fn label_scope_registers_labels_by_block() {
    let mut labels: LabelScope = AllocScope::default();
    labels.push_empty_scope();
    let entry = labels.reserve_symbol();
    assert_eq!(entry, BlockSymbol(0));
    labels.insert(Label::new(entry, 0));
    let exit = labels.reserve_symbol();
    labels.push_scope(vec![Label::new(exit, 0x1a)]);
    assert_eq!(labels.scope().get_by_name("Label#1:1a").unwrap().pc, 0x1a);
    assert_eq!(labels.scope().get_by_name("Label#0:0").unwrap().symbol(), BlockSymbol(0));
    let popped = labels.pop_scope();
    assert_eq!(popped, vec![BlockSymbol(1)]);
    assert!(labels.scope().get_by_name("Label#1:1a").is_none());
    let replaced = labels.replace(Label::new(entry, 3));
    assert_eq!(replaced.pc, 0);
    assert_eq!(labels.scope().get_by_symbol(BlockSymbol(0)).unwrap().pc, 3);
    let mut blocks = BlockSymbolAlloc::default();
    assert_eq!(blocks.reserve(), BlockSymbol(0));
}

#[test]
fn anonymous_registers_are_named_and_reused_least_first() {
    let mut scope = VarScope::default();
    scope.push_empty_scope();
    let a = scope.insert_anonymous_var();
    let b = scope.insert_anonymous_var();
    let c = scope.insert_anonymous_var();
    assert_eq!((a.local, b.local, c.local), (0, 1, 2));
    assert_eq!(scope.get_by_name("anonvalue#1").unwrap().symbol(), b);
    scope.free_anonymous_var(c);
    scope.free_anonymous_var(a);
    // the least free register comes back first
    assert_eq!(scope.insert_anonymous_var(), a);
    assert_eq!(scope.insert_anonymous_var(), c);
    assert_eq!(scope.insert_anonymous_var().local, 3);
    for _ in 0..12 {
        scope.insert_anonymous_var();
    }
    assert_eq!(scope.get_by_name("anonvalue#f").unwrap().symbol().local, 15);
}

#[test]
fn free_registers_belong_to_their_layer() {
    let mut scope = VarScope::default();
    scope.push_empty_scope();
    let outer = scope.insert_anonymous_var();
    scope.push_empty_scope();
    scope.free_anonymous_var(outer);
    assert_eq!(scope.insert_anonymous_var(), outer);
    scope.free_anonymous_var(outer);
    scope.pop_scope();
    // the inner layer's pool went with it
    assert_ne!(scope.insert_anonymous_var(), outer);
}
