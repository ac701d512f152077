use lib::compile::value::{Var, VarScope};
use lib::vm::symbol::{RegSymbol, Symbolic};

#[test]
fn test_reg_scope() {
    // Check that values are inserted correctly
    let mut reg_scope = VarScope::default();
    reg_scope.push_empty_scope();
    let a_sym = reg_scope.reserve_symbol();
    assert_eq!(a_sym, RegSymbol { global: 0, local: 0 });
    let a = Var::new("a".to_string(), a_sym);
    reg_scope.insert(a);
    let b_sym = reg_scope.reserve_symbol();
    assert_eq!(b_sym, RegSymbol { global: 0, local: 1 });
    let b = Var::new("b".to_string(), b_sym);
    reg_scope.insert(b);

    // Check that local layers can be added while still having access to parent layers
    reg_scope.push_empty_scope();
    let c_sym = reg_scope.reserve_symbol();
    assert_eq!(c_sym, RegSymbol { global: 1, local: 0 });
    let c = Var::new("c".to_string(), c_sym);
    reg_scope.insert(c);
    assert_eq!(reg_scope.get_by_name("a").unwrap().symbol(), a_sym);
    assert_eq!(reg_scope.get_by_name("c").unwrap().symbol(), c_sym);

    // Check that scope layers that have been shed don't yield old values
    reg_scope.pop_scope();
    assert_eq!(reg_scope.get_by_name("b").unwrap().symbol(), b_sym);
    assert!(reg_scope.get_by_name("c").is_none());

    // Check that using the same name in two sibling scopes yields the correct register
    reg_scope.push_empty_scope();
    assert!(reg_scope.get_by_name("c").is_none());
    let c_sym = reg_scope.reserve_symbol();
    assert_eq!(c_sym, RegSymbol { global: 2, local: 0 });
    let c = Var::new("c".to_string(), c_sym);
    reg_scope.insert(c);
    assert_eq!(reg_scope.get_by_name("c").unwrap().symbol(), c_sym);

    // Check that overriding values in the parent scope yields the correct register
    let new_a_sym = reg_scope.reserve_symbol();
    assert_eq!(new_a_sym, RegSymbol { global: 2, local: 1 });
    let a = Var::new("a".to_string(), new_a_sym);
    reg_scope.insert(a);
    assert_eq!(reg_scope.get_by_name("a").unwrap().symbol(), new_a_sym);

    // Check that anonymous symbols are inserted and freed correctly
    let anon_sym1 = reg_scope.insert_anonymous_var();
    reg_scope.free_anonymous_var(anon_sym1);
    let anon_sym2 = reg_scope.insert_anonymous_var();
    assert_eq!(anon_sym1, anon_sym2);

    // Check that overriden values are restored after the layer is shed
    reg_scope.pop_scope();
    assert_eq!(reg_scope.get_by_name("a").unwrap().symbol(), a_sym);

    // Check that anonymous symbols are not allocated to inappropriate scopes
    let anon_sym3 = reg_scope.insert_anonymous_var();
    assert_ne!(anon_sym1, anon_sym3);

    // Check that values are inserted or removed appropriately
    let old_a_sym = reg_scope.get_or_insert("a");
    assert_eq!(a_sym, old_a_sym);
    let new_d_sym = reg_scope.get_or_insert("d");
    assert_eq!(new_d_sym, RegSymbol { global: 0, local: 3 });
}
