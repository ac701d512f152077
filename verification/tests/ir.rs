use lib::ir::compile::scope::{Scope, VariableScope};
use lib::vm::scope::Scope as ValueScope;
use lib::vm::storage::Storage;
use lib::vm::symbol::{FunSymbol, VariableSymbol};

fn var(global: usize, local: usize) -> VariableSymbol {
    VariableSymbol { global, local }
}

#[test]
fn scope_searches_from_the_innermost_layer() {
    let mut scope: Scope<i32, FunSymbol> = Scope::new();
    scope.add_scope();
    scope.insert_values(vec![1, 2, 3]);
    scope.add_scope();
    assert_eq!(*scope.insert_value(20), 20);
    scope.insert_value(30);
    assert_eq!(scope.top(), &[20, 30]);
    assert_eq!(scope.lookup(|v: &i32| *v % 10 == 0), Some(&20));
    assert_eq!(scope.lookup(|v: &i32| *v < 3), Some(&1));
    assert_eq!(scope.lookup_one(|v: &i32| *v < 3), None);
    assert_eq!(scope.shed_scope(), vec![20, 30]);
    assert_eq!(scope.lookup(|v: &i32| *v % 10 == 0), None);
    scope.insert_symbol(FunSymbol(0), "main".to_string());
    scope.insert_symbol(FunSymbol(1), "helper".to_string());
    assert_eq!(scope.lookup_name(FunSymbol(1)), "helper");
    assert_eq!(scope.symbols(), &[FunSymbol(0), FunSymbol(1)]);
    assert_eq!(scope.names(), &["main".to_string(), "helper".to_string()]);
    assert_eq!(scope.into_names(), vec!["main".to_string(), "helper".to_string()]);
}

#[test]
fn variable_scope_numbers_variables() {
    let mut vars = VariableScope::new();
    vars.add_scope();
    let a = vars.insert_local_variable("a".to_string());
    let b = vars.lookup_or_insert_local("b");
    assert_eq!((a, b), (var(0, 0), var(1, 1)));
    assert_eq!(vars.lookup_or_insert_local("a"), a);
    assert_eq!(vars.lookup_local("b"), Some(b));
    assert_eq!(vars.lookup_local("c"), None);
    vars.add_scope();
    assert_eq!(vars.lookup_local("a"), None);
    let inner = vars.lookup_or_insert_local("a");
    assert_eq!(inner, var(2, 0));
    assert_eq!(vars.lookup_local_name(inner), Some("a"));
    assert_eq!(vars.lookup_local_name(b), None);
    let anon = vars.insert_anonymous_symbol();
    assert_eq!(anon, var(3, 1));
    assert_eq!(vars.scope().lookup_name(anon), "anonymous symbol #3");
    assert_eq!(vars.shed_scope(), vec![inner, anon]);
    assert_eq!(vars.lookup_local("a"), Some(a));
    let names = vars.into_names();
    assert_eq!(names, vec!["a", "b", "a", "anonymous symbol #3"]);
}

#[test]
fn value_scope_stores_by_local_index() {
    let mut scope = ValueScope::new(vec![var(5, 0), var(6, 1)], vec!["x", "y"]);
    assert!(!scope.is_empty());
    assert_eq!(scope.try_get(var(6, 1)), Some(&"y"));
    assert_eq!(scope.try_get(var(9, 1)), None);
    assert_eq!(scope.try_get(var(5, 2)), None);
    assert!(scope.try_set(var(5, 0), "z"));
    assert!(!scope.try_set(var(7, 0), "w"));
    assert_eq!(*scope.get(var(5, 0)), "z");
    scope.set(var(6, 1), "q");
    let other = ValueScope::new(vec![var(6, 1), var(5, 0), var(6, 1)], vec!["1", "2", "3"]);
    scope.update(other);
    assert_eq!(*scope.get(var(5, 0)), "2");
    assert_eq!(*scope.get(var(6, 1)), "3");
    let empty: ValueScope<i32> = ValueScope::new(vec![], vec![]);
    assert!(empty.is_empty());
}

#[test]
fn storage_is_a_stack() {
    let mut storage: Storage<u8> = Storage::default();
    assert_eq!(storage.peek_stack(), None);
    storage.push_stack(1);
    storage.push_stack(2);
    assert_eq!(storage.peek_stack(), Some(&2));
    assert_eq!(storage.pop_stack(), Some(2));
    assert_eq!(storage.pop_stack(), Some(1));
    assert_eq!(storage.pop_stack(), None);
}
