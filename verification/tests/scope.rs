//! The scope store.

use stacklang::scope::VarStore;
use stacklang::Operand;

#[test]
fn a_new_store_knows_no_name() {
    let store = VarStore::new();
    assert_eq!(store.get_var("x"), None);
    assert_eq!(store.get_func("x"), None);
    assert_eq!(store.depth(), 0);
}

#[test]
fn a_name_has_the_value_it_was_bound_to_last() {
    let mut store = VarStore::new();
    store.set_var("x".to_string(), Operand::Int(1));
    store.set_var("y".to_string(), Operand::Bool(true));
    assert_eq!(store.get_var("x"), Some(Operand::Int(1)));
    assert_eq!(store.get_var("y"), Some(Operand::Bool(true)));
    store.set_var("x".to_string(), Operand::String("one".to_string()));
    assert_eq!(store.get_var("x"), Some(Operand::String("one".to_string())));
    assert_eq!(store.get_var("y"), Some(Operand::Bool(true)));
    assert_eq!(store.get_var(""), None);
}

#[test]
fn the_innermost_scope_that_binds_a_name_decides() {
    let mut store = VarStore::new();
    store.set_var("x".to_string(), Operand::Int(1));
    store.set_var("g".to_string(), Operand::Int(10));
    store.new_scope();
    assert_eq!(store.depth(), 1);
    assert_eq!(store.get_var("x"), Some(Operand::Int(1)));
    store.set_var("x".to_string(), Operand::Int(2));
    assert_eq!(store.get_var("x"), Some(Operand::Int(2)));
    store.new_scope();
    assert_eq!(store.get_var("x"), Some(Operand::Int(2)));
    assert_eq!(store.get_var("g"), Some(Operand::Int(10)));
    store.set_var("x".to_string(), Operand::Int(3));
    assert_eq!(store.get_var("x"), Some(Operand::Int(3)));
    store.destroy_scope();
    assert_eq!(store.get_var("x"), Some(Operand::Int(2)));
    store.destroy_scope();
    assert_eq!(store.get_var("x"), Some(Operand::Int(1)));
    assert_eq!(store.depth(), 0);
}

#[test]
fn a_binding_never_reaches_an_outer_scope() {
    let mut store = VarStore::new();
    store.set_var("x".to_string(), Operand::Int(1));
    store.new_scope();
    store.set_var("x".to_string(), Operand::Int(2));
    store.set_var("local".to_string(), Operand::Int(3));
    store.destroy_scope();
    assert_eq!(store.get_var("x"), Some(Operand::Int(1)));
    assert_eq!(store.get_var("local"), None);
}

#[test]
fn functions_are_kept_apart_from_variables() {
    let mut store = VarStore::new();
    store.set_func("f".to_string(), 12);
    store.set_var("v".to_string(), Operand::Int(1));
    assert_eq!(store.get_func("f"), Some(12));
    assert_eq!(store.get_var("f"), None);
    assert_eq!(store.get_func("v"), None);
    store.set_func("f".to_string(), 30);
    assert_eq!(store.get_func("f"), Some(30));
    store.new_scope();
    assert_eq!(store.get_func("f"), Some(30));
    store.destroy_scope();
    assert_eq!(store.get_func("f"), Some(30));
}
