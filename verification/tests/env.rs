use wlwl_eval::env::{new_cell, Cells, Env};
use wlwl_eval::value::Value;

fn iv(n: i64) -> Value {
    Value::Integer(n)
}

#[test]
fn set_local_then_get() {
    let mut cells = Cells::new();
    let mut env = Env::new();
    env.set_local(&mut cells, "x".to_string(), iv(1));
    assert_eq!(env.get(&cells, "x"), Some(&iv(1)));
    assert_eq!(env.get(&cells, "y"), None);
    env.set_local(&mut cells, "x".to_string(), iv(2));
    assert_eq!(env.get(&cells, "x"), Some(&iv(2)));
    assert_eq!(cells.len(), 2);
}

#[test]
fn inner_scope_shadows_and_pop_restores() {
    let mut cells = Cells::new();
    let mut env = Env::new();
    env.set_local(&mut cells, "x".to_string(), iv(1));
    env.push_scope();
    env.set_local(&mut cells, "x".to_string(), iv(2));
    assert_eq!(env.get(&cells, "x"), Some(&iv(2)));
    env.pop_scope();
    assert_eq!(env.get(&cells, "x"), Some(&iv(1)));
    // The global scope is never popped.
    env.pop_scope();
    env.pop_scope();
    assert_eq!(env.get(&cells, "x"), Some(&iv(1)));
}

#[test]
fn set_cell_value_respects_mutability() {
    let mut cells = Cells::new();
    let mut env = Env::new();
    env.set_local(&mut cells, "x".to_string(), iv(1));
    assert_eq!(env.set_cell_value(&mut cells, "x", iv(5)), Ok(false));
    assert_eq!(env.get(&cells, "x"), Some(&iv(1)));
    assert_eq!(env.set_cell_value(&mut cells, "nope", iv(5)), Err(()));
    env.upgrade_all_to_mutable(&mut cells);
    assert_eq!(env.set_cell_value(&mut cells, "x", iv(5)), Ok(true));
    assert_eq!(env.get(&cells, "x"), Some(&iv(5)));
}

#[test]
fn set_existing_ignores_mutability() {
    let mut cells = Cells::new();
    let mut env = Env::new();
    env.set_local(&mut cells, "x".to_string(), iv(1));
    env.push_scope();
    assert!(env.set_existing(&mut cells, "x", iv(3)));
    env.pop_scope();
    assert_eq!(env.get(&cells, "x"), Some(&iv(3)));
    assert!(!env.set_existing(&mut cells, "y", iv(3)));
}

#[test]
fn shared_cells_see_each_other() {
    let mut cells = Cells::new();
    let mut outer = Env::new();
    outer.set_local(&mut cells, "count".to_string(), iv(0));
    let c = outer.get_cell("count").unwrap();
    assert_eq!(c, 0);
    outer.upgrade_all_to_mutable(&mut cells);
    assert!(cells.binding(c).unwrap().mutable);
    assert_eq!(outer.set_cell_value(&mut cells, "count", iv(7)), Ok(true));
    assert_eq!(cells.binding(c).unwrap().value, iv(7));
    let fresh = new_cell(&mut cells, iv(9));
    assert_eq!(fresh, 1);
    assert!(!cells.binding(fresh).unwrap().mutable);
    assert!(cells.binding(5).is_none());
}

#[test]
fn names_lists_each_bound_name_once() {
    let mut cells = Cells::new();
    let mut env = Env::new();
    env.set_local(&mut cells, "a".to_string(), iv(1));
    env.push_scope();
    env.set_local(&mut cells, "a".to_string(), iv(2));
    env.set_local(&mut cells, "b".to_string(), iv(3));
    let mut names = env.names();
    names.sort();
    assert_eq!(names, vec!["a".to_string(), "b".to_string()]);
}
