//! Tests of the scope store.

use mini_lang::environment::Environment;
use mini_lang::errors::RuntimeError;
use mini_lang::value::Value;

#[test]
fn define_then_get() {
    let mut env = Environment::new();
    env.define(0, "x".to_string(), Value::Int(1));
    assert_eq!(env.get(0, &"x".to_string()), Some(Value::Int(1)));
    env.define(0, "x".to_string(), Value::Int(2));
    assert_eq!(env.get(0, &"x".to_string()), Some(Value::Int(2)));
    assert_eq!(env.get(0, &"y".to_string()), None);
}

#[test]
fn child_sees_parent_and_shadows() {
    let mut env = Environment::default();
    env.define(0, "x".to_string(), Value::Int(1));
    let c = env.child(0);
    assert_eq!(c, 1);
    assert_eq!(env.len(), 2);
    assert_eq!(env.parent(c), Some(0));
    assert_eq!(env.parent(0), None);
    assert_eq!(env.get(c, &"x".to_string()), Some(Value::Int(1)));
    env.define(c, "x".to_string(), Value::Int(5));
    assert_eq!(env.get(c, &"x".to_string()), Some(Value::Int(5)));
    assert_eq!(env.get(0, &"x".to_string()), Some(Value::Int(1)));
}

#[test]
fn assign_walks_outwards() {
    let mut env = Environment::new();
    env.define(0, "x".to_string(), Value::Int(1));
    let c = env.child(0);
    assert_eq!(env.assign(c, &"x".to_string(), Value::Int(9)), Ok(()));
    assert_eq!(env.get(0, &"x".to_string()), Some(Value::Int(9)));
    assert_eq!(
        env.assign(c, &"nope".to_string(), Value::Null),
        Err(RuntimeError::UndefinedVar("nope".to_string()))
    );
}

#[test]
fn constants_refuse_assignment() {
    let mut env = Environment::new();
    env.define_const(0, "k".to_string(), Value::Int(3));
    let c = env.child(0);
    assert_eq!(
        env.assign(c, &"k".to_string(), Value::Int(4)),
        Err(RuntimeError::ReassignConst("k".to_string()))
    );
    assert_eq!(env.get(c, &"k".to_string()), Some(Value::Int(3)));
}

#[test]
fn store_with_bindings() {
    let env = Environment::with_bindings(vec![("a".to_string(), Value::Bool(true))]);
    assert_eq!(env.len(), 1);
    assert_eq!(env.get(0, &"a".to_string()), Some(Value::Bool(true)));
}
