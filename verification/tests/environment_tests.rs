use lox::environment::Environments;
use lox::interpreter::Value;
use lox::num::Num;

fn number(n: i64) -> Value {
    Value::Number(Num { n, d: 1 })
}

#[test]
fn test_define() {
    let mut envs = Environments::new();
    let env = envs.new_env();
    envs.define(env, b"a".to_vec(), number(1));
    assert_eq!(envs.get(env, &b"a".to_vec()), Some(number(1)));
}

#[test]
fn test_get() {
    let mut envs = Environments::new();
    let env = envs.new_env();
    envs.define(env, b"a".to_vec(), number(1));
    assert_eq!(envs.get(env, &b"a".to_vec()), Some(number(1)));
}

#[test]
fn test_get_enclosing() {
    let mut envs = Environments::new();
    let env = envs.new_env();
    envs.define(env, b"a".to_vec(), number(1));
    let env2 = envs.new_with_enclosing(env);
    assert_eq!(envs.get(env2, &b"a".to_vec()), Some(number(1)));
}

#[test]
fn test_assign_enclosing() {
    let mut envs = Environments::new();
    let env = envs.new_env();
    envs.define(env, b"a".to_vec(), number(1));
    let env2 = envs.new_with_enclosing(env);
    envs.assign(env2, &b"a".to_vec(), number(2)).unwrap();
    assert_eq!(envs.get(env2, &b"a".to_vec()), Some(number(2)));
}

#[test]
fn test_assign_enclosing_undefined() {
    let mut envs = Environments::new();
    let env = envs.new_env();
    envs.define(env, b"a".to_vec(), number(1));
    let env2 = envs.new_with_enclosing(env);
    envs.define(env2, b"b".to_vec(), number(2));
    assert_eq!(envs.get(env2, &b"b".to_vec()), Some(number(2)));
    assert_eq!(envs.get(env2, &b"a".to_vec()), Some(number(1)));
    assert_eq!(envs.get(env, &b"a".to_vec()), Some(number(1)));
    let result = envs.assign(env2, &b"a".to_vec(), number(3));
    assert!(result.is_ok());
    assert_eq!(envs.get(env, &b"a".to_vec()), Some(number(3)));
}

#[test]
fn test_assign() {
    let mut envs = Environments::new();
    let env = envs.new_env();
    envs.define(env, b"a".to_vec(), number(1));
    envs.assign(env, &b"a".to_vec(), number(2)).unwrap();
    assert_eq!(envs.get(env, &b"a".to_vec()), Some(number(2)));
}

#[test]
fn assign_to_unbound_name_fails() {
    let mut envs = Environments::new();
    let env = envs.new_env();
    let result = envs.assign(env, &b"a".to_vec(), number(1));
    match result {
        Err(lox::interpreter::RuntimeError::UndefinedVariable(n)) => {
            assert_eq!(n, b"a".to_vec());
        }
        _ => panic!("Expected UndefinedVariable"),
    }
}

#[test]
fn inner_scope_shadows_outer() {
    let mut envs = Environments::new();
    let outer = envs.new_env();
    envs.define(outer, b"a".to_vec(), number(1));
    let inner = envs.new_with_enclosing(outer);
    envs.define(inner, b"a".to_vec(), number(2));
    assert_eq!(envs.get(inner, &b"a".to_vec()), Some(number(2)));
    assert_eq!(envs.get(outer, &b"a".to_vec()), Some(number(1)));
}
