use minic::env::{Environment, Object};
use minic::stdlib::Builtin;

#[test]
fn new_environment_binds_nothing() {
    let env = Environment::new();
    assert_eq!(env.len(), 1);
    assert_eq!(env.get(0, "x"), None);
}

#[test]
fn set_returns_the_value_and_binds_it() {
    let mut env = Environment::new();
    assert_eq!(env.set(0, "x".to_string(), Object::Integer(5)), Object::Integer(5));
    assert_eq!(env.get(0, "x"), Some(Object::Integer(5)));
    assert_eq!(env.get(0, "y"), None);
}

#[test]
fn set_again_replaces_the_binding() {
    let mut env = Environment::new();
    env.set(0, "x".to_string(), Object::Integer(5));
    env.set(0, "y".to_string(), Object::Boolean(true));
    env.set(0, "x".to_string(), Object::String("s".to_string()));
    assert_eq!(env.get(0, "x"), Some(Object::String("s".to_string())));
    assert_eq!(env.get(0, "y"), Some(Object::Boolean(true)));
}

#[test]
fn lookup_walks_outwards() {
    let mut env = Environment::new();
    env.set(0, "x".to_string(), Object::Integer(1));
    let inner = env.new_enclosed(0);
    let innermost = env.new_enclosed(inner);
    assert_eq!(inner, 1);
    assert_eq!(innermost, 2);
    env.set(inner, "y".to_string(), Object::Integer(2));
    assert_eq!(env.get(innermost, "x"), Some(Object::Integer(1)));
    assert_eq!(env.get(innermost, "y"), Some(Object::Integer(2)));
    assert_eq!(env.get(0, "y"), None);
}

#[test]
fn set_shadows_and_leaves_the_outer_binding() {
    let mut env = Environment::new();
    env.set(0, "x".to_string(), Object::Integer(1));
    let inner = env.new_enclosed(0);
    env.set(inner, "x".to_string(), Object::Integer(2));
    assert_eq!(env.get(inner, "x"), Some(Object::Integer(2)));
    assert_eq!(env.get(0, "x"), Some(Object::Integer(1)));
}

#[test]
fn sibling_scopes_do_not_see_each_other() {
    let mut env = Environment::new();
    let first = env.new_enclosed(0);
    let second = env.new_enclosed(0);
    env.set(first, "x".to_string(), Object::Integer(1));
    assert_eq!(env.get(second, "x"), None);
    assert_eq!(env.get(first, "x"), Some(Object::Integer(1)));
}

#[test]
fn scope_that_does_not_exist_binds_nothing() {
    let mut env = Environment::new();
    env.set(0, "x".to_string(), Object::Integer(1));
    assert_eq!(env.get(7, "x"), None);
}

#[test]
fn insert_binds_without_returning() {
    let mut env = Environment::new();
    env.insert(0, "x".to_string(), Object::Null);
    assert_eq!(env.get(0, "x"), Some(Object::Null));
}

#[test]
fn inspect_shows_values() {
    assert_eq!(Object::Integer(42).inspect(), "42");
    assert_eq!(Object::Integer(-7).inspect(), "-7");
    assert_eq!(Object::Integer(0).inspect(), "0");
    assert_eq!(Object::Integer(i64::MIN).inspect(), "-9223372036854775808");
    assert_eq!(Object::Integer(i64::MAX).inspect(), "9223372036854775807");
    assert_eq!(Object::String("hi there".to_string()).inspect(), "hi there");
    assert_eq!(Object::Boolean(true).inspect(), "true");
    assert_eq!(Object::Boolean(false).inspect(), "false");
    assert_eq!(Object::Null.inspect(), "null");
    assert_eq!(Object::Error("bad".to_string()).inspect(), "ERROR: bad");
    assert_eq!(Object::Builtin(Builtin::Puts).inspect(), "builtin function");
    assert_eq!(Object::File(3).inspect(), "file");
    assert_eq!(Object::ReturnValue(Box::new(Object::Integer(1))).inspect(), "1");
    assert_eq!(Object::Function(vec![], vec![], 0).inspect(), "fn() { ... }");
    assert_eq!(Object::Function(vec!["a".to_string()], vec![], 0).inspect(), "fn(a) { ... }");
    assert_eq!(
        Object::Function(vec!["a".to_string(), "b".to_string(), "c".to_string()], vec![], 0)
            .inspect(),
        "fn(a, b, c) { ... }"
    );
}

#[test]
fn debug_text_names_values() {
    assert_eq!(Object::Integer(5).debug_string(), "Integer(5)");
    assert_eq!(Object::String("a\"b".to_string()).debug_string(), "String(\"a\\\"b\")");
    assert_eq!(Object::Boolean(false).debug_string(), "Boolean(false)");
    assert_eq!(Object::Null.debug_string(), "Null");
    assert_eq!(Object::Error("e".to_string()).debug_string(), "Error(\"e\")");
    assert_eq!(
        Object::ReturnValue(Box::new(Object::Null)).debug_string(),
        "ReturnValue(Null)"
    );
    assert_eq!(
        Object::Function(vec!["a".to_string(), "b".to_string()], vec![], 4).debug_string(),
        "Function([\"a\", \"b\"])"
    );
    assert_eq!(Object::Builtin(Builtin::Fopen).debug_string(), "Builtin(fopen)");
    assert_eq!(Object::File(0).debug_string(), "File");
}

#[test]
fn equality_of_values() {
    assert_eq!(Object::Integer(1), Object::Integer(1));
    assert_ne!(Object::Integer(1), Object::Integer(2));
    assert_ne!(Object::Integer(1), Object::Boolean(true));
    assert_eq!(Object::Null, Object::Null);
    assert_eq!(Object::Error("a".to_string()), Object::Error("a".to_string()));
    assert_ne!(Object::Error("a".to_string()), Object::String("a".to_string()));
    assert_eq!(
        Object::ReturnValue(Box::new(Object::Integer(1))),
        Object::ReturnValue(Box::new(Object::Integer(1)))
    );
    assert_ne!(Object::ReturnValue(Box::new(Object::Integer(1))), Object::Integer(1));
}

#[test]
fn functions_are_equal_whatever_their_scope() {
    let first = Object::Function(vec!["a".to_string()], vec![], 1);
    let second = Object::Function(vec!["a".to_string()], vec![], 9);
    let third = Object::Function(vec!["b".to_string()], vec![], 1);
    assert_eq!(first, second);
    assert_ne!(first, third);
}

#[test]
fn builtins_and_files_equal_nothing() {
    assert_ne!(Object::Builtin(Builtin::Puts), Object::Builtin(Builtin::Puts));
    assert_ne!(Object::File(1), Object::File(1));
    let file = Object::File(2);
    assert!(!(file == file.clone()));
}

#[test]
fn clone_keeps_the_value() {
    let function = Object::Function(vec!["a".to_string()], vec![], 3);
    assert_eq!(function.clone(), function);
    assert_eq!(function.clone().debug_string(), function.debug_string());
    assert_eq!(Object::File(5).clone().inspect(), "file");
}

#[test]
fn release_discards_the_last_scope_unless_captured() {
    let mut env = Environment::new();
    let first = env.new_enclosed(0);
    let second = env.new_enclosed(first);
    env.release(first);
    assert_eq!(env.len(), 3);
    env.release(second);
    assert_eq!(env.len(), 2);
    env.capture(first);
    env.release(first);
    assert_eq!(env.len(), 2);
    env.release(0);
    assert_eq!(env.len(), 2);
}

#[test]
fn release_never_discards_the_global_scope() {
    let mut env = Environment::new();
    env.release(0);
    assert_eq!(env.len(), 1);
    env.release(5);
    assert_eq!(env.len(), 1);
}
