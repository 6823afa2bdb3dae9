use helion::env::Env;

#[test]
fn fresh_env_binds_nothing() {
    let env: Env<i64> = Env::new();
    assert_eq!(env.get("x"), None);
}

#[test]
fn define_then_get() {
    let mut env: Env<i64> = Env::new();
    env.define("x".to_string(), 1);
    assert_eq!(env.get("x"), Some(1));
    env.define("x".to_string(), 2);
    assert_eq!(env.get("x"), Some(2));
    assert_eq!(env.get("y"), None);
}

#[test]
fn child_sees_parent_and_works_on_a_copy() {
    let mut env: Env<i64> = Env::new();
    env.define("x".to_string(), 1);
    let mut child = env.child();
    assert_eq!(child.get("x"), Some(1));
    child.define("x".to_string(), 2);
    assert_eq!(child.get("x"), Some(2));
    assert_eq!(env.get("x"), Some(1));
    child.define("y".to_string(), 3);
    assert_eq!(child.get("y"), Some(3));
    assert_eq!(env.get("y"), None);
}

#[test]
fn define_reaches_only_the_enclosing_scope() {
    let mut outer: Env<i64> = Env::new();
    outer.define("g".to_string(), 1);
    let mut middle = outer.child();
    let mut inner = middle.child();
    inner.define("g".to_string(), 5);
    assert_eq!(inner.get("g"), Some(5));
    // `g` was bound two scopes out, so `define` bound it in the innermost scope.
    let mut again = inner.clone();
    assert!(again.set("g", 7));
    assert_eq!(again.get("g"), Some(7));
    assert_eq!(inner.get("g"), Some(5));
}

#[test]
fn set_assigns_innermost_binding() {
    let mut env: Env<i64> = Env::new();
    env.define("x".to_string(), 1);
    let mut child = env.child();
    assert!(child.set("x", 10));
    assert_eq!(child.get("x"), Some(10));
    assert!(!child.set("nope", 3));
    assert_eq!(child.get("nope"), None);
}

#[test]
fn define_keeps_other_names() {
    let mut env: Env<i64> = Env::new();
    env.define("a".to_string(), 1);
    env.define("b".to_string(), 2);
    env.define("a".to_string(), 3);
    assert_eq!(env.get("a"), Some(3));
    assert_eq!(env.get("b"), Some(2));
    assert_eq!(env.get("c"), None);
}
