use helion::runtime::RuntimeError;

#[test]
fn runtime_errors_carry_their_details() {
    let e = RuntimeError::UndefinedVariable("main".to_string());
    assert_eq!(format!("{:?}", e), "UndefinedVariable(\"main\")");
    let t = RuntimeError::TypeError("call on non-function".to_string());
    match t {
        RuntimeError::TypeError(msg) => assert_eq!(msg, "call on non-function"),
        _ => panic!("wrong variant"),
    }
    assert!(matches!(RuntimeError::ReturnOutsideFunction, RuntimeError::ReturnOutsideFunction));
}

use helion::ast::{FunctionValue, Program, Stmt};
use helion::env::Env;
use helion::runtime::{bind_params, check_arity, function_declarations};

fn function(name: &str, params: &[&str]) -> Stmt {
    Stmt::Function {
        name: name.to_string(),
        params: params.iter().map(|p| p.to_string()).collect(),
        body: Box::new(Stmt::Block { stmts: vec![] }),
    }
}

#[test]
fn declarations_are_the_functions_in_order() {
    let program = Program {
        stmts: vec![
            function("main", &[]),
            Stmt::Block { stmts: vec![] },
            function("add", &["a", "b"]),
        ],
    };
    let decls = function_declarations(&program);
    let names: Vec<(String, Vec<String>)> =
        decls.iter().map(|(n, f): &(String, FunctionValue)| (n.clone(), f.params.clone())).collect();
    assert_eq!(
        names,
        vec![
            ("main".to_string(), vec![]),
            ("add".to_string(), vec!["a".to_string(), "b".to_string()]),
        ]
    );
}

#[test]
fn arity_must_match() {
    assert!(check_arity(2, 2).is_ok());
    match check_arity(1, 2) {
        Err(RuntimeError::TypeError(m)) => assert_eq!(m, "argument count mismatch"),
        other => panic!("unexpected {:?}", other),
    }
}

#[test]
fn params_are_bound_in_order() {
    let mut env: Env<i64> = Env::new();
    env.define("a".to_string(), 0);
    let mut local = env.child();
    bind_params(&mut local, &vec!["a".to_string(), "b".to_string()], vec![1, 2]);
    assert_eq!(local.get("a"), Some(1));
    assert_eq!(local.get("b"), Some(2));
    assert_eq!(env.get("a"), Some(0));
}
