use calvin_rs::compiler::{Env, EvalError};
use calvin_rs::types::infer::TypeError;
use calvin_rs::types::MonoType;

#[test]
fn runtime_scopes() {
    let mut outer: Env<i64> = Env::new();
    assert_eq!(outer.lookup("x"), None);
    outer.bind("x", 1);
    outer.bind("y", 2);
    outer.bind("x", 10);
    assert_eq!(outer.lookup("x"), Some(&10));

    let mut inner = Env::child(outer.clone());
    assert_eq!(inner.lookup("y"), Some(&2));
    inner.bind("y", 20);
    inner.bind("z", 30);
    assert_eq!(inner.lookup("y"), Some(&20));
    assert_eq!(outer.lookup("y"), Some(&2));
    assert_eq!(outer.lookup("z"), None);

    let all = inner.all_bindings();
    let listed: Vec<(String, i64)> = all.entries.clone();
    assert_eq!(
        listed,
        vec![("x".to_string(), 10), ("y".to_string(), 20), ("z".to_string(), 30)]
    );

    let copy = inner.clone();
    assert_eq!(copy.lookup("y"), Some(&20));
    assert_eq!(copy.lookup("x"), Some(&10));
    let empty: Env<i64> = Env::default();
    assert_eq!(empty.all_bindings().len(), 0);
}

#[test]
fn eval_error_messages() {
    assert_eq!(EvalError::UnboundVariable("x".to_string()).to_string(), "Unbound variable: x");
    assert_eq!(EvalError::NotAFunction.to_string(), "Not a function");
    assert_eq!(EvalError::ArityMismatch { expected: 2, got: 1 }.to_string(), "Arity mismatch: expected 2, got 1");
    assert_eq!(EvalError::MatchFailure.to_string(), "Pattern match failure");
    assert_eq!(EvalError::DivisionByZero.to_string(), "Division by zero");
    assert_eq!(
        EvalError::IndexOutOfBounds { index: 5, length: 3 }.to_string(),
        "Index out of bounds: 5 (length 3)"
    );
    assert_eq!(EvalError::FieldNotFound("y".to_string()).to_string(), "Field not found: y");
    assert_eq!(EvalError::Runtime("boom".to_string()).to_string(), "Runtime error: boom");
    let te = TypeError::UnificationFailure(MonoType::Int, MonoType::Bool);
    let inner = te.to_string();
    assert_eq!(EvalError::TypeError(te).to_string(), format!("Type error: {}", inner));
}
