use calvin_rs::compiler::eval::{call_builtin, eval_binop, Compiler};
use calvin_rs::compiler::value::{Host, Value};
use calvin_rs::compiler::EvalError;
use calvin_rs::expr::Literal;

/// Floating-point arithmetic and printing for the evaluator under test.
struct TestHost;

impl Host for TestHost {
    fn float_literal(&self, lit: &Literal) -> Value {
        match lit {
            Literal::Float(t) => Value::Float(t.parse::<f32>().unwrap().to_bits()),
            Literal::Double(t) => Value::Double(t.parse::<f64>().unwrap().to_bits()),
            _ => Value::Unit,
        }
    }

    fn float_binop(&self, op: &str, l: &Value, r: &Value) -> Result<Value, EvalError> {
        match (op, l, r) {
            ("+", Value::Double(a), Value::Double(b)) => {
                Ok(Value::Double((f64::from_bits(*a) + f64::from_bits(*b)).to_bits()))
            }
            ("*", Value::Float(a), Value::Float(b)) => {
                Ok(Value::Float((f32::from_bits(*a) * f32::from_bits(*b)).to_bits()))
            }
            ("<", Value::Double(a), Value::Double(b)) => Ok(Value::Bool(f64::from_bits(*a) < f64::from_bits(*b))),
            _ => Err(EvalError::Runtime(format!("Cannot apply operator '{}' to {} and {}", op, l.show(self), r.show(self)))),
        }
    }

    fn float_neg(&self, v: &Value) -> Value {
        match v {
            Value::Double(n) => Value::Double((-f64::from_bits(*n)).to_bits()),
            Value::Float(n) => Value::Float((-f32::from_bits(*n)).to_bits()),
            other => other.copy(),
        }
    }

    fn show_float(&self, v: &Value) -> String {
        match v {
            Value::Float(n) => format!("{}f", f32::from_bits(*n)),
            Value::Double(n) => {
                let x = f64::from_bits(*n);
                if x.fract() == 0.0 {
                    format!("{:.1}", x)
                } else {
                    format!("{}", x)
                }
            }
            _ => String::new(),
        }
    }

    fn print_line(&self, _text: &str) {}
}

/// Equality of values as the language defines it: numbers and strings by
/// value, arrays, records and variants by their parts, functions never.
fn same(a: &Value, b: &Value) -> bool {
    match (a, b) {
        (Value::Unit, Value::Unit) => true,
        (Value::Bool(x), Value::Bool(y)) => x == y,
        (Value::Char(x), Value::Char(y)) => x == y,
        (Value::Byte(x), Value::Byte(y)) => x == y,
        (Value::Short(x), Value::Short(y)) => x == y,
        (Value::Int(x), Value::Int(y)) => x == y,
        (Value::Long(x), Value::Long(y)) => x == y,
        (Value::Int128(x), Value::Int128(y)) => x == y,
        (Value::Float(x), Value::Float(y)) => f32::from_bits(*x) == f32::from_bits(*y),
        (Value::Double(x), Value::Double(y)) => f64::from_bits(*x) == f64::from_bits(*y),
        (Value::String(x), Value::String(y)) => x == y,
        (Value::Array(x), Value::Array(y)) => x.len() == y.len() && x.iter().zip(y.iter()).all(|(p, q)| same(p, q)),
        (Value::Record(x), Value::Record(y)) => {
            x.entries.len() == y.entries.len()
                && x.entries.iter().zip(y.entries.iter()).all(|(p, q)| p.0 == q.0 && same(&p.1, &q.1))
        }
        (Value::Variant(c, x), Value::Variant(d, y)) => c == d && same(x, y),
        _ => false,
    }
}

fn eval(input: &str) -> Result<Value, EvalError> {
    Compiler::new().eval_str(&TestHost, input)
}

fn assert_evals(input: &str, expected: Value) {
    let v = eval(input).unwrap_or_else(|e| panic!("{} failed: {}", input, e.to_string()));
    assert!(same(&v, &expected), "{} gave {}", input, v.show(&TestHost));
}

#[test]
fn test_eval_int_literal() {
    let cc = Compiler::new();
    let result = cc.eval_str(&TestHost, "42");
    assert!(same(&result.unwrap(), &Value::Int(42)));
}

#[test]
fn test_eval_bool_literal() {
    assert_evals("true", Value::Bool(true));
    assert_evals("false", Value::Bool(false));
}

#[test]
fn test_eval_string_literal() {
    assert_evals("\"hello\"", Value::String("hello".to_string()));
}

#[test]
fn test_eval_arithmetic() {
    assert_evals("1 + 2", Value::Int(3));
    assert_evals("10 - 3", Value::Int(7));
    assert_evals("4 * 5", Value::Int(20));
    assert_evals("10 / 3", Value::Int(3));
    assert_evals("10 % 3", Value::Int(1));
}

#[test]
fn test_eval_comparison() {
    assert_evals("1 == 1", Value::Bool(true));
    assert_evals("1 != 2", Value::Bool(true));
    assert_evals("1 < 2", Value::Bool(true));
    assert_evals("2 > 1", Value::Bool(true));
}

#[test]
fn test_eval_let() {
    assert_evals("let x = 42 in x", Value::Int(42));
    assert_evals("let x = 1 in let y = 2 in x + y", Value::Int(3));
}

#[test]
fn test_eval_if() {
    assert_evals("if true then 1 else 2", Value::Int(1));
    assert_evals("if false then 1 else 2", Value::Int(2));
}

#[test]
fn test_eval_lambda() {
    assert_evals("(\\x -> x + 1)(41)", Value::Int(42));
}

#[test]
fn test_eval_record() {
    let result = eval("{x = 1, y = 2}").unwrap();
    if let Value::Record(fields) = result {
        assert!(same(fields.get("x").unwrap(), &Value::Int(1)));
        assert!(same(fields.get("y").unwrap(), &Value::Int(2)));
    } else {
        panic!("Expected Record");
    }
}

#[test]
fn test_eval_record_projection() {
    assert_evals("{x = 42, y = 0}.x", Value::Int(42));
}

#[test]
fn test_eval_array() {
    assert_evals("[1, 2, 3]", Value::Array(vec![Value::Int(1), Value::Int(2), Value::Int(3)]));
}

#[test]
fn test_eval_match() {
    assert_evals("match 1 { 1 -> true, _ -> false }", Value::Bool(true));
    assert_evals("match 2 { 1 -> true, _ -> false }", Value::Bool(false));
}

#[test]
fn test_division_by_zero() {
    assert!(eval("1 / 0").is_err());
}

#[test]
fn test_value_display() {
    assert_eq!(Value::Int(42).show(&TestHost), "42");
    assert_eq!(Value::Bool(true).show(&TestHost), "true");
    assert_eq!(Value::String("hello".to_string()).show(&TestHost), "\"hello\"");
    assert_eq!(Value::Unit.show(&TestHost), "()");
}

#[test]
fn test_value_equality() {
    assert!(same(&Value::Int(42), &Value::Int(42)));
    assert!(!same(&Value::Int(42), &Value::Int(43)));
    assert!(!same(&Value::Int(42), &Value::Bool(true)));
}

#[test]
fn test_value_from_literal() {
    assert!(same(&Value::from_literal(&TestHost, &Literal::Int(42)), &Value::Int(42)));
    assert!(same(&Value::from_literal(&TestHost, &Literal::Bool(true)), &Value::Bool(true)));
}

#[test]
fn test_is_truthy() {
    assert!(Value::Bool(true).is_truthy());
    assert!(!Value::Bool(false).is_truthy());
    assert!(Value::Int(1).is_truthy());
    assert!(!Value::Int(0).is_truthy());
    assert!(!Value::Unit.is_truthy());
}

#[test]
fn test_type_name() {
    assert_eq!(Value::Int(42).value_type_name(), "int");
    assert_eq!(Value::Bool(true).value_type_name(), "bool");
    assert_eq!(Value::String("hi".to_string()).value_type_name(), "str");
}

#[test]
fn division_by_zero_is_its_own_error() {
    assert!(matches!(eval("1 / 0"), Err(EvalError::DivisionByZero)));
    assert!(matches!(eval("7 % 0"), Err(EvalError::DivisionByZero)));
}

#[test]
fn division_rounds_toward_zero() {
    assert_evals("0 - 7 / 2", Value::Int(-3));
    assert_evals("(0 - 7) / 2", Value::Int(-3));
    assert_evals("(0 - 7) % 2", Value::Int(-1));
}

#[test]
fn integer_arithmetic_wraps() {
    assert_evals("2147483647 + 1", Value::Int(-2147483648));
}

#[test]
fn unbound_variable_is_named() {
    match eval("nope") {
        Err(EvalError::UnboundVariable(n)) => assert_eq!(n, "nope"),
        other => panic!("unexpected {:?}", other.map(|v| v.show(&TestHost))),
    }
}

#[test]
fn closure_arity_is_checked() {
    match eval("(\\x y -> x)(1)") {
        Err(EvalError::ArityMismatch { expected, got }) => assert_eq!((expected, got), (2, 1)),
        other => panic!("unexpected {:?}", other.map(|v| v.show(&TestHost))),
    }
}

#[test]
fn condition_must_be_boolean() {
    match eval("if 1 then 2 else 3") {
        Err(e) => assert_eq!(e.to_string(), "Runtime error: Condition must be a boolean"),
        Ok(v) => panic!("unexpected {}", v.show(&TestHost)),
    }
}

#[test]
fn match_without_arm_fails() {
    assert!(matches!(eval("match 3 { 1 -> true }"), Err(EvalError::MatchFailure)));
}

#[test]
fn missing_field_is_named() {
    match eval("{x = 1}.y") {
        Err(EvalError::FieldNotFound(n)) => assert_eq!(n, "y"),
        other => panic!("unexpected {:?}", other.map(|v| v.show(&TestHost))),
    }
}

#[test]
fn mismatched_operands_are_reported() {
    match eval("1 + true") {
        Err(e) => assert_eq!(e.to_string(), "Runtime error: Cannot apply operator '+' to 1 and true"),
        Ok(v) => panic!("unexpected {}", v.show(&TestHost)),
    }
}

#[test]
fn builtins_compute() {
    assert_evals("strlen(\"héllo\")", Value::Long(6));
    assert_evals("concat(\"ab\", \"cd\")", Value::String("abcd".to_string()));
    assert_evals("length([1, 2, 3])", Value::Long(3));
    assert_evals("head([7, 8])", Value::Int(7));
    assert_evals("tail([7, 8, 9])", Value::Array(vec![Value::Int(8), Value::Int(9)]));
    assert_evals("show(42)", Value::String("42".to_string()));
}

#[test]
fn builtin_errors() {
    let h = TestHost;
    match call_builtin(&h, "head", vec![Value::Array(vec![])]) {
        Err(e) => assert_eq!(e.to_string(), "Runtime error: head of empty array"),
        Ok(_) => panic!("head of an empty array gave a value"),
    }
    assert!(matches!(call_builtin(&h, "length", vec![]), Err(EvalError::ArityMismatch { expected: 1, got: 0 })));
    assert!(matches!(
        call_builtin(&h, "concat", vec![Value::Int(1)]),
        Err(EvalError::ArityMismatch { expected: 2, got: 1 })
    ));
    match call_builtin(&h, "frobnicate", vec![]) {
        Err(e) => assert_eq!(e.to_string(), "Runtime error: Unknown built-in function: frobnicate"),
        Ok(_) => panic!("an unknown built-in gave a value"),
    }
    match call_builtin(&h, "strlen", vec![Value::Int(3)]) {
        Err(e) => assert_eq!(e.to_string(), "Runtime error: strlen expects a string"),
        Ok(_) => panic!("strlen of a number gave a value"),
    }
}

#[test]
fn floats_go_through_the_host() {
    assert_evals("1.5 + 2.0", Value::Double(3.5f64.to_bits()));
    let v = eval("1.5 < 2.5").unwrap();
    assert!(same(&v, &Value::Bool(true)));
    assert_eq!(eval("2.0").unwrap().show(&TestHost), "2.0");
    let r = eval_binop(&TestHost, "+", Value::Int(1), Value::Double(1.0f64.to_bits()));
    match r {
        Err(e) => assert_eq!(e.to_string(), "Runtime error: Cannot apply operator '+' to 1 and 1.0"),
        Ok(v) => panic!("unexpected {}", v.show(&TestHost)),
    }
}

#[test]
fn definitions_are_visible_later() {
    let h = TestHost;
    let mut cc = Compiler::new();
    cc.define(&h, "answer", "42").unwrap();
    let v = cc.eval_str(&h, "answer + 0").unwrap();
    assert!(same(&v, &Value::Int(42)));
    assert!(cc.bound_names().iter().any(|n| n == "answer"));
}

#[test]
fn compound_values_show_their_parts() {
    assert_evals("show([1, 2])", Value::String("[1, 2]".to_string()));
    assert_evals("show({y = true, x = 1})", Value::String("{x = 1, y = true}".to_string()));
    assert_eq!(eval("[\"a\", \"b\"]").unwrap().show(&TestHost), "[\"a\", \"b\"]");
}

#[test]
fn calling_a_non_function_fails() {
    let cc = Compiler::new();
    assert!(matches!(cc.apply(&TestHost, Value::Int(1), vec![Value::Int(2)], 10), Err(EvalError::NotAFunction)));
}

#[test]
fn unknown_builtin_through_application() {
    let cc = Compiler::new();
    match cc.apply(&TestHost, Value::BuiltinFn("+".to_string()), vec![Value::Int(1), Value::Int(2)], 10) {
        Err(e) => assert_eq!(e.to_string(), "Runtime error: Unknown built-in function: +"),
        Ok(v) => panic!("unexpected {}", v.show(&TestHost)),
    }
}
