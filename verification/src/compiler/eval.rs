//! The tree-walking evaluator.
//!
//! Evaluation takes a `fuel` bound on its nesting, one unit per step down;
//! the evaluator runs with `u64::MAX`. Integer arithmetic wraps around on
//! overflow. Whatever computes on floating-point numbers is asked of the
//! `Host`.

use vstd::prelude::*;
use super::{Env, EvalError, error_text};
use super::value::{Value, Host, literal_value, is_float_literal, is_scalar, scalar_text, names, float_free,
    value_text};
use crate::expr::{Expr, Pattern, Literal, Spanned, Qualifier, ComprehensionExpr, MatchArm};
use crate::expr::copy::{copy_node, copy_names};
use crate::name_map::NameMap;
use crate::types::env::{TypeEnv, default_type_env};
use crate::text::{owned, push_str};
use vstd::utf8::encode_utf8;

verus! {

/// The names bound to built-in functions in a new evaluator.
pub open spec fn builtin_names() -> Seq<Seq<char>> {
    seq![
        "+"@, "-"@, "*"@, "/"@, "%"@, "=="@, "!="@, "<"@, ">"@, "<="@, ">="@, "&&"@, "||"@, "!"@,
        "strlen"@, "show"@, "print"@, "concat"@, "length"@, "head"@, "tail"@, "map"@, "filter"@, "fold"@,
    ]
}

/// The magnitude of `a`.
pub open spec fn abs(a: int) -> int {
    if a < 0 { -a } else { a }
}

/// Division rounding toward zero.
pub open spec fn tdiv(a: int, b: int) -> int {
    let q = abs(a) / abs(b);
    if (a < 0) != (b < 0) { -q } else { q }
}

/// The remainder of division rounding toward zero.
pub open spec fn trem(a: int, b: int) -> int {
    a - b * tdiv(a, b)
}

/// Whether `op` on `l` and `r` is computed by the host: arithmetic on two
/// `double`s or two `float`s, or comparing two `double`s.
pub open spec fn float_arm(op: Seq<char>, l: Value, r: Value) -> bool {
    ||| (l is Double && r is Double && (op == "+"@ || op == "-"@ || op == "*"@ || op == "/"@ || op == "=="@
        || op == "!="@ || op == "<"@ || op == ">"@))
    ||| (l is Float && r is Float && (op == "+"@ || op == "-"@ || op == "*"@ || op == "/"@))
}

/// Whether `op` on `l` and `r` gives `res` without floating-point numbers;
/// false when no such rule applies.
pub open spec fn binop_gives(op: Seq<char>, l: Value, r: Value, res: Result<Value, EvalError>) -> bool {
    match (l, r) {
        (Value::Int(a), Value::Int(b)) => {
            if op == "+"@ {
                res == Ok::<Value, EvalError>(Value::Int((a + b) as i32))
            } else if op == "-"@ {
                res == Ok::<Value, EvalError>(Value::Int((a - b) as i32))
            } else if op == "*"@ {
                res == Ok::<Value, EvalError>(Value::Int((a * b) as i32))
            } else if op == "/"@ {
                if b == 0 {
                    res == Err::<Value, EvalError>(EvalError::DivisionByZero)
                } else {
                    res == Ok::<Value, EvalError>(Value::Int(tdiv(a as int, b as int) as i32))
                }
            } else if op == "%"@ {
                if b == 0 {
                    res == Err::<Value, EvalError>(EvalError::DivisionByZero)
                } else {
                    res == Ok::<Value, EvalError>(Value::Int(trem(a as int, b as int) as i32))
                }
            } else if op == "=="@ {
                res == Ok::<Value, EvalError>(Value::Bool(a == b))
            } else if op == "!="@ {
                res == Ok::<Value, EvalError>(Value::Bool(a != b))
            } else if op == "<"@ {
                res == Ok::<Value, EvalError>(Value::Bool(a < b))
            } else if op == ">"@ {
                res == Ok::<Value, EvalError>(Value::Bool(a > b))
            } else if op == "<="@ {
                res == Ok::<Value, EvalError>(Value::Bool(a <= b))
            } else if op == ">="@ {
                res == Ok::<Value, EvalError>(Value::Bool(a >= b))
            } else {
                false
            }
        },
        (Value::Long(a), Value::Long(b)) => {
            if op == "+"@ {
                res == Ok::<Value, EvalError>(Value::Long((a + b) as i64))
            } else if op == "-"@ {
                res == Ok::<Value, EvalError>(Value::Long((a - b) as i64))
            } else if op == "*"@ {
                res == Ok::<Value, EvalError>(Value::Long((a * b) as i64))
            } else if op == "/"@ {
                if b == 0 {
                    res == Err::<Value, EvalError>(EvalError::DivisionByZero)
                } else {
                    res == Ok::<Value, EvalError>(Value::Long(tdiv(a as int, b as int) as i64))
                }
            } else if op == "=="@ {
                res == Ok::<Value, EvalError>(Value::Bool(a == b))
            } else if op == "!="@ {
                res == Ok::<Value, EvalError>(Value::Bool(a != b))
            } else if op == "<"@ {
                res == Ok::<Value, EvalError>(Value::Bool(a < b))
            } else if op == ">"@ {
                res == Ok::<Value, EvalError>(Value::Bool(a > b))
            } else {
                false
            }
        },
        (Value::String(a), Value::String(b)) => {
            if op == "+"@ {
                res matches Ok(Value::String(s)) && s@ == a@ + b@
            } else if op == "=="@ {
                res == Ok::<Value, EvalError>(Value::Bool(a@ == b@))
            } else if op == "!="@ {
                res == Ok::<Value, EvalError>(Value::Bool(a@ != b@))
            } else {
                false
            }
        },
        (Value::Bool(a), Value::Bool(b)) => {
            if op == "=="@ {
                res == Ok::<Value, EvalError>(Value::Bool(a == b))
            } else if op == "!="@ {
                res == Ok::<Value, EvalError>(Value::Bool(a != b))
            } else if op == "&&"@ {
                res == Ok::<Value, EvalError>(Value::Bool(a && b))
            } else if op == "||"@ {
                res == Ok::<Value, EvalError>(Value::Bool(a || b))
            } else {
                false
            }
        },
        _ => false,
    }
}

/// Whether some rule of `binop_gives` applies to `op`, `l` and `r`.
pub open spec fn binop_rule(op: Seq<char>, l: Value, r: Value) -> bool {
    match (l, r) {
        (Value::Int(_), Value::Int(_)) => op == "+"@ || op == "-"@ || op == "*"@ || op == "/"@ || op == "%"@
            || op == "=="@ || op == "!="@ || op == "<"@ || op == ">"@ || op == "<="@ || op == ">="@,
        (Value::Long(_), Value::Long(_)) => op == "+"@ || op == "-"@ || op == "*"@ || op == "/"@ || op == "=="@
            || op == "!="@ || op == "<"@ || op == ">"@,
        (Value::String(_), Value::String(_)) => op == "+"@ || op == "=="@ || op == "!="@,
        (Value::Bool(_), Value::Bool(_)) => op == "=="@ || op == "!="@ || op == "&&"@ || op == "||"@,
        _ => false,
    }
}

/// What `op` on `l` and `r` gives, by value or by the error's message;
/// `None` where the host computes it, where it builds a new string, or
/// where an operand holds a floating-point number.
pub open spec fn binop_outcome(op: Seq<char>, l: Value, r: Value) -> Option<Result<Value, Seq<char>>> {
    match (l, r) {
        (Value::Int(a), Value::Int(b)) => {
            if op == "+"@ {
                Some(Ok(Value::Int((a + b) as i32)))
            } else if op == "-"@ {
                Some(Ok(Value::Int((a - b) as i32)))
            } else if op == "*"@ {
                Some(Ok(Value::Int((a * b) as i32)))
            } else if (op == "/"@ || op == "%"@) && b == 0 {
                Some(Err("Division by zero"@))
            } else if op == "/"@ {
                Some(Ok(Value::Int(tdiv(a as int, b as int) as i32)))
            } else if op == "%"@ {
                Some(Ok(Value::Int(trem(a as int, b as int) as i32)))
            } else if op == "=="@ {
                Some(Ok(Value::Bool(a == b)))
            } else if op == "!="@ {
                Some(Ok(Value::Bool(a != b)))
            } else if op == "<"@ {
                Some(Ok(Value::Bool(a < b)))
            } else if op == ">"@ {
                Some(Ok(Value::Bool(a > b)))
            } else if op == "<="@ {
                Some(Ok(Value::Bool(a <= b)))
            } else if op == ">="@ {
                Some(Ok(Value::Bool(a >= b)))
            } else {
                Some(Err(cannot_apply_text(op, l, r)))
            }
        },
        (Value::Long(a), Value::Long(b)) => {
            if op == "+"@ {
                Some(Ok(Value::Long((a + b) as i64)))
            } else if op == "-"@ {
                Some(Ok(Value::Long((a - b) as i64)))
            } else if op == "*"@ {
                Some(Ok(Value::Long((a * b) as i64)))
            } else if op == "/"@ && b == 0 {
                Some(Err("Division by zero"@))
            } else if op == "/"@ {
                Some(Ok(Value::Long(tdiv(a as int, b as int) as i64)))
            } else if op == "=="@ {
                Some(Ok(Value::Bool(a == b)))
            } else if op == "!="@ {
                Some(Ok(Value::Bool(a != b)))
            } else if op == "<"@ {
                Some(Ok(Value::Bool(a < b)))
            } else if op == ">"@ {
                Some(Ok(Value::Bool(a > b)))
            } else {
                Some(Err(cannot_apply_text(op, l, r)))
            }
        },
        (Value::String(a), Value::String(b)) => {
            if op == "+"@ {
                None
            } else if op == "=="@ {
                Some(Ok(Value::Bool(a@ == b@)))
            } else if op == "!="@ {
                Some(Ok(Value::Bool(a@ != b@)))
            } else {
                Some(Err(cannot_apply_text(op, l, r)))
            }
        },
        (Value::Bool(a), Value::Bool(b)) => {
            if op == "=="@ {
                Some(Ok(Value::Bool(a == b)))
            } else if op == "!="@ {
                Some(Ok(Value::Bool(a != b)))
            } else if op == "&&"@ {
                Some(Ok(Value::Bool(a && b)))
            } else if op == "||"@ {
                Some(Ok(Value::Bool(a || b)))
            } else {
                Some(Err(cannot_apply_text(op, l, r)))
            }
        },
        _ => if float_arm(op, l, r) || !float_free(l) || !float_free(r) {
            None
        } else {
            Some(Err(cannot_apply_text(op, l, r)))
        },
    }
}

/// The message of the error for `op` not applying to `l` and `r`.
pub open spec fn cannot_apply_text(op: Seq<char>, l: Value, r: Value) -> Seq<char> {
    "Runtime error: "@ + ("Cannot apply operator '"@ + op + "' to "@ + value_text(l) + " and "@ + value_text(r))
}

/// What the unary operator `op` on `v` gives, by value or by the error's
/// message; `None` where the host computes it or `v` holds a
/// floating-point number.
pub open spec fn unary_outcome(op: Seq<char>, v: Value) -> Option<Result<Value, Seq<char>>> {
    if op == "!"@ && v is Bool {
        Some(Ok(Value::Bool(!v->Bool_0)))
    } else if op == "-"@ && v is Int {
        Some(Ok(Value::Int((-v->Int_0) as i32)))
    } else if op == "-"@ && v is Long {
        Some(Ok(Value::Long((-v->Long_0) as i64)))
    } else if (op == "-"@ && (v is Double || v is Float)) || !float_free(v) {
        None
    } else {
        Some(Err("Runtime error: "@ + ("Cannot apply unary operator '"@ + op + "' to "@ + value_text(v))))
    }
}

/// What evaluation knows of a bound value: the value itself when it holds
/// no function, array, record, variant or floating-point number.
pub open spec fn known(v: Value) -> Option<Value> {
    if is_scalar(v) && !(v is Closure) {
        Some(v)
    } else {
        None
    }
}

/// The bound names of an environment, with what evaluation knows of each.
pub open spec fn known_env(m: Map<Seq<char>, Value>) -> Map<Seq<char>, Option<Value>> {
    Map::new(|k: Seq<char>| m.contains_key(k), |k: Seq<char>| known(m[k]))
}

/// `r` is the outcome `o`: the same value, or an error with that message.
pub open spec fn agrees(r: Result<Value, EvalError>, o: Result<Value, Seq<char>>) -> bool {
    match o {
        Ok(v) => r == Ok::<Value, EvalError>(v),
        Err(t) => r matches Err(e) && error_text(e) == t,
    }
}

/// The evaluation of `e` in `env` with `fuel` steps of nesting: its value,
/// or the message of the error it fails with. Literals, variables, `let`,
/// `letrec`, `if`, `do`, `match`, operators, variants, projection from a
/// record (`spec_record`), annotations, pack/unpack and calls of built-ins
/// are evaluated here; `None` stands for what this model leaves open:
/// floating-point numbers (computed by the host), closures, arrays,
/// comprehensions, new strings, and values bound to names that hold a
/// function, an array, a record or a variant.
pub open spec fn spec_eval(e: Expr, env: Map<Seq<char>, Option<Value>>, fuel: nat) -> Option<Result<Value, Seq<char>>>
    decreases fuel, 0nat, 0nat,
{
    if fuel == 0 {
        Some(Err("Runtime error: "@ + "evaluation nested too deeply"@))
    } else {
        let f = (fuel - 1) as nat;
        match e {
            Expr::Lit(l) => if is_float_literal(l) {
                None
            } else {
                Some(Ok(literal_value(l)))
            },
            Expr::Var(n) => if env.contains_key(n@) {
                match env[n@] {
                    Some(v) => Some(Ok(v)),
                    None => None,
                }
            } else {
                Some(Err("Unbound variable: "@ + n@))
            },
            Expr::Let(n, a, b) => match spec_eval(a.node, env, f) {
                Some(Ok(v)) => spec_eval(b.node, env.insert(n@, known(v)), f),
                other => other,
            },
            Expr::Unpack(_, n, a, b) => match spec_eval(a.node, env, f) {
                Some(Ok(v)) => spec_eval(b.node, env.insert(n@, known(v)), f),
                other => other,
            },
            Expr::If(c, t, el) => match spec_eval(c.node, env, f) {
                Some(Ok(Value::Bool(b))) => if b {
                    spec_eval(t.node, env, f)
                } else {
                    spec_eval(el.node, env, f)
                },
                Some(Ok(_)) => Some(Err("Runtime error: "@ + "Condition must be a boolean"@)),
                other => other,
            },
            Expr::BinOp(op, a, b) => match spec_eval(a.node, env, f) {
                Some(Ok(lv)) => match spec_eval(b.node, env, f) {
                    Some(Ok(rv)) => binop_outcome(op@, lv, rv),
                    other => other,
                },
                other => other,
            },
            Expr::UnaryOp(op, a) => match spec_eval(a.node, env, f) {
                Some(Ok(v)) => unary_outcome(op@, v),
                other => other,
            },
            Expr::MkVariant(c, a) => match spec_eval(a.node, env, f) {
                Some(Ok(v)) => Some(Ok(Value::Variant(c, Box::new(v)))),
                other => other,
            },
            Expr::Project(a, k) => match spec_record(a.node, env, f) {
                Some(Ok(m)) => if m.contains_key(k@) {
                    match known(m[k@]) {
                        Some(x) => Some(Ok(x)),
                        None => None,
                    }
                } else {
                    Some(Err("Field not found: "@ + k@))
                },
                Some(Err(t)) => Some(Err(t)),
                None => match spec_eval(a.node, env, f) {
                    Some(Ok(Value::Record(_))) => None,
                    Some(Ok(_)) => Some(Err("Runtime error: "@ + "Not a record"@)),
                    other => other,
                },
            },
            Expr::Annotate(a, _) => spec_eval(a.node, env, f),
            Expr::Pack(a, _) => spec_eval(a.node, env, f),
            Expr::Do(es) => spec_do(es@, env, f, Value::Unit),
            Expr::LetRec(bs, b) => match spec_letrec(bs@, letrec_slots(env, bs@, bs@.len()), f) {
                Some(Ok(inner)) => spec_eval(b.node, inner, f),
                Some(Err(t)) => Some(Err(t)),
                None => None,
            },
            Expr::App(fe, aes) => match spec_eval(fe.node, env, f) {
                Some(Ok(fv)) => match spec_args(aes@, env, f, Seq::empty()) {
                    Some(Ok(vs)) => apply_outcome(fv, vs),
                    Some(Err(t)) => Some(Err(t)),
                    None => None,
                },
                other => other,
            },
            Expr::Match(sc, arms) => match spec_eval(sc.node, env, f) {
                Some(Ok(v)) => spec_arms(arms@, v, env, f),
                other => other,
            },
            _ => None,
        }
    }
}

/// The record that `e` evaluates to in `env` with `fuel` steps of nesting,
/// by its fields, or the message of the error it fails with: a record
/// expression evaluates its fields in turn, each to a value `spec_eval`
/// gives (a later field of the same name over an earlier one); `let`,
/// annotations and packing pass the record of their body on. `None` for
/// other expressions, and where a field's value is left open.
pub open spec fn spec_record(e: Expr, env: Map<Seq<char>, Option<Value>>, fuel: nat) -> Option<
    Result<Map<Seq<char>, Value>, Seq<char>>,
>
    decreases fuel, 0nat, 0nat,
{
    if fuel == 0 {
        Some(Err("Runtime error: "@ + "evaluation nested too deeply"@))
    } else {
        let f = (fuel - 1) as nat;
        match e {
            Expr::MkRecord(fields) => spec_fields(fields.entries@, env, f, Map::empty()),
            Expr::Let(n, a, b) => match spec_eval(a.node, env, f) {
                Some(Ok(v)) => spec_record(b.node, env.insert(n@, known(v)), f),
                Some(Err(t)) => Some(Err(t)),
                None => None,
            },
            Expr::Annotate(a, _) => spec_record(a.node, env, f),
            Expr::Pack(a, _) => spec_record(a.node, env, f),
            _ => None,
        }
    }
}

/// The fields of a record expression evaluated in turn, added to `done`:
/// the record's fields, or the first error.
pub open spec fn spec_fields(
    fs: Seq<(String, Spanned<Expr>)>,
    env: Map<Seq<char>, Option<Value>>,
    fuel: nat,
    done: Map<Seq<char>, Value>,
) -> Option<Result<Map<Seq<char>, Value>, Seq<char>>>
    decreases fuel, 1nat, fs.len(),
{
    if fs.len() == 0 {
        Some(Ok(done))
    } else {
        match spec_eval(fs[0].1.node, env, fuel) {
            Some(Ok(v)) => spec_fields(fs.drop_first(), env, fuel, done.insert(fs[0].0@, v)),
            Some(Err(t)) => Some(Err(t)),
            None => None,
        }
    }
}

/// A record expression whose fields evaluate holds each field's value
/// under its name (the last field of a name wins), and no other names.
#[verifier::spinoff_prover]
#[verifier::rlimit(100)]
pub proof fn law_record_fields(
    fs: Seq<(String, Spanned<Expr>)>,
    env: Map<Seq<char>, Option<Value>>,
    fuel: nat,
    done: Map<Seq<char>, Value>,
)
    ensures
        spec_fields(fs, env, fuel, done) matches Some(Ok(m)) ==> {
            &&& forall|i: int|
                0 <= i < fs.len() && (forall|j: int| i < j < fs.len() ==> fs[j].0@ != fs[i].0@) ==> {
                    &&& m.contains_key(#[trigger] fs[i].0@)
                    &&& spec_eval(fs[i].1.node, env, fuel) == Some(Ok::<Value, Seq<char>>(m[fs[i].0@]))
                }
            &&& forall|k: Seq<char>| (forall|i: int| 0 <= i < fs.len() ==> fs[i].0@ != k) ==> (#[trigger] m.contains_key(k)
                == done.contains_key(k) && (done.contains_key(k) ==> m[k] == done[k]))
        },
    decreases fs.len(),
{
    if fs.len() > 0 {
        if let Some(Ok(v)) = spec_eval(fs[0].1.node, env, fuel) {
            let rest = fs.drop_first();
            let d2 = done.insert(fs[0].0@, v);
            law_record_fields(rest, env, fuel, d2);
            if let Some(Ok(m)) = spec_fields(fs, env, fuel, done) {
                assert forall|i: int|
                    0 <= i < fs.len() && (forall|j: int| i < j < fs.len() ==> fs[j].0@ != fs[i].0@) implies {
                        &&& m.contains_key(#[trigger] fs[i].0@)
                        &&& spec_eval(fs[i].1.node, env, fuel) == Some(Ok::<Value, Seq<char>>(m[fs[i].0@]))
                    } by {
                    if i > 0 {
                        assert(rest[i - 1] == fs[i]);
                        assert forall|j: int| i - 1 < j < rest.len() implies (#[trigger] rest[j]).0@ != rest[i - 1].0@ by {
                            assert(rest[j] == fs[j + 1]);
                        }
                    } else {
                        assert forall|j: int| 0 <= j < rest.len() implies (#[trigger] rest[j]).0@ != fs[0].0@ by {
                            assert(rest[j] == fs[j + 1]);
                        }
                    }
                }
                assert forall|k: Seq<char>| (forall|i: int| 0 <= i < fs.len() ==> fs[i].0@ != k) implies (
                #[trigger] m.contains_key(k) == done.contains_key(k) && (done.contains_key(k) ==> m[k] == done[k])) by {
                    assert(fs[0].0@ != k);
                    assert forall|i: int| 0 <= i < rest.len() implies (#[trigger] rest[i]).0@ != k by {
                        assert(rest[i] == fs[i + 1]);
                    }
                }
            }
        }
    }
}

/// `r` is the record outcome `o`: a record with those fields, or an error
/// with that message.
pub open spec fn record_agrees(r: Result<Value, EvalError>, o: Result<Map<Seq<char>, Value>, Seq<char>>) -> bool {
    match o {
        Ok(m) => r matches Ok(Value::Record(fields)) && fields@ == m,
        Err(t) => r matches Err(e) && error_text(e) == t,
    }
}

/// Whether the literal pattern `l` matches `v`: an equal `int`, `long`,
/// `bool`, `str`, `char` or unit.
pub open spec fn lit_matches(l: Literal, v: Value) -> bool {
    match (l, v) {
        (Literal::Int(a), Value::Int(b)) => a == b,
        (Literal::Long(a), Value::Long(b)) => a == b,
        (Literal::Bool(a), Value::Bool(b)) => a == b,
        (Literal::String(a), Value::String(b)) => a@ == b@,
        (Literal::Char(a), Value::Char(b)) => a == b,
        (Literal::Unit, Value::Unit) => true,
        _ => false,
    }
}

/// `env` with the first `n` of `bs` bound in turn.
pub open spec fn bind_all(env: Map<Seq<char>, Option<Value>>, bs: Seq<(Seq<char>, Option<Value>)>, n: nat) -> Map<
    Seq<char>,
    Option<Value>,
>
    decreases n,
{
    if n == 0 || n > bs.len() {
        env
    } else {
        bind_all(env, bs, (n - 1) as nat).insert(bs[n - 1].0, bs[n - 1].1)
    }
}

/// The evaluation of the first of `arms` whose pattern matches `v`, with
/// the names its pattern binds bound in turn, or a match failure when none
/// does.
pub open spec fn spec_arms(arms: Seq<MatchArm>, v: Value, env: Map<Seq<char>, Option<Value>>, fuel: nat) -> Option<
    Result<Value, Seq<char>>,
>
    decreases fuel, 1nat, arms.len(),
{
    if arms.len() == 0 {
        Some(Err("Pattern match failure"@))
    } else if !pattern_matches(arms[0].pattern, v) {
        spec_arms(arms.drop_first(), v, env, fuel)
    } else {
        let bs = pattern_binds(arms[0].pattern, v);
        spec_eval(arms[0].body.node, bind_all(env, bs, bs.len()), fuel)
    }
}

/// `env` with the names of the first `n` of `bs` bound to unit.
pub open spec fn letrec_slots(env: Map<Seq<char>, Option<Value>>, bs: Seq<(String, Spanned<Expr>)>, n: nat) -> Map<
    Seq<char>,
    Option<Value>,
>
    decreases n,
{
    if n == 0 {
        env
    } else {
        letrec_slots(env, bs, (n - 1) as nat).insert(bs[n - 1].0@, Some(Value::Unit))
    }
}

/// The bindings of a `letrec` evaluated in turn, each in the environment
/// the earlier ones made: the environment after all of them, or the first
/// error.
pub open spec fn spec_letrec(bs: Seq<(String, Spanned<Expr>)>, env: Map<Seq<char>, Option<Value>>, fuel: nat) -> Option<
    Result<Map<Seq<char>, Option<Value>>, Seq<char>>,
>
    decreases fuel, 1nat, bs.len(),
{
    if bs.len() == 0 {
        Some(Ok(env))
    } else {
        match spec_eval(bs[0].1.node, env, fuel) {
            Some(Ok(v)) => spec_letrec(bs.drop_first(), env.insert(bs[0].0@, known(v)), fuel),
            Some(Err(t)) => Some(Err(t)),
            None => None,
        }
    }
}

/// The evaluation of a `do` block's expressions in turn: the last value
/// (`last` when none is left), or the first error.
pub open spec fn spec_do(es: Seq<Spanned<Expr>>, env: Map<Seq<char>, Option<Value>>, fuel: nat, last: Value) -> Option<
    Result<Value, Seq<char>>,
>
    decreases fuel, 1nat, es.len(),
{
    if es.len() == 0 {
        Some(Ok(last))
    } else {
        match spec_eval(es[0].node, env, fuel) {
            Some(Ok(v)) => spec_do(es.drop_first(), env, fuel, v),
            other => other,
        }
    }
}

/// `env` with the first `n` of `params` bound in turn to what is known of
/// the values of `args` at the same places (a later parameter of the same
/// name over an earlier one).
pub open spec fn bind_params(env: Map<Seq<char>, Option<Value>>, params: Seq<Seq<char>>, args: Seq<Value>, n: nat) -> Map<
    Seq<char>,
    Option<Value>,
>
    decreases n,
{
    if n == 0 {
        env
    } else {
        bind_params(env, params, args, (n - 1) as nat).insert(params[n - 1], known(args[n - 1]))
    }
}

/// Clones of an environment's values are known alike.
proof fn lemma_known_clones(a: Map<Seq<char>, Value>, b: Map<Seq<char>, Value>)
    requires
        crate::name_map::clones_of(a, b),
    ensures
        known_env(a) == known_env(b),
{
    assert forall|k: Seq<char>| #[trigger] known_env(a).contains_key(k) implies known_env(a)[k] == known_env(b)[k] by {
        assert(b.contains_key(k));
        assert(cloned(a[k], b[k]));
    }
    assert(known_env(a) =~= known_env(b));
}

/// Binding a name is known as binding it.
proof fn lemma_known_insert(m: Map<Seq<char>, Value>, k: Seq<char>, v: Value)
    ensures
        known_env(m.insert(k, v)) == known_env(m).insert(k, known(v)),
{
    assert(known_env(m.insert(k, v)) =~= known_env(m).insert(k, known(v)));
}

/// The operators' rules give what `binop_outcome` says.
proof fn lemma_binop_agrees(op: Seq<char>, l: Value, r: Value, res: Result<Value, EvalError>)
    requires
        binop_rule(op, l, r) ==> binop_gives(op, l, r, res),
        !binop_rule(op, l, r) && !float_arm(op, l, r) && float_free(l) && float_free(r) ==> (res matches Err(
            EvalError::Runtime(m),
        ) && m@ == "Cannot apply operator '"@ + op + "' to "@ + value_text(l) + " and "@ + value_text(r)),
    ensures
        binop_outcome(op, l, r) matches Some(o) ==> agrees(res, o),
{
}

/// `a / b` rounding toward zero, for operands of at most 64 bits.
fn tdiv_i128(a: i128, b: i128) -> (q: i128)
    requires
        b != 0,
        -0x1_0000_0000_0000_0000 <= a <= 0x1_0000_0000_0000_0000,
        -0x1_0000_0000_0000_0000 <= b <= 0x1_0000_0000_0000_0000,
    ensures
        q == tdiv(a as int, b as int),
        abs(q as int) <= abs(a as int),
{
    let ma: u128 = if a < 0 { (-a) as u128 } else { a as u128 };
    let mb: u128 = if b < 0 { (-b) as u128 } else { b as u128 };
    let m = ma / mb;
    assert(m <= ma) by (nonlinear_arith)
        requires
            mb >= 1,
            m == ma / mb,
    ;
    if (a < 0) != (b < 0) {
        -(m as i128)
    } else {
        m as i128
    }
}

/// The error for an operator that does not apply to its operands.
fn cannot_apply<H: Host>(host: &H, op: &str, l: &Value, r: &Value) -> (e: EvalError)
    ensures
        float_free(*l) && float_free(*r) ==> (e matches EvalError::Runtime(m) && m@ == "Cannot apply operator '"@
            + op@ + "' to "@ + value_text(*l) + " and "@ + value_text(*r)),
{
    let mut m = owned("Cannot apply operator '");
    push_str(&mut m, op);
    push_str(&mut m, "' to ");
    l.show_into(host, &mut m);
    push_str(&mut m, " and ");
    r.show_into(host, &mut m);
    EvalError::Runtime(m)
}

/// The names bound in an environment, in increasing order.
pub open spec fn sorted_names(v: Seq<String>) -> bool {
    forall|i: int, j: int| 0 <= i < j < v.len() ==> crate::text::seq_lt(#[trigger] v[i]@, #[trigger] v[j]@)
}

/// The evaluator: its type environment and the values bound so far.
pub struct Compiler {
    /// The type environment for type checking.
    pub type_env: TypeEnv,
    /// The runtime environment for evaluation.
    pub runtime_env: Env<Value>,
}

impl Compiler {
    /// A new evaluator with the built-in environment of types, and each of
    /// `builtin_names` bound to its built-in function.
    pub fn new() -> (r: Self)
        ensures
            forall|i: int| 0 <= i < builtin_names().len() ==> {
                &&& r.runtime_env.scope_bindings().contains_key(#[trigger] builtin_names()[i])
                &&& r.runtime_env.scope_bindings()[builtin_names()[i]] matches Value::BuiltinFn(n)
                &&& n@ == builtin_names()[i]
            },
            forall|k: Seq<char>| #[trigger] r.runtime_env.scope_bindings().contains_key(k)
                ==> builtin_names().contains(k),
    {
        let names: Vec<&str> = vec![
            "+", "-", "*", "/", "%", "==", "!=", "<", ">", "<=", ">=", "&&", "||", "!", "strlen", "show",
            "print", "concat", "length", "head", "tail", "map", "filter", "fold",
        ];
        assert(names@.len() == builtin_names().len());
        assert forall|i: int| 0 <= i < names@.len() implies #[trigger] names@[i]@ == builtin_names()[i] by {}
        let mut env: Env<Value> = Env::new();
        let mut i: usize = 0;
        while i < names.len()
            invariant
                i <= names@.len(),
                names@.len() == builtin_names().len(),
                forall|j: int| 0 <= j < names@.len() ==> #[trigger] names@[j]@ == builtin_names()[j],
                forall|j: int| 0 <= j < i ==> {
                    &&& env.scope_bindings().contains_key(#[trigger] builtin_names()[j])
                    &&& env.scope_bindings()[builtin_names()[j]] matches Value::BuiltinFn(n)
                    &&& n@ == builtin_names()[j]
                },
                forall|k: Seq<char>| #[trigger] env.scope_bindings().contains_key(k)
                    ==> exists|j: int| 0 <= j < i && builtin_names()[j] == k,
            decreases names.len() - i,
        {
            let name = names[i];
            env.bind(name, Value::BuiltinFn(owned(name)));
            proof {
                assert forall|k: Seq<char>| #[trigger] env.scope_bindings().contains_key(k)
                    implies exists|j: int| 0 <= j < i + 1 && builtin_names()[j] == k by {
                    if k == name@ {
                        assert(builtin_names()[i as int] == k);
                    }
                }
            }
            i += 1;
        }
        Compiler { type_env: default_type_env(), runtime_env: env }
    }

    /// Parses and evaluates `input`; text that does not parse is a
    /// runtime error `Parse error: ` and the parse error's message.
    pub fn eval_str<H: Host>(&self, host: &H, input: &str) -> (r: Result<Value, EvalError>)
        requires
            input@.len() + 8 <= usize::MAX,
        ensures
            crate::parser::expr_of(input@) is None ==> (r matches Err(EvalError::Runtime(m))
                && m@ == "Parse error: parse error at position 0"@),
    {
        match crate::parser::parse_expr(input) {
            Ok(expr) => self.eval(host, &expr),
            Err(e) => {
                let mut m = owned("Parse error: ");
                let t = e.to_string();
                push_str(&mut m, t.as_str());
                proof {
                    reveal_strlit("parse error at position ");
                    reveal_strlit("Parse error: parse error at position 0");
                    reveal_strlit("Parse error: ");
                    assert(crate::text::decimal(0) =~= seq!['0']);
                    assert(m@ =~= "Parse error: parse error at position 0"@);
                }
                Err(EvalError::Runtime(m))
            }
        }
    }

    /// Evaluates `input` and binds `name` to its value; on an error
    /// nothing is bound.
    pub fn define<H: Host>(&mut self, host: &H, name: &str, input: &str) -> (r: Result<(), EvalError>)
        requires
            input@.len() + 8 <= usize::MAX,
        ensures
            r is Ok ==> final(self).runtime_env.scope_bindings().dom()
                == old(self).runtime_env.scope_bindings().dom().insert(name@),
            r is Err ==> final(self).runtime_env.scope_bindings() == old(self).runtime_env.scope_bindings(),
    {
        let value = self.eval_str(host, input)?;
        self.runtime_env.bind(name, value);
        Ok(())
    }

    /// Evaluates an expression in the bound values.
    pub fn eval<H: Host>(&self, host: &H, expr: &Spanned<Expr>) -> (r: Result<Value, EvalError>) {
        self.eval_expr(host, &expr.node, &self.runtime_env, u64::MAX)
    }

    /// The names bound to values, each once, in increasing order.
    pub fn bound_names(&self) -> (r: Vec<String>)
        ensures
            sorted_names(r@),
            forall|y: Seq<char>| names(r@).contains(y) <==> self.runtime_env.scope_bindings().contains_key(y),
    {
        let all = self.runtime_env.all_bindings();
        let mut r: Vec<String> = Vec::new();
        let mut i: usize = 0;
        while i < all.entries.len()
            invariant
                i <= all.entries@.len(),
                r@.len() == i,
                forall|j: int| 0 <= j < i ==> #[trigger] r@[j]@ == all.entries@[j].0@,
            decreases all.entries.len() - i,
        {
            r.push(all.entries[i].0.clone());
            i += 1;
        }
        proof {
            assert forall|a: int, b: int| 0 <= a < b < r@.len() implies
                crate::text::seq_lt(#[trigger] r@[a]@, #[trigger] r@[b]@) by {
                assert(crate::text::seq_lt(all.entries@[a].0@, all.entries@[b].0@));
            }
            assert forall|y: Seq<char>| names(r@).contains(y) <==> self.runtime_env.scope_bindings().contains_key(y) by {
                crate::name_map::lemma_find_name_bounds(all.entries@, y);
                if names(r@).contains(y) {
                    let j = choose|j: int| 0 <= j < names(r@).len() && names(r@)[j] == y;
                    assert(all.entries@[j].0@ == y);
                    assert(all@.contains_key(y));
                }
                if self.runtime_env.scope_bindings().contains_key(y) {
                    assert(all@.contains_key(y));
                    let j = crate::name_map::find_name(all.entries@, y)->0;
                    assert(names(r@)[j] == y);
                }
            }
        }
        r
    }

    /// Evaluates `expr` in `env`, as `spec_eval` says wherever it says
    /// anything. With no fuel left, fails with a runtime error; a variable
    /// gives the value it is bound to (or an unbound variable error), and a
    /// lambda a closure over `env`.
    #[verifier::loop_isolation(false)]
    #[verifier::spinoff_prover]
    #[verifier::rlimit(40)]
    pub fn eval_expr<H: Host>(&self, host: &H, expr: &Expr, env: &Env<Value>, fuel: u64) -> (r: Result<Value, EvalError>)
        ensures
            fuel == 0 ==> (r matches Err(EvalError::Runtime(m)) && m@ == "evaluation nested too deeply"@),
            fuel > 0 ==> match *expr {
                Expr::Lit(l) => !is_float_literal(l) ==> r == Ok::<Value, EvalError>(literal_value(l)),
                Expr::Var(n) => {
                    &&& (r is Ok <==> env.scope_bindings().contains_key(n@))
                    &&& (!env.scope_bindings().contains_key(n@) ==> (r matches Err(EvalError::UnboundVariable(m))
                        && m@ == n@))
                    &&& (r matches Ok(v) ==> (is_scalar(env.scope_bindings()[n@])
                        && !(env.scope_bindings()[n@] is Closure) ==> v == env.scope_bindings()[n@]))
                },
                Expr::Lambda(ps, b) => r matches Ok(Value::Closure { params, body, .. })
                    && names(params@) == names(ps@) && body@ == b@,
                _ => true,
            },
            spec_eval(*expr, known_env(env.scope_bindings()), fuel as nat) matches Some(o) ==> agrees(r, o),
            spec_record(*expr, known_env(env.scope_bindings()), fuel as nat) matches Some(o) ==> record_agrees(r, o),
        decreases fuel, 2nat,
    {
        if fuel == 0 {
            return Err(EvalError::Runtime(owned("evaluation nested too deeply")));
        }
        let f = fuel - 1;
        match expr {
            Expr::Lit(lit) => Ok(Value::from_literal(host, lit)),
            Expr::Var(name) => match env.lookup(name.as_str()) {
                Some(v) => Ok(v.copy()),
                None => Err(EvalError::UnboundVariable(name.clone())),
            },
            Expr::Let(name, val, body) => {
                let v = self.eval_expr(host, &val.node, env, f)?;
                let cl = env.clone();
                proof {
                    lemma_known_clones(env.scope_bindings(), cl.scope_bindings());
                    lemma_known_insert(cl.scope_bindings(), name@, v);
                }
                let mut child = Env::child(cl);
                child.bind(name.as_str(), v);
                self.eval_expr(host, &body.node, &child, f)
            }
            Expr::LetRec(bindings, body) => {
                let ghost kenv = known_env(env.scope_bindings());
                let cl = env.clone();
                proof {
                    lemma_known_clones(env.scope_bindings(), cl.scope_bindings());
                }
                let mut child = Env::child(cl);
                let mut i: usize = 0;
                while i < bindings.len()
                    invariant
                        i <= bindings@.len(),
                        known_env(child.scope_bindings()) == letrec_slots(kenv, bindings@, i as nat),
                    decreases bindings.len() - i,
                {
                    proof {
                        lemma_known_insert(child.scope_bindings(), bindings@[i as int].0@, Value::Unit);
                    }
                    child.bind(bindings[i].0.as_str(), Value::Unit);
                    i += 1;
                }
                let ghost goal = spec_letrec(bindings@, known_env(child.scope_bindings()), f as nat);
                let mut i: usize = 0;
                assert(bindings@.skip(0) =~= bindings@);
                while i < bindings.len()
                    invariant
                        f < fuel,
                        i <= bindings@.len(),
                        goal is Some ==> goal == spec_letrec(
                            bindings@.skip(i as int),
                            known_env(child.scope_bindings()),
                            f as nat,
                        ),
                    decreases bindings.len() - i,
                {
                    assert(bindings@.skip(i as int).drop_first() =~= bindings@.skip(i + 1));
                    assert(bindings@.skip(i as int)[0] == bindings@[i as int]);
                    let v = self.eval_expr(host, &bindings[i].1.node, &child, f)?;
                    proof {
                        lemma_known_insert(child.scope_bindings(), bindings@[i as int].0@, v);
                    }
                    child.bind(bindings[i].0.as_str(), v);
                    i += 1;
                }
                self.eval_expr(host, &body.node, &child, f)
            }
            Expr::App(func, args) => {
                let fv = self.eval_expr(host, &func.node, env, f)?;
                let ghost kenv = known_env(env.scope_bindings());
                let ghost goal = spec_args(args@, kenv, f as nat, Seq::empty());
                let mut vals: Vec<Value> = Vec::new();
                let mut i: usize = 0;
                assert(args@.skip(0) =~= args@);
                while i < args.len()
                    invariant
                        f < fuel,
                        i <= args@.len(),
                        goal is Some ==> goal == spec_args(args@.skip(i as int), kenv, f as nat, vals@),
                    decreases args.len() - i,
                {
                    assert(args@.skip(i as int).drop_first() =~= args@.skip(i + 1));
                    assert(args@.skip(i as int)[0] == args@[i as int]);
                    let v = self.eval_expr(host, &args[i].node, env, f)?;
                    vals.push(v);
                    i += 1;
                }
                self.apply(host, fv, vals, f)
            }
            Expr::Lambda(params, body) => {
                let ps = copy_names(params);
                Ok(Value::Closure { params: ps, body: Box::new(copy_node(body)), env: Box::new(env.clone()) })
            }
            Expr::If(cond, then_e, else_e) => {
                let c = self.eval_expr(host, &cond.node, env, f)?;
                match c {
                    Value::Bool(true) => self.eval_expr(host, &then_e.node, env, f),
                    Value::Bool(false) => self.eval_expr(host, &else_e.node, env, f),
                    _ => Err(EvalError::Runtime(owned("Condition must be a boolean"))),
                }
            }
            Expr::Match(scrutinee, arms) => {
                let v = self.eval_expr(host, &scrutinee.node, env, f)?;
                let ghost kenv = known_env(env.scope_bindings());
                let ghost goal = spec_arms(arms@, v, kenv, f as nat);
                let mut i: usize = 0;
                assert(arms@.skip(0) =~= arms@);
                while i < arms.len()
                    invariant
                        f < fuel,
                        i <= arms@.len(),
                        goal is Some ==> goal == spec_arms(arms@.skip(i as int), v, kenv, f as nat),
                    decreases arms.len() - i,
                {
                    assert(arms@.skip(i as int).drop_first() =~= arms@.skip(i + 1));
                    assert(arms@.skip(i as int)[0] == arms@[i as int]);
                    if let Some(bindings) = match_pattern(&arms[i].pattern, &v) {
                        let cl = env.clone();
                        proof {
                            lemma_known_clones(env.scope_bindings(), cl.scope_bindings());
                        }
                        let ghost base = cl.scope_bindings();
                        let ghost bv = binds_view(bindings@);
                        let mut child = Env::child(cl);
                        let mut j: usize = 0;
                        while j < bindings.len()
                            invariant
                                j <= bindings@.len(),
                                bv == binds_view(bindings@),
                                known_env(child.scope_bindings()) == bind_all(known_env(base), bv, j as nat),
                            decreases bindings.len() - j,
                        {
                            let c = bindings[j].1.copy();
                            proof {
                                lemma_known_insert(child.scope_bindings(), bindings@[j as int].0@, c);
                            }
                            child.bind(bindings[j].0.as_str(), c);
                            j += 1;
                        }
                        return self.eval_expr(host, &arms[i].body.node, &child, f);
                    }
                    i += 1;
                }
                Err(EvalError::MatchFailure)
            }
            Expr::MkRecord(fields) => {
                let ghost kenv = known_env(env.scope_bindings());
                let ghost es = fields.entries@;
                let ghost goal = spec_fields(es, kenv, f as nat, Map::empty());
                let mut record: NameMap<Value> = NameMap::new();
                let mut i: usize = 0;
                assert(es.skip(0) =~= es);
                assert(record@ =~= Map::<Seq<char>, Value>::empty());
                while i < fields.entries.len()
                    invariant
                        f < fuel,
                        i <= es.len(),
                        goal is Some ==> goal == spec_fields(es.skip(i as int), kenv, f as nat, record@),
                    decreases fields.entries.len() - i,
                {
                    assert(es.skip(i as int).drop_first() =~= es.skip(i + 1));
                    assert(es.skip(i as int)[0] == es[i as int]);
                    let v = self.eval_expr(host, &fields.entries[i].1.node, env, f)?;
                    record.insert(fields.entries[i].0.clone(), v);
                    i += 1;
                }
                Ok(Value::Record(record))
            }
            Expr::Project(e, field) => {
                let v = self.eval_expr(host, &e.node, env, f)?;
                match v {
                    Value::Record(fields) => match fields.get(field.as_str()) {
                        Some(x) => Ok(x.copy()),
                        None => Err(EvalError::FieldNotFound(field.clone())),
                    },
                    _ => Err(EvalError::Runtime(owned("Not a record"))),
                }
            }
            Expr::MkVariant(ctor, e) => {
                let v = self.eval_expr(host, &e.node, env, f)?;
                Ok(Value::Variant(ctor.clone(), Box::new(v)))
            }
            Expr::MkArray(elems) => {
                let mut vals: Vec<Value> = Vec::new();
                let mut i: usize = 0;
                while i < elems.len()
                    invariant
                        f < fuel,
                    decreases elems.len() - i,
                {
                    let v = self.eval_expr(host, &elems[i].node, env, f)?;
                    vals.push(v);
                    i += 1;
                }
                Ok(Value::Array(vals))
            }
            Expr::BinOp(op, lhs, rhs) => {
                let l = self.eval_expr(host, &lhs.node, env, f)?;
                let r = self.eval_expr(host, &rhs.node, env, f)?;
                let ghost (gl, gr) = (l, r);
                let res = eval_binop(host, op.as_str(), l, r);
                proof {
                    lemma_binop_agrees(op@, gl, gr, res);
                }
                res
            }
            Expr::UnaryOp(op, e) => {
                let v = self.eval_expr(host, &e.node, env, f)?;
                eval_unaryop(host, op.as_str(), v)
            }
            Expr::Annotate(e, _) => self.eval_expr(host, &e.node, env, f),
            Expr::Do(exprs) => {
                let ghost kenv = known_env(env.scope_bindings());
                let ghost goal = spec_do(exprs@, kenv, f as nat, Value::Unit);
                let mut result = Value::Unit;
                let mut i: usize = 0;
                assert(exprs@.skip(0) =~= exprs@);
                while i < exprs.len()
                    invariant
                        f < fuel,
                        i <= exprs@.len(),
                        goal is Some ==> goal == spec_do(exprs@.skip(i as int), kenv, f as nat, result),
                    decreases exprs.len() - i,
                {
                    assert(exprs@.skip(i as int).drop_first() =~= exprs@.skip(i + 1));
                    assert(exprs@.skip(i as int)[0] == exprs@[i as int]);
                    result = self.eval_expr(host, &exprs[i].node, env, f)?;
                    i += 1;
                }
                Ok(result)
            }
            Expr::Comprehension(comp) => self.eval_comprehension(host, comp, env, f),
            Expr::Pack(e, _) => self.eval_expr(host, &e.node, env, f),
            Expr::Unpack(_, val_var, pkg, body) => {
                let v = self.eval_expr(host, &pkg.node, env, f)?;
                let cl = env.clone();
                proof {
                    lemma_known_clones(env.scope_bindings(), cl.scope_bindings());
                    lemma_known_insert(cl.scope_bindings(), val_var@, v);
                }
                let mut child = Env::child(cl);
                child.bind(val_var.as_str(), v);
                self.eval_expr(host, &body.node, &child, f)
            }
        }
    }

    /// Applies a function value to arguments: a closure of as many
    /// parameters evaluates its body (as `spec_eval` says) in its own
    /// environment with the parameters bound in turn to the arguments
    /// (another number is an arity error); a built-in is called; anything
    /// else is not a function.
    #[verifier::loop_isolation(false)]
    pub fn apply<H: Host>(&self, host: &H, func: Value, args: Vec<Value>, fuel: u64) -> (r: Result<Value, EvalError>)
        ensures
            func matches Value::Closure { params, .. } ==> (params@.len() != args@.len() ==> r
                == Err::<Value, EvalError>(EvalError::ArityMismatch { expected: params@.len() as usize, got: args@.len() as usize })),
            func matches Value::Closure { params, body, env } ==> (params@.len() == args@.len() ==> if fuel == 0 {
                r matches Err(EvalError::Runtime(m)) && m@ == "evaluation nested too deeply"@
            } else {
                spec_eval(
                    body.node,
                    bind_params(known_env(env.scope_bindings()), names(params@), args@, params@.len()),
                    (fuel - 1) as nat,
                ) matches Some(o) ==> agrees(r, o)
            }),
            !(func is Closure) ==> (apply_outcome(func, args@) matches Some(o) ==> agrees(r, o)),
            !(func is Closure || func is BuiltinFn) ==> r == Err::<Value, EvalError>(EvalError::NotAFunction),
        decreases fuel, 2nat,
    {
        match func {
            Value::Closure { params, body, env } => {
                if params.len() != args.len() {
                    return Err(EvalError::ArityMismatch { expected: params.len(), got: args.len() });
                }
                if fuel == 0 {
                    return Err(EvalError::Runtime(owned("evaluation nested too deeply")));
                }
                let ghost base = known_env(env.scope_bindings());
                let mut child = Env::child(*env);
                let mut i: usize = 0;
                while i < params.len()
                    invariant
                        params@.len() == args@.len(),
                        i <= params@.len(),
                        known_env(child.scope_bindings()) == bind_params(base, names(params@), args@, i as nat),
                    decreases params.len() - i,
                {
                    let c = args[i].copy();
                    proof {
                        lemma_known_insert(child.scope_bindings(), params@[i as int]@, c);
                    }
                    child.bind(params[i].as_str(), c);
                    i += 1;
                }
                self.eval_expr(host, &body.node, &child, fuel - 1)
            }
            Value::BuiltinFn(name) => call_builtin(host, name.as_str(), args),
            _ => Err(EvalError::NotAFunction),
        }
    }

    /// Evaluates a comprehension: the body's value for each way the
    /// qualifiers can be met, in order.
    fn eval_comprehension<H: Host>(&self, host: &H, comp: &ComprehensionExpr, env: &Env<Value>, fuel: u64) -> (r: Result<Value, EvalError>)
        decreases fuel, 1nat,
    {
        let mut results: Vec<Value> = Vec::new();
        self.eval_qualifiers(host, &comp.qualifiers, 0, &comp.body, env, &mut results, fuel)?;
        Ok(Value::Array(results))
    }

    /// Meets the qualifiers from `idx` on in `env`, adding the body's value
    /// to `results` each time all are met.
    #[verifier::loop_isolation(false)]
    fn eval_qualifiers<H: Host>(
        &self,
        host: &H,
        qualifiers: &Vec<Qualifier>,
        idx: usize,
        body: &Spanned<Expr>,
        env: &Env<Value>,
        results: &mut Vec<Value>,
        fuel: u64,
    ) -> (r: Result<(), EvalError>)
        decreases fuel, 0nat,
    {
        if fuel == 0 {
            return Err(EvalError::Runtime(owned("evaluation nested too deeply")));
        }
        let f = fuel - 1;
        if idx >= qualifiers.len() {
            let v = self.eval_expr(host, &body.node, env, f)?;
            results.push(v);
            return Ok(());
        }
        match &qualifiers[idx] {
            Qualifier::Generator(pattern, source) => {
                let sv = self.eval_expr(host, &source.node, env, f)?;
                match sv {
                    Value::Array(elements) => {
                        let mut i: usize = 0;
                        while i < elements.len()
                            invariant
                                f < fuel,
                                idx < qualifiers@.len(),
                            decreases elements.len() - i,
                        {
                            if let Some(bindings) = match_pattern(pattern, &elements[i]) {
                                let mut child = Env::child(env.clone());
                                let mut j: usize = 0;
                                while j < bindings.len()
                                    decreases bindings.len() - j,
                                {
                                    child.bind(bindings[j].0.as_str(), bindings[j].1.copy());
                                    j += 1;
                                }
                                self.eval_qualifiers(host, qualifiers, idx + 1, body, &child, results, f)?;
                            }
                            i += 1;
                        }
                    }
                    _ => {
                        return Err(EvalError::Runtime(owned("Generator source must be an array")));
                    }
                }
            }
            Qualifier::Filter(pred) => {
                let pv = self.eval_expr(host, &pred.node, env, f)?;
                match pv {
                    Value::Bool(true) => {
                        self.eval_qualifiers(host, qualifiers, idx + 1, body, env, results, f)?;
                    }
                    Value::Bool(false) => {}
                    _ => {
                        return Err(EvalError::Runtime(owned("Filter must be a boolean")));
                    }
                }
            }
            Qualifier::Let(name, e) => {
                let v = self.eval_expr(host, &e.node, env, f)?;
                let mut child = Env::child(env.clone());
                child.bind(name.as_str(), v);
                self.eval_qualifiers(host, qualifiers, idx + 1, body, &child, results, f)?;
            }
        }
        Ok(())
    }

    /// The type environment.
    pub fn type_env(&self) -> (r: &TypeEnv)
        ensures
            *r == self.type_env,
    {
        &self.type_env
    }

    /// The runtime environment.
    pub fn runtime_env(&self) -> (r: &Env<Value>)
        ensures
            *r == self.runtime_env,
    {
        &self.runtime_env
    }
}

impl Default for Compiler {
    fn default() -> (r: Self) {
        Compiler::new()
    }
}

/// The first argument, or an arity error (one expected, none given).
fn first_arg(args: Vec<Value>) -> (r: Result<Value, EvalError>)
    ensures
        args@.len() == 0 ==> r == Err::<Value, EvalError>(EvalError::ArityMismatch { expected: 1, got: 0 }),
        args@.len() > 0 ==> r == Ok::<Value, EvalError>(args@[0]),
{
    let mut args = args;
    if args.len() == 0 {
        Err(EvalError::ArityMismatch { expected: 1, got: 0 })
    } else {
        Ok(args.remove(0))
    }
}

/// The names of the built-ins that compute differ from one another.
proof fn lemma_builtin_names_distinct()
    ensures
        "show"@ != "print"@ && "show"@ != "strlen"@ && "show"@ != "concat"@ && "show"@ != "length"@,
        "show"@ != "head"@ && "show"@ != "tail"@,
        "print"@ != "strlen"@ && "print"@ != "concat"@ && "print"@ != "length"@ && "print"@ != "head"@,
        "print"@ != "tail"@,
        "strlen"@ != "concat"@ && "strlen"@ != "length"@ && "concat"@ != "length"@,
        "strlen"@ != "head"@ && "strlen"@ != "tail"@ && "concat"@ != "head"@ && "concat"@ != "tail"@,
        "length"@ != "head"@ && "length"@ != "tail"@ && "head"@ != "tail"@,
{
    reveal_strlit("show");
    reveal_strlit("print");
    reveal_strlit("strlen");
    reveal_strlit("concat");
    reveal_strlit("length");
    reveal_strlit("head");
    reveal_strlit("tail");
    assert("show"@.len() == 4 && "head"@.len() == 4 && "tail"@.len() == 4);
    assert("print"@.len() == 5);
    assert("strlen"@.len() == 6 && "concat"@.len() == 6 && "length"@.len() == 6);
    assert("show"@[0] != "head"@[0] && "show"@[0] != "tail"@[0]);
    assert("strlen"@[0] != "concat"@[0] && "strlen"@[0] != "length"@[0] && "concat"@[0] != "length"@[0]);
    assert("head"@[0] != "tail"@[0]);
}

/// The message of an arity error.
pub open spec fn arity_text(expected: nat, got: nat) -> Seq<char> {
    "Arity mismatch: expected "@ + crate::text::decimal(expected) + ", got "@ + crate::text::decimal(got)
}

/// What the built-in `n` gives on `args`, by value or by the error's
/// message; `None` where it builds a new string or array.
pub open spec fn builtin_outcome(n: Seq<char>, args: Seq<Value>) -> Option<Result<Value, Seq<char>>> {
    if n == "show"@ || n == "print"@ || n == "strlen"@ || n == "length"@ || n == "head"@ || n == "tail"@ {
        if args.len() == 0 {
            Some(Err(arity_text(1, 0)))
        } else if n == "show"@ {
            None
        } else if n == "print"@ {
            Some(Ok(Value::Unit))
        } else if n == "strlen"@ {
            match args[0] {
                Value::String(s) => Some(Ok(Value::Long(encode_utf8(s@).len() as i64))),
                _ => Some(Err("Runtime error: "@ + "strlen expects a string"@)),
            }
        } else if n == "length"@ {
            match args[0] {
                Value::Array(a) => Some(Ok(Value::Long(a@.len() as i64))),
                _ => Some(Err("Runtime error: "@ + "length expects an array"@)),
            }
        } else if n == "head"@ {
            match args[0] {
                Value::Array(a) => if a@.len() > 0 {
                    Some(Ok(a@[0]))
                } else {
                    Some(Err("Runtime error: "@ + "head of empty array"@))
                },
                _ => Some(Err("Runtime error: "@ + "head expects an array"@)),
            }
        } else {
            match args[0] {
                Value::Array(a) => if a@.len() > 0 {
                    None
                } else {
                    Some(Err("Runtime error: "@ + "tail of empty array"@))
                },
                _ => Some(Err("Runtime error: "@ + "tail expects an array"@)),
            }
        }
    } else if n == "concat"@ {
        if args.len() != 2 {
            Some(Err(arity_text(2, args.len())))
        } else if args[0] is String && args[1] is String {
            None
        } else {
            Some(Err("Runtime error: "@ + "concat expects two strings"@))
        }
    } else {
        Some(Err("Runtime error: "@ + ("Unknown built-in function: "@ + n)))
    }
}

/// What applying `f` to `args` gives, where `f` is not a closure.
pub open spec fn apply_outcome(f: Value, args: Seq<Value>) -> Option<Result<Value, Seq<char>>> {
    match f {
        Value::BuiltinFn(n) => builtin_outcome(n@, args),
        Value::Closure { .. } => None,
        _ => Some(Err("Not a function"@)),
    }
}

/// The evaluation of argument expressions in turn, after the values
/// `done`: all the values, or the first error.
pub open spec fn spec_args(es: Seq<Spanned<Expr>>, env: Map<Seq<char>, Option<Value>>, fuel: nat, done: Seq<Value>) -> Option<
    Result<Seq<Value>, Seq<char>>,
>
    decreases fuel, 1nat, es.len(),
{
    if es.len() == 0 {
        Some(Ok(done))
    } else {
        match spec_eval(es[0].node, env, fuel) {
            Some(Ok(v)) => spec_args(es.drop_first(), env, fuel, done.push(v)),
            Some(Err(t)) => Some(Err(t)),
            None => None,
        }
    }
}

/// Calls the built-in function `name`:
/// - `show`: the text of its first argument (`value_text`, where it holds
///   no floating-point number);
/// - `print`: prints that text (through the host), giving unit;
/// - `strlen`: a string's length in bytes, as a `long`;
/// - `concat`: two strings joined;
/// - `length`: an array's length, as a `long`;
/// - `head` and `tail`: an array's first element, and the rest;
///
/// each failing with an arity error when arguments are missing and a
/// runtime error for arguments of the wrong kind. Any other name is an
/// unknown built-in.
pub fn call_builtin<H: Host>(host: &H, name: &str, args: Vec<Value>) -> (r: Result<Value, EvalError>)
    ensures
        (name@ == "show"@ || name@ == "print"@ || name@ == "strlen"@ || name@ == "length"@ || name@ == "head"@
            || name@ == "tail"@) && args@.len() == 0 ==> r == Err::<Value, EvalError>(
            EvalError::ArityMismatch { expected: 1, got: 0 },
        ),
        name@ == "show"@ && args@.len() > 0 ==> (r matches Ok(Value::String(s))
            && (float_free(args@[0]) ==> s@ == value_text(args@[0]))),
        name@ == "print"@ && args@.len() > 0 ==> r == Ok::<Value, EvalError>(Value::Unit),
        name@ == "strlen"@ && args@.len() > 0 ==> match args@[0] {
            Value::String(s) => r == Ok::<Value, EvalError>(Value::Long(encode_utf8(s@).len() as i64)),
            _ => r matches Err(EvalError::Runtime(m)) && m@ == "strlen expects a string"@,
        },
        name@ == "concat"@ && args@.len() != 2 ==> r == Err::<Value, EvalError>(
            EvalError::ArityMismatch { expected: 2, got: args@.len() as usize },
        ),
        name@ == "concat"@ && args@.len() == 2 ==> match (args@[0], args@[1]) {
            (Value::String(a), Value::String(b)) => r matches Ok(Value::String(s)) && s@ == a@ + b@,
            _ => r matches Err(EvalError::Runtime(m)) && m@ == "concat expects two strings"@,
        },
        name@ == "length"@ && args@.len() > 0 ==> match args@[0] {
            Value::Array(a) => r == Ok::<Value, EvalError>(Value::Long(a@.len() as i64)),
            _ => r matches Err(EvalError::Runtime(m)) && m@ == "length expects an array"@,
        },
        name@ == "head"@ && args@.len() > 0 ==> match args@[0] {
            Value::Array(a) => if a@.len() > 0 {
                r == Ok::<Value, EvalError>(a@[0])
            } else {
                r matches Err(EvalError::Runtime(m)) && m@ == "head of empty array"@
            },
            _ => r matches Err(EvalError::Runtime(m)) && m@ == "head expects an array"@,
        },
        name@ == "tail"@ && args@.len() > 0 ==> match args@[0] {
            Value::Array(a) => if a@.len() > 0 {
                r matches Ok(Value::Array(t)) && t@ == a@.drop_first()
            } else {
                r matches Err(EvalError::Runtime(m)) && m@ == "tail of empty array"@
            },
            _ => r matches Err(EvalError::Runtime(m)) && m@ == "tail expects an array"@,
        },
        !(name@ == "show"@ || name@ == "print"@ || name@ == "strlen"@ || name@ == "concat"@ || name@ == "length"@
            || name@ == "head"@ || name@ == "tail"@) ==> (r matches Err(EvalError::Runtime(m))
            && m@ == "Unknown built-in function: "@ + name@),
        builtin_outcome(name@, args@) matches Some(o) ==> agrees(r, o),
{
    proof {
        lemma_builtin_names_distinct();
    }
    if crate::text::str_eq(name, "show") {
        let v = first_arg(args)?;
        return Ok(Value::String(v.show(host)));
    }
    if crate::text::str_eq(name, "print") {
        let v = first_arg(args)?;
        let t = v.show(host);
        host.print_line(t.as_str());
        return Ok(Value::Unit);
    }
    if crate::text::str_eq(name, "strlen") {
        let v = first_arg(args)?;
        return match v {
            Value::String(s) => Ok(Value::Long(s.as_str().as_bytes().len() as i64)),
            _ => Err(EvalError::Runtime(owned("strlen expects a string"))),
        };
    }
    if crate::text::str_eq(name, "concat") {
        if args.len() != 2 {
            return Err(EvalError::ArityMismatch { expected: 2, got: args.len() });
        }
        return match (&args[0], &args[1]) {
            (Value::String(a), Value::String(b)) => {
                let mut s = a.clone();
                push_str(&mut s, b.as_str());
                Ok(Value::String(s))
            }
            _ => Err(EvalError::Runtime(owned("concat expects two strings"))),
        };
    }
    if crate::text::str_eq(name, "length") {
        let v = first_arg(args)?;
        return match v {
            Value::Array(a) => Ok(Value::Long(a.len() as i64)),
            _ => Err(EvalError::Runtime(owned("length expects an array"))),
        };
    }
    if crate::text::str_eq(name, "head") {
        let v = first_arg(args)?;
        return match v {
            Value::Array(a) => {
                let mut a = a;
                if a.len() == 0 {
                    Err(EvalError::Runtime(owned("head of empty array")))
                } else {
                    Ok(a.remove(0))
                }
            }
            _ => Err(EvalError::Runtime(owned("head expects an array"))),
        };
    }
    if crate::text::str_eq(name, "tail") {
        let v = first_arg(args)?;
        return match v {
            Value::Array(a) => {
                let mut a = a;
                if a.len() == 0 {
                    Err(EvalError::Runtime(owned("tail of empty array")))
                } else {
                    let ghost before = a@;
                    a.remove(0);
                    assert(a@ =~= before.drop_first());
                    Ok(Value::Array(a))
                }
            }
            _ => Err(EvalError::Runtime(owned("tail expects an array"))),
        };
    }
    let mut m = owned("Unknown built-in function: ");
    push_str(&mut m, name);
    Err(EvalError::Runtime(m))
}

/// Applies the binary operator `op` to two values: integer arithmetic
/// (wrapping around on overflow; `/` and `%` round toward zero and fail on
/// a zero divisor), comparisons, string joining and comparison, and `&&`
/// and `||` on booleans (see `binop_gives`); the host computes on
/// floating-point numbers; any other combination is a runtime error
/// naming the operator and both values.
pub fn eval_binop<H: Host>(host: &H, op: &str, l: Value, r: Value) -> (res: Result<Value, EvalError>)
    ensures
        binop_rule(op@, l, r) ==> binop_gives(op@, l, r, res),
        !binop_rule(op@, l, r) && !float_arm(op@, l, r) && float_free(l) && float_free(r) ==> (res matches Err(
            EvalError::Runtime(m),
        ) && m@ == "Cannot apply operator '"@ + op@ + "' to "@ + value_text(l) + " and "@ + value_text(r)),
{
    match (&l, &r) {
        (Value::Int(a), Value::Int(b)) => {
            let (a, b) = (*a as i64, *b as i64);
            if crate::text::str_eq(op, "+") {
                return Ok(Value::Int((a + b) as i32));
            } else if crate::text::str_eq(op, "-") {
                return Ok(Value::Int((a - b) as i32));
            } else if crate::text::str_eq(op, "*") {
                assert(-0x4000_0000_0000_0000 <= a * b <= 0x4000_0000_0000_0000) by (nonlinear_arith)
                    requires
                        -0x8000_0000 <= a <= 0x8000_0000,
                        -0x8000_0000 <= b <= 0x8000_0000,
                ;
                return Ok(Value::Int((a * b) as i32));
            } else if crate::text::str_eq(op, "/") {
                if b == 0 {
                    return Err(EvalError::DivisionByZero);
                }
                return Ok(Value::Int(tdiv_i128(a as i128, b as i128) as i32));
            } else if crate::text::str_eq(op, "%") {
                if b == 0 {
                    return Err(EvalError::DivisionByZero);
                }
                let q = tdiv_i128(a as i128, b as i128);
                assert(-0x8000_0000 * 0x8000_0001 <= b * q <= 0x8000_0000 * 0x8000_0001) by (nonlinear_arith)
                    requires
                        -0x8000_0000 <= b <= 0x8000_0000,
                        abs(q as int) <= abs(a as int),
                        -0x8000_0000 <= a <= 0x8000_0000,
                ;
                return Ok(Value::Int(((a as i128) - (b as i128) * q) as i32));
            } else if crate::text::str_eq(op, "==") {
                return Ok(Value::Bool(a == b));
            } else if crate::text::str_eq(op, "!=") {
                return Ok(Value::Bool(a != b));
            } else if crate::text::str_eq(op, "<") {
                return Ok(Value::Bool(a < b));
            } else if crate::text::str_eq(op, ">") {
                return Ok(Value::Bool(a > b));
            } else if crate::text::str_eq(op, "<=") {
                return Ok(Value::Bool(a <= b));
            } else if crate::text::str_eq(op, ">=") {
                return Ok(Value::Bool(a >= b));
            }
        }
        (Value::Long(a), Value::Long(b)) => {
            let (a, b) = (*a as i128, *b as i128);
            if crate::text::str_eq(op, "+") {
                return Ok(Value::Long((a + b) as i64));
            } else if crate::text::str_eq(op, "-") {
                return Ok(Value::Long((a - b) as i64));
            } else if crate::text::str_eq(op, "*") {
                assert(-0x4000_0000_0000_0000_0000_0000_0000_0000 <= a * b <= 0x4000_0000_0000_0000_0000_0000_0000_0000)
                    by (nonlinear_arith)
                    requires
                        -0x8000_0000_0000_0000 <= a <= 0x8000_0000_0000_0000,
                        -0x8000_0000_0000_0000 <= b <= 0x8000_0000_0000_0000,
                ;
                return Ok(Value::Long((a * b) as i64));
            } else if crate::text::str_eq(op, "/") {
                if b == 0 {
                    return Err(EvalError::DivisionByZero);
                }
                return Ok(Value::Long(tdiv_i128(a, b) as i64));
            } else if crate::text::str_eq(op, "==") {
                return Ok(Value::Bool(a == b));
            } else if crate::text::str_eq(op, "!=") {
                return Ok(Value::Bool(a != b));
            } else if crate::text::str_eq(op, "<") {
                return Ok(Value::Bool(a < b));
            } else if crate::text::str_eq(op, ">") {
                return Ok(Value::Bool(a > b));
            }
        }
        (Value::Double(_), Value::Double(_)) => {
            if crate::text::str_eq(op, "+") || crate::text::str_eq(op, "-") || crate::text::str_eq(op, "*") || crate::text::str_eq(op, "/") || crate::text::str_eq(op, "==") || crate::text::str_eq(op, "!=") || crate::text::str_eq(op, "<") || crate::text::str_eq(op, ">") {
                return host.float_binop(op, &l, &r);
            }
        }
        (Value::Float(_), Value::Float(_)) => {
            if crate::text::str_eq(op, "+") || crate::text::str_eq(op, "-") || crate::text::str_eq(op, "*") || crate::text::str_eq(op, "/") {
                return host.float_binop(op, &l, &r);
            }
        }
        (Value::String(a), Value::String(b)) => {
            if crate::text::str_eq(op, "+") {
                let mut s = a.clone();
                push_str(&mut s, b.as_str());
                return Ok(Value::String(s));
            } else if crate::text::str_eq(op, "==") {
                return Ok(Value::Bool(crate::text::str_eq(a.as_str(), b.as_str())));
            } else if crate::text::str_eq(op, "!=") {
                return Ok(Value::Bool(!crate::text::str_eq(a.as_str(), b.as_str())));
            }
        }
        (Value::Bool(a), Value::Bool(b)) => {
            if crate::text::str_eq(op, "==") {
                return Ok(Value::Bool(*a == *b));
            } else if crate::text::str_eq(op, "!=") {
                return Ok(Value::Bool(*a != *b));
            } else if crate::text::str_eq(op, "&&") {
                return Ok(Value::Bool(*a && *b));
            } else if crate::text::str_eq(op, "||") {
                return Ok(Value::Bool(*a || *b));
            }
        }
        _ => {}
    }
    Err(cannot_apply(host, op, &l, &r))
}

/// Applies the unary operator `op`: `!` on a boolean, `-` on an integer
/// (wrapping around on overflow) or, through the host, on a
/// floating-point number; anything else is a runtime error naming the
/// operator and the value.
pub fn eval_unaryop<H: Host>(host: &H, op: &str, v: Value) -> (r: Result<Value, EvalError>)
    ensures
        op@ == "!"@ && v is Bool ==> r == Ok::<Value, EvalError>(Value::Bool(!v->Bool_0)),
        op@ == "-"@ && v is Int ==> r == Ok::<Value, EvalError>(Value::Int((-v->Int_0) as i32)),
        op@ == "-"@ && v is Long ==> r == Ok::<Value, EvalError>(Value::Long((-v->Long_0) as i64)),
        !((op@ == "!"@ && v is Bool) || (op@ == "-"@ && (v is Int || v is Long || v is Double || v is Float)))
            && float_free(v) ==> (r matches Err(EvalError::Runtime(m))
            && m@ == "Cannot apply unary operator '"@ + op@ + "' to "@ + value_text(v)),
{
    let neg = crate::text::str_eq(op, "-");
    match &v {
        Value::Bool(b) => {
            if crate::text::str_eq(op, "!") {
                return Ok(Value::Bool(!*b));
            }
        }
        Value::Int(n) => {
            if neg {
                return Ok(Value::Int((-(*n as i64)) as i32));
            }
        }
        Value::Long(n) => {
            if neg {
                return Ok(Value::Long((-(*n as i128)) as i64));
            }
        }
        Value::Double(_) | Value::Float(_) => {
            if neg {
                return Ok(host.float_neg(&v));
            }
        }
        _ => {}
    }
    let mut m = owned("Cannot apply unary operator '");
    push_str(&mut m, op);
    push_str(&mut m, "' to ");
    v.show_into(host, &mut m);
    Err(EvalError::Runtime(m))
}

/// Whether `value` matches `pattern`: `_` and a variable match anything;
/// a literal an equal value (`lit_matches`); a record pattern a record
/// that has each of its fields, each matching; a variant pattern a variant
/// of the same constructor whose payload matches; an array or tuple
/// pattern an array of as many elements, each matching; `p @ name` what
/// `p` matches; constructor and guard patterns nothing.
pub open spec fn pattern_matches(pattern: Pattern, value: Value) -> bool
    decreases pattern, 0nat,
{
    match pattern {
        Pattern::Wildcard => true,
        Pattern::Var(_) => true,
        Pattern::Lit(l) => lit_matches(l, value),
        Pattern::Record(pats) => match value {
            Value::Record(vals) => {
                proof {
                    assert(decreases_to!(pats => pats.entries));
                    assert(decreases_to!(pats.entries => pats.entries@));
                }
                fields_match(pats.entries@, vals@, pats.entries@.len())
            },
            _ => false,
        },
        Pattern::Variant(pc, pp) => match value {
            Value::Variant(vc, vv) => pc@ == vc@ && pattern_matches(*pp, *vv),
            _ => false,
        },
        Pattern::Array(ps) => match value {
            Value::Array(vs) => {
                proof {
                    assert(decreases_to!(ps => ps@));
                }
                ps@.len() == vs@.len() && items_match(ps@, vs@, ps@.len())
            },
            _ => false,
        },
        Pattern::Tuple(ps) => match value {
            Value::Array(vs) => {
                proof {
                    assert(decreases_to!(ps => ps@));
                }
                ps@.len() == vs@.len() && items_match(ps@, vs@, ps@.len())
            },
            _ => false,
        },
        Pattern::As(inner, _) => pattern_matches(*inner, value),
        _ => false,
    }
}

/// Whether the first `n` field patterns each find their field in `vals`
/// and match it.
pub open spec fn fields_match(pats: Seq<(String, Pattern)>, vals: Map<Seq<char>, Value>, n: nat) -> bool
    decreases pats, n,
{
    if n == 0 || n > pats.len() {
        n == 0
    } else {
        fields_match(pats, vals, (n - 1) as nat) && vals.contains_key(pats[n - 1].0@) && pattern_matches(
            pats[n - 1].1,
            vals[pats[n - 1].0@],
        )
    }
}

/// Whether the first `n` patterns each match the value at the same place.
pub open spec fn items_match(pats: Seq<Pattern>, vals: Seq<Value>, n: nat) -> bool
    decreases pats, n,
{
    if n == 0 || n > pats.len() {
        n == 0
    } else {
        items_match(pats, vals, (n - 1) as nat) && pattern_matches(pats[n - 1], vals[n - 1])
    }
}

/// The names a match of `value` against `pattern` binds, in order, each
/// with what evaluation knows of the value it is bound to.
pub open spec fn pattern_binds(pattern: Pattern, value: Value) -> Seq<(Seq<char>, Option<Value>)>
    decreases pattern, 0nat,
{
    match pattern {
        Pattern::Var(n) => seq![(n@, known(value))],
        Pattern::Record(pats) => match value {
            Value::Record(vals) => {
                proof {
                    assert(decreases_to!(pats => pats.entries));
                    assert(decreases_to!(pats.entries => pats.entries@));
                }
                fields_binds(pats.entries@, vals@, pats.entries@.len())
            },
            _ => Seq::empty(),
        },
        Pattern::Variant(_, pp) => match value {
            Value::Variant(_, vv) => pattern_binds(*pp, *vv),
            _ => Seq::empty(),
        },
        Pattern::Array(ps) => match value {
            Value::Array(vs) => {
                proof {
                    assert(decreases_to!(ps => ps@));
                }
                items_binds(ps@, vs@, ps@.len())
            },
            _ => Seq::empty(),
        },
        Pattern::Tuple(ps) => match value {
            Value::Array(vs) => {
                proof {
                    assert(decreases_to!(ps => ps@));
                }
                items_binds(ps@, vs@, ps@.len())
            },
            _ => Seq::empty(),
        },
        Pattern::As(inner, n) => pattern_binds(*inner, value).push((n@, known(value))),
        _ => Seq::empty(),
    }
}

/// The bindings of the first `n` field patterns, in turn.
pub open spec fn fields_binds(pats: Seq<(String, Pattern)>, vals: Map<Seq<char>, Value>, n: nat) -> Seq<
    (Seq<char>, Option<Value>),
>
    decreases pats, n,
{
    if n == 0 || n > pats.len() {
        Seq::empty()
    } else {
        fields_binds(pats, vals, (n - 1) as nat) + pattern_binds(pats[n - 1].1, vals[pats[n - 1].0@])
    }
}

/// The bindings of the first `n` patterns against the values at the same
/// places, in turn.
pub open spec fn items_binds(pats: Seq<Pattern>, vals: Seq<Value>, n: nat) -> Seq<(Seq<char>, Option<Value>)>
    decreases pats, n,
{
    if n == 0 || n > pats.len() {
        Seq::empty()
    } else {
        items_binds(pats, vals, (n - 1) as nat) + pattern_binds(pats[n - 1], vals[n - 1])
    }
}

/// Bindings by name and what is known of each value.
pub open spec fn binds_view(b: Seq<(String, Value)>) -> Seq<(Seq<char>, Option<Value>)> {
    Seq::new(b.len(), |i: int| (b[i].0@, known(b[i].1)))
}

proof fn lemma_fields_match_prefix(pats: Seq<(String, Pattern)>, vals: Map<Seq<char>, Value>, n: nat, k: nat)
    requires
        fields_match(pats, vals, n),
        k <= n,
    ensures
        fields_match(pats, vals, k),
    decreases n - k,
{
    if k < n {
        lemma_fields_match_prefix(pats, vals, (n - 1) as nat, k);
    }
}

proof fn lemma_items_match_prefix(pats: Seq<Pattern>, vals: Seq<Value>, n: nat, k: nat)
    requires
        items_match(pats, vals, n),
        k <= n,
    ensures
        items_match(pats, vals, k),
    decreases n - k,
{
    if k < n {
        lemma_items_match_prefix(pats, vals, (n - 1) as nat, k);
    }
}

/// A variant pattern matches a variant only of its own constructor, and
/// then exactly when its inner pattern matches the payload; it matches
/// nothing else.
pub proof fn law_variant_pattern(pc: String, pp: Pattern, v: Value)
    ensures
        pattern_matches(Pattern::Variant(pc, Box::new(pp)), v) <==> (v matches Value::Variant(vc, vv) && vc@ == pc@
            && pattern_matches(pp, *vv)),
{
}

/// Matches `value` against `pattern`: the names it binds, with their
/// values, or none when it does not match. `_` matches anything and binds
/// nothing; a variable binds the whole value; a literal pattern matches an
/// equal `int`, `long`, `bool`, `str`, `char` or unit; records match field
/// by field, variants of the same constructor by their contents, arrays
/// and tuples (against arrays of the same length) element by element, and
/// `p @ name` binds `name` after what `p` binds.
#[verifier::loop_isolation(false)]
pub fn match_pattern(pattern: &Pattern, value: &Value) -> (r: Option<Vec<(String, Value)>>)
    ensures
        pattern is Wildcard ==> (r matches Some(b) && b@.len() == 0),
        pattern matches Pattern::Var(n) ==> (r matches Some(b) && b@.len() == 1 && b@[0].0@ == n@
            && known(b@[0].1) == known(*value)),
        pattern matches Pattern::Lit(l) ==> (r is Some <==> lit_matches(*l, *value)),
        pattern matches Pattern::Lit(_) && r is Some ==> r->0@.len() == 0,
        pattern is Constructor || pattern is Guard ==> r is None,
        r is Some <==> pattern_matches(*pattern, *value),
        r matches Some(b) ==> binds_view(b@) == pattern_binds(*pattern, *value),
    decreases pattern,
{
    match (pattern, value) {
        (Pattern::Wildcard, _) => {
            let r: Vec<(String, Value)> = Vec::new();
            assert(binds_view(r@) =~= pattern_binds(*pattern, *value));
            Some(r)
        }
        (Pattern::Var(name), v) => {
            let r = vec![(name.clone(), v.copy())];
            assert(binds_view(r@) =~= pattern_binds(*pattern, *value));
            Some(r)
        }
        (Pattern::Lit(lit), v) => {
            let hit = match (lit, v) {
                (Literal::Int(a), Value::Int(b)) => *a == *b,
                (Literal::Long(a), Value::Long(b)) => *a == *b,
                (Literal::Bool(a), Value::Bool(b)) => *a == *b,
                (Literal::String(a), Value::String(b)) => crate::text::str_eq(a.as_str(), b.as_str()),
                (Literal::Char(a), Value::Char(b)) => *a == *b,
                (Literal::Unit, Value::Unit) => true,
                _ => false,
            };
            if hit {
                let r: Vec<(String, Value)> = Vec::new();
                assert(binds_view(r@) =~= pattern_binds(*pattern, *value));
                Some(r)
            } else {
                None
            }
        }
        (Pattern::Record(pats), Value::Record(vals)) => {
            let mut bindings: Vec<(String, Value)> = Vec::new();
            let ghost ps = pats.entries@;
            let mut i: usize = 0;
            while i < pats.entries.len()
                invariant
                    i <= ps.len(),
                    fields_match(ps, vals@, i as nat),
                    binds_view(bindings@) == fields_binds(ps, vals@, i as nat),
                decreases pats.entries.len() - i,
            {
                proof {
                    assert(decreases_to!(pattern => pats));
                    assert(decreases_to!(pats => pats.entries));
                    assert(decreases_to!(pats.entries => pats.entries@));
                }
                let val = match vals.get(pats.entries[i].0.as_str()) {
                    Some(x) => x,
                    None => {
                        proof {
                            if fields_match(ps, vals@, ps.len()) {
                                lemma_fields_match_prefix(ps, vals@, ps.len(), (i + 1) as nat);
                            }
                        }
                        return None;
                    }
                };
                let mut bs = match match_pattern(&pats.entries[i].1, val) {
                    Some(bs) => bs,
                    None => {
                        proof {
                            if fields_match(ps, vals@, ps.len()) {
                                lemma_fields_match_prefix(ps, vals@, ps.len(), (i + 1) as nat);
                            }
                        }
                        return None;
                    }
                };
                let ghost before = bindings@;
                let ghost added = bs@;
                bindings.append(&mut bs);
                assert(binds_view(bindings@) =~= binds_view(before) + binds_view(added));
                i += 1;
            }
            Some(bindings)
        }
        (Pattern::Variant(pc, pp), Value::Variant(vc, vv)) => {
            if crate::text::str_eq(pc.as_str(), vc.as_str()) {
                match_pattern(pp, vv)
            } else {
                None
            }
        }
        (Pattern::Array(pats), Value::Array(vals)) | (Pattern::Tuple(pats), Value::Array(vals)) => {
            if pats.len() != vals.len() {
                return None;
            }
            let mut bindings: Vec<(String, Value)> = Vec::new();
            let mut i: usize = 0;
            while i < pats.len()
                invariant
                    pats@.len() == vals@.len(),
                    i <= pats@.len(),
                    items_match(pats@, vals@, i as nat),
                    binds_view(bindings@) == items_binds(pats@, vals@, i as nat),
                decreases pats.len() - i,
            {
                proof {
                    assert(decreases_to!(pats => pats@));
                }
                let mut bs = match match_pattern(&pats[i], &vals[i]) {
                    Some(bs) => bs,
                    None => {
                        proof {
                            if items_match(pats@, vals@, pats@.len()) {
                                lemma_items_match_prefix(pats@, vals@, pats@.len(), (i + 1) as nat);
                            }
                        }
                        return None;
                    }
                };
                let ghost before = bindings@;
                let ghost added = bs@;
                bindings.append(&mut bs);
                assert(binds_view(bindings@) =~= binds_view(before) + binds_view(added));
                i += 1;
            }
            Some(bindings)
        }
        (Pattern::As(inner, name), v) => {
            let mut bindings = match match_pattern(inner, v) {
                Some(bs) => bs,
                None => {
                    return None;
                }
            };
            let ghost before = bindings@;
            bindings.push((name.clone(), v.copy()));
            assert(binds_view(bindings@) =~= binds_view(before).push((name@, known(*value))));
            Some(bindings)
        }
        _ => None,
    }
}

} // verus!
