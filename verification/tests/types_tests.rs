use calvin_rs::name_map::NameMap;
use calvin_rs::types::env::{default_type_env, TypeEnv};
use calvin_rs::types::infer::{occurs_check, unify, TypeError};
use calvin_rs::types::subst::Substitution;
use calvin_rs::types::{fresh_tvar, reset_tvar_counter, Constraint, MonoType, PolyType, QualType};

fn tvar(name: &str) -> MonoType {
    MonoType::TVar(name.to_string())
}

// ---- types ----

#[test]
fn test_primitive_display() {
    assert_eq!(MonoType::Int.to_string(), "int");
    assert_eq!(MonoType::Bool.to_string(), "bool");
    assert_eq!(MonoType::Unit.to_string(), "()");
}

#[test]
fn test_func_display() {
    let func_ty = MonoType::Func(vec![MonoType::Int, MonoType::Int], Box::new(MonoType::Bool));
    assert_eq!(func_ty.to_string(), "(int, int) -> bool");
}

#[test]
fn test_record_display() {
    let mut fields = NameMap::new();
    fields.insert("x".to_string(), MonoType::Int);
    fields.insert("y".to_string(), MonoType::Double);
    let rec = MonoType::Record(fields);
    assert_eq!(rec.to_string(), "{x: int, y: double}");
}

#[test]
fn test_free_vars() {
    let ty = MonoType::Func(vec![tvar("a")], Box::new(tvar("b")));
    let mut fv = ty.free_vars();
    fv.sort();
    assert_eq!(fv, vec!["a", "b"]);
}

#[test]
fn test_is_numeric() {
    assert!(MonoType::Int.is_numeric());
    assert!(MonoType::Double.is_numeric());
    assert!(!MonoType::Bool.is_numeric());
    assert!(!MonoType::Str.is_numeric());
}

#[test]
fn test_size_of() {
    assert_eq!(MonoType::Unit.size_of(), Some(0));
    assert_eq!(MonoType::Int.size_of(), Some(4));
    assert_eq!(MonoType::Long.size_of(), Some(8));
    assert_eq!(MonoType::FixedArray(Box::new(MonoType::Int), 10).size_of(), Some(40));
}

#[test]
fn other_type_displays() {
    assert_eq!(MonoType::TGen(3).to_string(), "'3");
    let app = MonoType::TApp(Box::new(tvar("List")), vec![MonoType::Int, MonoType::Str]);
    assert_eq!(app.to_string(), "(List int str)");
    let mut ctors = NameMap::new();
    ctors.insert("None".to_string(), MonoType::Unit);
    ctors.insert("Some".to_string(), MonoType::Int);
    assert_eq!(MonoType::Variant(ctors).to_string(), "(None () | Some int)");
    assert_eq!(MonoType::FixedArray(Box::new(MonoType::Byte), 16).to_string(), "[byte; 16]");
    assert_eq!(MonoType::Array(Box::new(MonoType::Char)).to_string(), "[char]");
    assert_eq!(MonoType::Exists("a".to_string(), Box::new(tvar("a"))).to_string(), "exists a. a");
    assert_eq!(MonoType::Recursive("r".to_string(), Box::new(tvar("r"))).to_string(), "mu r. r");
    assert_eq!(MonoType::Alias("Name".to_string(), Box::new(MonoType::Str)).to_string(), "Name");
    assert_eq!(MonoType::Func(vec![], Box::new(MonoType::Unit)).to_string(), "() -> ()");
}

#[test]
fn qualified_and_scheme_displays() {
    let c = Constraint { name: "Eq".to_string(), types: vec![tvar("a")] };
    assert_eq!(c.to_string(), "Eq a");
    let qt = QualType::qualified(vec![c], MonoType::Func(vec![tvar("a")], Box::new(MonoType::Bool)));
    assert_eq!(qt.to_string(), "(Eq a) => (a) -> bool");
    let pt = PolyType::from_qual(2, QualType::unqualified(MonoType::TGen(1)));
    assert_eq!(pt.to_string(), "forall '0 '1. '1");
    assert_eq!(PolyType::mono(MonoType::Int).to_string(), "int");
}

#[test]
fn error_messages() {
    assert_eq!(TypeError::UnificationFailure(MonoType::Int, MonoType::Bool).to_string(), "Cannot unify int with bool");
    assert_eq!(TypeError::OccursCheck("a".to_string(), tvar("a")).to_string(), "Occurs check failed: a occurs in a");
    assert_eq!(TypeError::ArityMismatch { expected: 2, found: 1 }.to_string(), "Arity mismatch: expected 2 arguments, found 1");
    assert_eq!(TypeError::TypeMismatch { expected: MonoType::Int, found: MonoType::Str }.to_string(), "Type mismatch: expected int, found str");
    assert_eq!(TypeError::Other("boom".to_string()).to_string(), "boom");
}

#[test]
fn size_of_non_fixed_types() {
    assert_eq!(MonoType::Str.size_of(), None);
    assert_eq!(MonoType::Array(Box::new(MonoType::Int)).size_of(), None);
    assert_eq!(MonoType::FixedArray(Box::new(MonoType::Str), 3).size_of(), None);
    assert_eq!(MonoType::FixedArray(Box::new(MonoType::FixedArray(Box::new(MonoType::Short), 3)), 2).size_of(), Some(12));
}

#[test]
fn free_vars_respect_binders_and_dedup() {
    let ty = MonoType::Func(vec![tvar("b"), tvar("a"), tvar("b")], Box::new(MonoType::Exists("c".to_string(), Box::new(MonoType::Func(vec![tvar("c")], Box::new(tvar("a")))))));
    assert_eq!(ty.free_vars(), vec!["a", "b"]);
}

#[test]
fn fresh_variables_count_up() {
    let mut counter: usize = 0;
    reset_tvar_counter(&mut counter);
    assert_eq!(fresh_tvar(&mut counter), "t0");
    assert_eq!(fresh_tvar(&mut counter), "t1");
    assert_eq!(counter, 2);
    let pt = PolyType::from_qual(2, QualType::unqualified(MonoType::Func(vec![MonoType::TGen(0)], Box::new(MonoType::TGen(1)))));
    let qt = pt.instantiate(&mut counter);
    assert_eq!(qt.mono, MonoType::Func(vec![tvar("t2")], Box::new(tvar("t3"))));
    assert_eq!(counter, 4);
}

// ---- substitutions ----

#[test]
fn test_empty_substitution() {
    let subst = Substitution::new();
    assert!(subst.is_empty());
    assert_eq!(subst.lookup("a"), None);
}

#[test]
fn test_bind_and_lookup() {
    let mut subst = Substitution::new();
    subst.bind("a", MonoType::Int);
    assert_eq!(subst.lookup("a"), Some(&MonoType::Int));
    assert_eq!(subst.lookup("b"), None);
}

#[test]
fn test_apply_subst() {
    let mut subst = Substitution::new();
    subst.bind("a", MonoType::Int);
    let ty = tvar("a");
    assert_eq!(ty.apply_subst(&subst), MonoType::Int);
}

#[test]
fn test_compose() {
    let mut s1 = Substitution::new();
    s1.bind("a", MonoType::Int);
    let mut s2 = Substitution::new();
    s2.bind("b", tvar("a"));
    let composed = s1.compose(&s2);
    assert_eq!(composed.lookup("b"), Some(&MonoType::Int));
    assert_eq!(composed.lookup("a"), Some(&MonoType::Int));
}

#[test]
fn test_without() {
    let mut subst = Substitution::new();
    subst.bind("a", MonoType::Int);
    subst.bind("b", MonoType::Bool);
    let filtered = subst.without("a");
    assert_eq!(filtered.lookup("a"), None);
    assert_eq!(filtered.lookup("b"), Some(&MonoType::Bool));
}

#[test]
fn test_from_tgens() {
    let subst = Substitution::from_tgens(&[MonoType::Int, MonoType::Bool]);
    assert_eq!(subst.lookup_gen(0), Some(&MonoType::Int));
    assert_eq!(subst.lookup_gen(1), Some(&MonoType::Bool));
    assert_eq!(subst.lookup_gen(2), None);
}

#[test]
fn substitution_does_not_capture_binders() {
    let mut subst = Substitution::new();
    subst.bind("a", MonoType::Int);
    let ty = MonoType::Func(vec![tvar("a")], Box::new(MonoType::Exists("a".to_string(), Box::new(tvar("a")))));
    assert_eq!(
        ty.apply_subst(&subst),
        MonoType::Func(vec![MonoType::Int], Box::new(MonoType::Exists("a".to_string(), Box::new(tvar("a")))))
    );
}

#[test]
fn rebinding_replaces_and_iter_lists_in_name_order() {
    let mut subst = Substitution::new();
    subst.bind("b", MonoType::Int);
    subst.bind("a", MonoType::Str);
    subst.bind("b", MonoType::Bool);
    let names: Vec<&str> = subst.iter().iter().map(|(k, _)| k.as_str()).collect();
    assert_eq!(names, vec!["a", "b"]);
    assert_eq!(subst.lookup("b"), Some(&MonoType::Bool));
}

// ---- unification ----

#[test]
fn test_unify_same_primitives() {
    let result = unify(&MonoType::Int, &MonoType::Int);
    assert!(result.is_ok());
    assert!(result.unwrap().is_empty());
}

#[test]
fn test_unify_different_primitives_fails() {
    let result = unify(&MonoType::Int, &MonoType::Bool);
    assert!(result.is_err());
}

#[test]
fn test_unify_tvar_with_concrete() {
    let result = unify(&tvar("a"), &MonoType::Int);
    assert!(result.is_ok());
    let subst = result.unwrap();
    assert_eq!(subst.lookup("a"), Some(&MonoType::Int));
}

#[test]
fn test_unify_concrete_with_tvar() {
    let result = unify(&MonoType::Int, &tvar("a"));
    assert!(result.is_ok());
    let subst = result.unwrap();
    assert_eq!(subst.lookup("a"), Some(&MonoType::Int));
}

#[test]
fn test_unify_two_tvars() {
    let result = unify(&tvar("a"), &tvar("b"));
    assert!(result.is_ok());
}

#[test]
fn test_unify_same_tvar() {
    let result = unify(&tvar("a"), &tvar("a"));
    assert!(result.is_ok());
    assert!(result.unwrap().is_empty());
}

#[test]
fn test_occurs_check_fails() {
    let result = unify(&tvar("a"), &MonoType::Array(Box::new(tvar("a"))));
    assert!(result.is_err());
}

#[test]
fn test_unify_functions() {
    let f1 = MonoType::Func(vec![tvar("a")], Box::new(tvar("b")));
    let f2 = MonoType::Func(vec![MonoType::Int], Box::new(MonoType::Bool));
    let result = unify(&f1, &f2);
    assert!(result.is_ok());
    let subst = result.unwrap();
    assert_eq!(subst.lookup("a"), Some(&MonoType::Int));
    assert_eq!(subst.lookup("b"), Some(&MonoType::Bool));
}

#[test]
fn test_unify_function_arity_mismatch() {
    let f1 = MonoType::Func(vec![MonoType::Int, MonoType::Int], Box::new(MonoType::Int));
    let f2 = MonoType::Func(vec![MonoType::Int], Box::new(MonoType::Int));
    let result = unify(&f1, &f2);
    assert!(result.is_err());
}

#[test]
fn test_unify_arrays() {
    let a1 = MonoType::Array(Box::new(tvar("a")));
    let a2 = MonoType::Array(Box::new(MonoType::Int));
    let result = unify(&a1, &a2);
    assert!(result.is_ok());
    assert_eq!(result.unwrap().lookup("a"), Some(&MonoType::Int));
}

#[test]
fn test_unify_records() {
    let mut fields1 = NameMap::new();
    fields1.insert("x".to_string(), tvar("a"));
    let mut fields2 = NameMap::new();
    fields2.insert("x".to_string(), MonoType::Int);
    let result = unify(&MonoType::Record(fields1), &MonoType::Record(fields2));
    assert!(result.is_ok());
    assert_eq!(result.unwrap().lookup("a"), Some(&MonoType::Int));
}

#[test]
fn unify_errors_name_their_cause() {
    match unify(&tvar("a"), &MonoType::Array(Box::new(tvar("a")))) {
        Err(TypeError::OccursCheck(name, _)) => assert_eq!(name, "a"),
        other => panic!("unexpected {:?}", other),
    }
    match unify(&MonoType::Int, &MonoType::Bool) {
        Err(TypeError::UnificationFailure(a, b)) => {
            assert_eq!(a, MonoType::Int);
            assert_eq!(b, MonoType::Bool);
        }
        other => panic!("unexpected {:?}", other),
    }
    let f1 = MonoType::Func(vec![MonoType::Int, MonoType::Int], Box::new(MonoType::Int));
    let f2 = MonoType::Func(vec![MonoType::Int], Box::new(MonoType::Int));
    match unify(&f1, &f2) {
        Err(TypeError::ArityMismatch { expected, found }) => {
            assert_eq!(expected, 2);
            assert_eq!(found, 1);
        }
        other => panic!("unexpected {:?}", other),
    }
}

#[test]
fn unifier_makes_both_sides_equal() {
    let t1 = MonoType::Func(vec![tvar("a"), MonoType::Array(Box::new(tvar("b")))], Box::new(tvar("a")));
    let t2 = MonoType::Func(vec![MonoType::Int, tvar("c")], Box::new(tvar("a")));
    let s = unify(&t1, &t2).unwrap();
    assert_eq!(t1.apply_subst(&s), t2.apply_subst(&s));
}

#[test]
fn occurs_check_sees_free_occurrences_only() {
    assert!(occurs_check("a", &MonoType::Array(Box::new(tvar("a")))));
    assert!(!occurs_check("a", &MonoType::Array(Box::new(tvar("b")))));
    assert!(!occurs_check("a", &MonoType::Exists("a".to_string(), Box::new(tvar("a")))));
}

// ---- environments ----

#[test]
fn test_lookup_binding() {
    let mut env = TypeEnv::new();
    env.bind_mono("x", MonoType::Int);
    assert!(env.has_binding("x"));
    assert!(!env.has_binding("y"));
}

#[test]
fn test_child_env_inherits() {
    let mut parent = TypeEnv::new();
    parent.bind_mono("x", MonoType::Int);
    let child = TypeEnv::child(parent);
    assert!(child.has_binding("x"));
}

#[test]
fn test_child_env_shadows() {
    let mut parent = TypeEnv::new();
    parent.bind_mono("x", MonoType::Int);
    let mut child = TypeEnv::child(parent);
    child.bind_mono("x", MonoType::Bool);
    let pt = child.lookup("x").unwrap();
    assert_eq!(pt.body.mono, MonoType::Bool);
}

#[test]
fn test_type_alias() {
    let mut env = TypeEnv::new();
    env.alias("MyInt", MonoType::Int);
    assert_eq!(env.unalias("MyInt"), Some(&MonoType::Int));
    assert_eq!(env.unalias("Unknown"), None);
}

#[test]
fn test_generalize() {
    let env = TypeEnv::new();
    let qt = QualType::unqualified(MonoType::Func(vec![tvar("a")], Box::new(tvar("a"))));
    let pt = env.generalize(&qt);
    assert_eq!(pt.vars, 1);
}

#[test]
fn test_default_env_has_operators() {
    let env = default_type_env();
    assert!(env.has_binding("+"));
    assert!(env.has_binding("=="));
    assert!(env.has_binding("&&"));
}

#[test]
fn generalize_skips_variables_free_in_the_environment() {
    let mut env = TypeEnv::new();
    env.bind_mono("x", tvar("b"));
    let qt = QualType::unqualified(MonoType::Func(vec![tvar("b"), tvar("a")], Box::new(tvar("c"))));
    let pt = env.generalize(&qt);
    assert_eq!(pt.vars, 2);
    assert_eq!(pt.body.mono, MonoType::Func(vec![tvar("b"), MonoType::TGen(0)], Box::new(MonoType::TGen(1))));
}

#[test]
fn generalize_shadowed_parent_binding_does_not_count() {
    let mut parent = TypeEnv::new();
    parent.bind_mono("x", tvar("a"));
    let mut child = TypeEnv::child(parent);
    child.bind_mono("x", MonoType::Int);
    let pt = child.generalize(&QualType::unqualified(tvar("a")));
    assert_eq!(pt.vars, 1);
    assert_eq!(pt.body.mono, MonoType::TGen(0));
}

#[test]
fn generalize_then_instantiate_gives_fresh_variables() {
    let env = TypeEnv::new();
    let qt = QualType::unqualified(MonoType::Func(vec![tvar("x")], Box::new(tvar("y"))));
    let pt = env.generalize(&qt);
    let mut counter: usize = 7;
    let inst = pt.instantiate(&mut counter);
    assert_eq!(inst.mono, MonoType::Func(vec![tvar("t7")], Box::new(tvar("t8"))));
}

#[test]
fn unbind_and_immediate_bindings() {
    let mut parent = TypeEnv::new();
    parent.bind_mono("x", MonoType::Int);
    let mut child = TypeEnv::child(parent);
    child.bind_mono("x", MonoType::Bool);
    assert!(child.has_immediate_binding("x"));
    child.unbind("x");
    assert!(!child.has_immediate_binding("x"));
    assert_eq!(child.lookup("x").unwrap().body.mono, MonoType::Int);
}

#[test]
fn bound_variables_and_all_bindings() {
    let mut parent = TypeEnv::new();
    parent.bind_mono("z", MonoType::Int);
    parent.bind_mono("a", MonoType::Int);
    let mut child = TypeEnv::child(parent);
    child.bind_mono("m", MonoType::Str);
    child.bind_mono("a", MonoType::Bool);
    assert_eq!(child.bound_variables(), vec!["a", "m", "z"]);
    let all = child.all_bindings();
    assert_eq!(all.len(), 3);
    assert_eq!(all.get("a").unwrap().body.mono, MonoType::Bool);
}

#[test]
fn classes_and_instances() {
    let env = default_type_env();
    let ord = env.lookup_class("Ord").unwrap();
    assert_eq!(ord.supers.len(), 1);
    assert_eq!(ord.supers[0].name, "Eq");
    let num = env.lookup_class("Num").unwrap();
    assert_eq!(num.members.len(), 3);
    assert!(env.lookup_class("Functor").is_none());
    let strlen = env.lookup("strlen").unwrap();
    assert_eq!(strlen.to_string(), "(str) -> long");
    assert_eq!(env.lookup("<=").unwrap().to_string(), "(int, int) -> bool");
    assert_eq!(env.bound_variables().len(), 23);

    let mut env = TypeEnv::child(env);
    let inst = calvin_rs::types::TypeClassInstance {
        class_name: "Show".to_string(),
        types: vec![MonoType::Int],
        constraints: vec![],
        members: NameMap::new(),
    };
    env.add_instance(inst);
    assert_eq!(env.find_instances("Show").len(), 1);
    assert_eq!(env.find_instances("Eq").len(), 0);
}
