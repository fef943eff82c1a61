//! The soundness of unification: on first-order types, a successful
//! `unify(t1, t2)` returns a substitution that makes `t1` and `t2` equal.

use vstd::prelude::*;
use super::model::{SType, apply, simple, binder_free, fields_sorted, lemma_simple_list,
    lemma_simple_fields, occurs_in};
use super::subst::{SSubst, compose, empty_subst};
use super::infer::{spec_unify, unify_list, unify_fields, find_field, single, bind_var,
    same_primitive, lemma_find_field_bounds, STypeError, depth_message};
use super::laws::{lemma_apply_absent, lemma_compose_apply, lemma_apply_empty};
use crate::text::{seq_lt, lemma_seq_lt_total, lemma_seq_lt_asymmetric, lemma_seq_lt_transitive,
    lemma_seq_lt_irreflexive};

verus! {

/// Every type bound by `s` is first-order.
pub open spec fn subst_simple(s: SSubst) -> bool {
    &&& forall|k: Seq<char>| #[trigger] s.vars.contains_key(k) ==> simple(s.vars[k])
    &&& forall|k: usize| #[trigger] s.gens.contains_key(k) ==> simple(s.gens[k])
}

/// Whatever `s` makes equal, `r` makes equal too (on types without
/// binders).
pub open spec fn refines(r: SSubst, s: SSubst) -> bool {
    forall|x: SType, y: SType|
        binder_free(x) && binder_free(y) && #[trigger] apply(x, s.vars, s.gens) == #[trigger] apply(y, s.vars, s.gens)
            ==> apply(x, r.vars, r.gens) == apply(y, r.vars, r.gens)
}

pub proof fn lemma_simple_binder_free(t: SType)
    requires
        simple(t),
    ensures
        binder_free(t),
    decreases t,
{
    match t {
        SType::TApp(f, args) => {
            lemma_simple_binder_free(*f);
            lemma_simple_list(args);
            assert forall|i: int| 0 <= i < args.len() implies #[trigger] binder_free(args[i]) by {
                lemma_simple_binder_free(args[i]);
            }
            super::model::lemma_binder_free_list(args);
        }
        SType::Record(fs) => {
            lemma_simple_fields(fs);
            assert forall|i: int| 0 <= i < fs.len() implies #[trigger] binder_free(fs[i].1) by {
                lemma_simple_binder_free(fs[i].1);
            }
            super::model::lemma_binder_free_fields(fs);
        }
        SType::Variant(fs) => {
            lemma_simple_fields(fs);
            assert forall|i: int| 0 <= i < fs.len() implies #[trigger] binder_free(fs[i].1) by {
                lemma_simple_binder_free(fs[i].1);
            }
            super::model::lemma_binder_free_fields(fs);
        }
        SType::FixedArray(e, _) => lemma_simple_binder_free(*e),
        SType::Array(e) => lemma_simple_binder_free(*e),
        SType::Func(ps, r) => {
            lemma_simple_binder_free(*r);
            lemma_simple_list(ps);
            assert forall|i: int| 0 <= i < ps.len() implies #[trigger] binder_free(ps[i]) by {
                lemma_simple_binder_free(ps[i]);
            }
            super::model::lemma_binder_free_list(ps);
        }
        _ => {}
    }
}

/// A first-order substitution keeps a first-order type first-order.
pub proof fn lemma_apply_simple(t: SType, s: SSubst)
    requires
        simple(t),
        subst_simple(s),
    ensures
        simple(apply(t, s.vars, s.gens)),
    decreases t,
{
    let a = apply(t, s.vars, s.gens);
    match t {
        SType::TApp(f, args) => {
            lemma_apply_simple(*f, s);
            lemma_simple_list(args);
            assert forall|i: int| 0 <= i < args.len() implies #[trigger] simple(a->TApp_1[i]) by {
                lemma_apply_simple(args[i], s);
            }
            lemma_simple_list(a->TApp_1);
        }
        SType::Record(fs) => {
            lemma_simple_fields(fs);
            assert forall|i: int| 0 <= i < fs.len() implies #[trigger] simple(a->Record_0[i].1) by {
                lemma_apply_simple(fs[i].1, s);
            }
            lemma_simple_fields(a->Record_0);
            assert forall|i: int, j: int| 0 <= i < j < a->Record_0.len() implies seq_lt(#[trigger] a->Record_0[i].0, #[trigger] a->Record_0[j].0) by {
                assert(a->Record_0[i].0 == fs[i].0);
                assert(a->Record_0[j].0 == fs[j].0);
            }
        }
        SType::Variant(fs) => {
            lemma_simple_fields(fs);
            assert forall|i: int| 0 <= i < fs.len() implies #[trigger] simple(a->Variant_0[i].1) by {
                lemma_apply_simple(fs[i].1, s);
            }
            lemma_simple_fields(a->Variant_0);
            assert forall|i: int, j: int| 0 <= i < j < a->Variant_0.len() implies seq_lt(#[trigger] a->Variant_0[i].0, #[trigger] a->Variant_0[j].0) by {
                assert(a->Variant_0[i].0 == fs[i].0);
                assert(a->Variant_0[j].0 == fs[j].0);
            }
        }
        SType::FixedArray(e, _) => lemma_apply_simple(*e, s),
        SType::Array(e) => lemma_apply_simple(*e, s),
        SType::Func(ps, r) => {
            lemma_apply_simple(*r, s);
            lemma_simple_list(ps);
            assert forall|i: int| 0 <= i < ps.len() implies #[trigger] simple(a->Func_0[i]) by {
                lemma_apply_simple(ps[i], s);
            }
            lemma_simple_list(a->Func_0);
        }
        _ => {}
    }
}

/// Composing first-order substitutions gives one that refines the second
/// and is first-order.
pub proof fn lemma_compose_refines(s2: SSubst, s: SSubst)
    requires
        subst_simple(s2),
        subst_simple(s),
    ensures
        refines(compose(s2, s), s),
        subst_simple(compose(s2, s)),
{
    let c = compose(s2, s);
    assert forall|x: SType, y: SType|
        binder_free(x) && binder_free(y) && #[trigger] apply(x, s.vars, s.gens) == #[trigger] apply(y, s.vars, s.gens)
        implies apply(x, c.vars, c.gens) == apply(y, c.vars, c.gens) by {
        lemma_compose_apply(x, s2, s);
        lemma_compose_apply(y, s2, s);
    }
    assert forall|k: Seq<char>| #[trigger] c.vars.contains_key(k) implies simple(c.vars[k]) by {
        if s.vars.contains_key(k) {
            lemma_apply_simple(s.vars[k], s2);
        }
    }
    assert forall|k: usize| #[trigger] c.gens.contains_key(k) implies simple(c.gens[k]) by {
        if s.gens.contains_key(k) {
            lemma_apply_simple(s.gens[k], s2);
        }
    }
}

/// Two strictly sorted field lists of the same length, where each name of
/// the first is a name of the second, list the same names in the same
/// order.
pub proof fn lemma_sorted_same_names(fs1: Seq<(Seq<char>, SType)>, fs2: Seq<(Seq<char>, SType)>)
    requires
        fields_sorted(fs1),
        fields_sorted(fs2),
        fs1.len() == fs2.len(),
        forall|i: int| 0 <= i < fs1.len() ==> #[trigger] find_field(fs2, fs1[i].0) is Some,
    ensures
        forall|i: int| 0 <= i < fs1.len() ==> #[trigger] find_field(fs2, fs1[i].0) == Some(i),
{
    let n = fs1.len() as int;
    let f = |i: int| find_field(fs2, fs1[i].0)->0;
    assert forall|i: int| 0 <= i < n implies 0 <= #[trigger] f(i) < n && fs2[f(i)].0 == fs1[i].0 by {
        assert(find_field(fs2, fs1[i].0) is Some);
        lemma_find_field_bounds(fs2, fs1[i].0);
    }
    // f is strictly increasing
    assert forall|i: int, j: int| 0 <= i < j < n implies #[trigger] f(i) < #[trigger] f(j) by {
        assert(0 <= f(i) < n && fs2[f(i)].0 == fs1[i].0);
        assert(0 <= f(j) < n && fs2[f(j)].0 == fs1[j].0);
        assert(seq_lt(fs1[i].0, fs1[j].0));
        if f(i) == f(j) {
            lemma_seq_lt_irreflexive(fs1[i].0);
        } else if f(i) > f(j) {
            assert(seq_lt(fs2[f(j)].0, fs2[f(i)].0));
            lemma_seq_lt_asymmetric(fs1[i].0, fs1[j].0);
        }
    }
    // hence f(i) >= i and f(i) <= i
    assert forall|i: int| 0 <= i < n implies #[trigger] find_field(fs2, fs1[i].0) == Some(i) by {
        lemma_increasing_ge(f, n, i);
        lemma_increasing_le(f, n, i);
        assert(find_field(fs2, fs1[i].0) is Some);
    }
}

proof fn lemma_increasing_ge(f: spec_fn(int) -> int, n: int, i: int)
    requires
        0 <= i < n,
        forall|k: int| 0 <= k < n ==> 0 <= #[trigger] f(k) < n,
        forall|a: int, b: int| 0 <= a < b < n ==> #[trigger] f(a) < #[trigger] f(b),
    ensures
        f(i) >= i,
    decreases i,
{
    if i > 0 {
        lemma_increasing_ge(f, n, i - 1);
        assert(f(i - 1) < f(i));
    } else {
        assert(0 <= f(0));
    }
}

proof fn lemma_increasing_le(f: spec_fn(int) -> int, n: int, i: int)
    requires
        0 <= i < n,
        forall|k: int| 0 <= k < n ==> 0 <= #[trigger] f(k) < n,
        forall|a: int, b: int| 0 <= a < b < n ==> #[trigger] f(a) < #[trigger] f(b),
    ensures
        f(i) <= i,
    decreases n - i,
{
    if i < n - 1 {
        lemma_increasing_le(f, n, i + 1);
        assert(f(i) < f(i + 1));
    } else {
        assert(f(i) < n);
    }
}

/// Unification is sound: when it succeeds on first-order types, the
/// substitution it returns makes the two types equal (and binds only
/// first-order types).
#[verifier::spinoff_prover]
#[verifier::rlimit(60)]
pub proof fn lemma_unify_sound(t1: SType, t2: SType, depth: nat)
    requires
        simple(t1),
        simple(t2),
    ensures
        spec_unify(t1, t2, depth) matches Ok(s) ==> apply(t1, s.vars, s.gens) == apply(t2, s.vars, s.gens)
            && subst_simple(s),
    decreases depth, 0nat,
{
    if depth == 0 {
        return;
    }
    let d = (depth - 1) as nat;
    let e = empty_subst();
    if same_primitive(t1, t2) {
        return;
    } else if t1 is TVar {
        let n = t1->TVar_0;
        if t2 is TVar && t2->TVar_0 == n {
            return;
        }
        if !occurs_in(n, t2) {
            let s = single(n, t2);
            assert forall|x: Seq<char>| #[trigger] s.vars.contains_key(x) implies !occurs_in(x, t2) by {}
            lemma_apply_absent(t2, s.vars, s.gens);
        }
        return;
    } else if t2 is TVar {
        let n = t2->TVar_0;
        if !occurs_in(n, t1) {
            let s = single(n, t1);
            assert forall|x: Seq<char>| #[trigger] s.vars.contains_key(x) implies !occurs_in(x, t1) by {}
            lemma_apply_absent(t1, s.vars, s.gens);
        }
        return;
    }
    match (t1, t2) {
        (SType::TApp(f1, a1), SType::TApp(f2, a2)) => {
            if a1.len() == a2.len() {
                lemma_unify_sound(*f1, *f2, d);
                if let Ok(s) = spec_unify(*f1, *f2, d) {
                    lemma_simple_list(a1);
                    lemma_simple_list(a2);
                    lemma_unify_list_sound(a1, a2, 0, s, d);
                    if let Ok(r) = unify_list(a1, a2, 0, s, d) {
                        lemma_simple_binder_free(*f1);
                        lemma_simple_binder_free(*f2);
                        assert(apply(*f1, r.vars, r.gens) == apply(*f2, r.vars, r.gens));
                        let x = apply(t1, r.vars, r.gens);
                        let y = apply(t2, r.vars, r.gens);
                        assert forall|j: int| 0 <= j < a1.len() implies x->TApp_1[j] == y->TApp_1[j] by {
                            assert(apply(a1[j], r.vars, r.gens) == apply(a2[j], r.vars, r.gens));
                        }
                        assert(x->TApp_1 =~= y->TApp_1);
                    }
                }
            }
        }
        (SType::Record(fs1), SType::Record(fs2)) => {
            if fs1.len() == fs2.len() {
                lemma_simple_fields(fs1);
                lemma_simple_fields(fs2);
                lemma_unify_fields_sound(fs1, fs2, 0, e, d, false);
                if let Ok(r) = unify_fields(fs1, fs2, 0, e, d, false) {
                    lemma_sorted_same_names(fs1, fs2);
                    let x = apply(t1, r.vars, r.gens);
                    let y = apply(t2, r.vars, r.gens);
                    assert forall|i: int| 0 <= i < fs1.len() implies x->Record_0[i] == y->Record_0[i] by {
                        assert(find_field(fs2, fs1[i].0) == Some(i));
                        lemma_find_field_bounds(fs2, fs1[i].0);
                    }
                    assert(x->Record_0 =~= y->Record_0);
                }
            }
        }
        (SType::Variant(fs1), SType::Variant(fs2)) => {
            if fs1.len() == fs2.len() {
                lemma_simple_fields(fs1);
                lemma_simple_fields(fs2);
                lemma_unify_fields_sound(fs1, fs2, 0, e, d, true);
                if let Ok(r) = unify_fields(fs1, fs2, 0, e, d, true) {
                    lemma_sorted_same_names(fs1, fs2);
                    let x = apply(t1, r.vars, r.gens);
                    let y = apply(t2, r.vars, r.gens);
                    assert forall|i: int| 0 <= i < fs1.len() implies x->Variant_0[i] == y->Variant_0[i] by {
                        assert(find_field(fs2, fs1[i].0) == Some(i));
                        lemma_find_field_bounds(fs2, fs1[i].0);
                    }
                    assert(x->Variant_0 =~= y->Variant_0);
                }
            }
        }
        (SType::FixedArray(e1, n1), SType::FixedArray(e2, n2)) => {
            lemma_unify_sound(*e1, *e2, d);
        }
        (SType::Array(e1), SType::Array(e2)) => {
            lemma_unify_sound(*e1, *e2, d);
        }
        (SType::Func(p1, r1), SType::Func(p2, r2)) => {
            if p1.len() == p2.len() {
                lemma_simple_list(p1);
                lemma_simple_list(p2);
                lemma_unify_list_sound(p1, p2, 0, e, d);
                if let Ok(s) = unify_list(p1, p2, 0, e, d) {
                    lemma_apply_simple(*r1, s);
                    lemma_apply_simple(*r2, s);
                    let u1 = apply(*r1, s.vars, s.gens);
                    let u2 = apply(*r2, s.vars, s.gens);
                    lemma_unify_sound(u1, u2, d);
                    if let Ok(s2) = spec_unify(u1, u2, d) {
                        lemma_compose_refines(s2, s);
                        let c = compose(s2, s);
                        lemma_simple_binder_free(*r1);
                        lemma_simple_binder_free(*r2);
                        lemma_compose_apply(*r1, s2, s);
                        lemma_compose_apply(*r2, s2, s);
                        let x = apply(t1, c.vars, c.gens);
                        let y = apply(t2, c.vars, c.gens);
                        assert forall|i: int| 0 <= i < p1.len() implies x->Func_0[i] == y->Func_0[i] by {
                            lemma_simple_binder_free(p1[i]);
                            lemma_simple_binder_free(p2[i]);
                            assert(apply(p1[i], s.vars, s.gens) == apply(p2[i], s.vars, s.gens));
                            assert(apply(p1[i], c.vars, c.gens) == apply(p2[i], c.vars, c.gens));
                        }
                        assert(x->Func_0 =~= y->Func_0);
                    }
                }
            }
        }
        _ => {}
    }
}

/// Soundness for the list step: every pair from `i` on is made equal, the
/// pairs that `s` made equal stay equal, and only first-order types get
/// bound.
pub proof fn lemma_unify_list_sound(xs: Seq<SType>, ys: Seq<SType>, i: int, s: SSubst, depth: nat)
    requires
        xs.len() == ys.len(),
        0 <= i,
        forall|j: int| 0 <= j < xs.len() ==> #[trigger] simple(xs[j]),
        forall|j: int| 0 <= j < ys.len() ==> #[trigger] simple(ys[j]),
        subst_simple(s),
    ensures
        unify_list(xs, ys, i, s, depth) matches Ok(r) ==> {
            &&& refines(r, s)
            &&& subst_simple(r)
            &&& forall|j: int| i <= j < xs.len() ==> #[trigger] apply(xs[j], r.vars, r.gens) == apply(ys[j], r.vars, r.gens)
        },
    decreases depth, xs.len() - i,
{
    if i >= xs.len() {
        assert(refines(s, s));
        return;
    }
    lemma_apply_simple(xs[i], s);
    lemma_apply_simple(ys[i], s);
    let u1 = apply(xs[i], s.vars, s.gens);
    let u2 = apply(ys[i], s.vars, s.gens);
    lemma_unify_sound(u1, u2, depth);
    if let Ok(s2) = spec_unify(u1, u2, depth) {
        lemma_compose_refines(s2, s);
        let c = compose(s2, s);
        lemma_unify_list_sound(xs, ys, i + 1, c, depth);
        if let Ok(r) = unify_list(xs, ys, i + 1, c, depth) {
            lemma_simple_binder_free(xs[i]);
            lemma_simple_binder_free(ys[i]);
            lemma_compose_apply(xs[i], s2, s);
            lemma_compose_apply(ys[i], s2, s);
            assert(apply(xs[i], c.vars, c.gens) == apply(ys[i], c.vars, c.gens));
            assert(refines(r, s)) by {
                assert forall|x: SType, y: SType|
                    binder_free(x) && binder_free(y) && #[trigger] apply(x, s.vars, s.gens) == #[trigger] apply(y, s.vars, s.gens)
                    implies apply(x, r.vars, r.gens) == apply(y, r.vars, r.gens) by {
                    assert(apply(x, c.vars, c.gens) == apply(y, c.vars, c.gens));
                }
            }
        }
    }
}

/// Soundness for the field step: each field from `i` on is made equal to
/// the field of the same name, the pairs that `s` made equal stay equal,
/// and only first-order types get bound.
pub proof fn lemma_unify_fields_sound(
    fs1: Seq<(Seq<char>, SType)>,
    fs2: Seq<(Seq<char>, SType)>,
    i: int,
    s: SSubst,
    depth: nat,
    ctors: bool,
)
    requires
        0 <= i,
        forall|j: int| 0 <= j < fs1.len() ==> #[trigger] simple(fs1[j].1),
        forall|j: int| 0 <= j < fs2.len() ==> #[trigger] simple(fs2[j].1),
        subst_simple(s),
    ensures
        unify_fields(fs1, fs2, i, s, depth, ctors) matches Ok(r) ==> {
            &&& refines(r, s)
            &&& subst_simple(r)
            &&& forall|j: int| i <= j < fs1.len() ==> (#[trigger] find_field(fs2, fs1[j].0)) is Some
                && apply(fs1[j].1, r.vars, r.gens) == apply(fs2[find_field(fs2, fs1[j].0)->0].1, r.vars, r.gens)
        },
    decreases depth, fs1.len() - i,
{
    if i >= fs1.len() {
        assert(refines(s, s));
        return;
    }
    lemma_find_field_bounds(fs2, fs1[i].0);
    if let Some(k) = find_field(fs2, fs1[i].0) {
        lemma_apply_simple(fs1[i].1, s);
        lemma_apply_simple(fs2[k].1, s);
        let u1 = apply(fs1[i].1, s.vars, s.gens);
        let u2 = apply(fs2[k].1, s.vars, s.gens);
        lemma_unify_sound(u1, u2, depth);
        if let Ok(s2) = spec_unify(u1, u2, depth) {
            lemma_compose_refines(s2, s);
            let c = compose(s2, s);
            lemma_unify_fields_sound(fs1, fs2, i + 1, c, depth, ctors);
            if let Ok(r) = unify_fields(fs1, fs2, i + 1, c, depth, ctors) {
                lemma_simple_binder_free(fs1[i].1);
                lemma_simple_binder_free(fs2[k].1);
                lemma_compose_apply(fs1[i].1, s2, s);
                lemma_compose_apply(fs2[k].1, s2, s);
                assert(apply(fs1[i].1, c.vars, c.gens) == apply(fs2[k].1, c.vars, c.gens));
                assert(refines(r, s)) by {
                    assert forall|x: SType, y: SType|
                        binder_free(x) && binder_free(y) && #[trigger] apply(x, s.vars, s.gens) == #[trigger] apply(y, s.vars, s.gens)
                        implies apply(x, r.vars, r.gens) == apply(y, r.vars, r.gens) by {
                        assert(apply(x, c.vars, c.gens) == apply(y, c.vars, c.gens));
                    }
                }
            }
        }
    }
}

/// The errors unifying a type with itself can end in: running out of
/// depth, or a generic parameter, which unifies with nothing.
pub open spec fn self_unify_error(e: STypeError) -> bool {
    ||| e == STypeError::Other(depth_message())
    ||| (e matches STypeError::UnificationFailure(a, b) && a is TGen && a == b)
}

/// Unification is reflexive: a first-order type unifies with itself with
/// the empty substitution, failing only by running out of depth or at a
/// generic parameter.
pub proof fn law_unify_reflexive(t: SType, depth: nat)
    requires
        simple(t),
    ensures
        spec_unify(t, t, depth) matches Ok(s) ==> s == empty_subst(),
        spec_unify(t, t, depth) matches Err(e) ==> self_unify_error(e),
    decreases depth, 0nat,
{
    if depth == 0 {
        return;
    }
    let d = (depth - 1) as nat;
    if same_primitive(t, t) || t is TVar {
        return;
    }
    match t {
        SType::TApp(f, a) => {
            law_unify_reflexive(*f, d);
            lemma_simple_list(a);
            lemma_unify_list_reflexive(a, 0, d);
        },
        SType::Record(fs) => {
            lemma_simple_fields(fs);
            lemma_unify_fields_reflexive(fs, 0, d, false);
        },
        SType::Variant(fs) => {
            lemma_simple_fields(fs);
            lemma_unify_fields_reflexive(fs, 0, d, true);
        },
        SType::FixedArray(e, _) => {
            law_unify_reflexive(*e, d);
        },
        SType::Array(e) => {
            law_unify_reflexive(*e, d);
        },
        SType::Func(ps, r) => {
            lemma_simple_list(ps);
            lemma_unify_list_reflexive(ps, 0, d);
            lemma_apply_empty(*r);
            law_unify_reflexive(*r, d);
            let e = empty_subst();
            assert(compose(e, e) =~= e) by {
                assert(compose(e, e).vars =~= e.vars);
                assert(compose(e, e).gens =~= e.gens);
            }
        },
        _ => {},
    }
}

proof fn lemma_unify_list_reflexive(xs: Seq<SType>, i: int, depth: nat)
    requires
        0 <= i,
        forall|j: int| 0 <= j < xs.len() ==> #[trigger] simple(xs[j]),
    ensures
        unify_list(xs, xs, i, empty_subst(), depth) matches Ok(s) ==> s == empty_subst(),
        unify_list(xs, xs, i, empty_subst(), depth) matches Err(e) ==> self_unify_error(e),
    decreases depth, xs.len() - i,
{
    if i >= xs.len() {
        return;
    }
    let e = empty_subst();
    lemma_apply_empty(xs[i]);
    law_unify_reflexive(xs[i], depth);
    assert(compose(e, e) =~= e) by {
        assert(compose(e, e).vars =~= e.vars);
        assert(compose(e, e).gens =~= e.gens);
    }
    lemma_unify_list_reflexive(xs, i + 1, depth);
}

proof fn lemma_unify_fields_reflexive(fs: Seq<(Seq<char>, SType)>, i: int, depth: nat, ctors: bool)
    requires
        0 <= i,
        fields_sorted(fs),
        forall|j: int| 0 <= j < fs.len() ==> #[trigger] simple(fs[j].1),
    ensures
        unify_fields(fs, fs, i, empty_subst(), depth, ctors) matches Ok(s) ==> s == empty_subst(),
        unify_fields(fs, fs, i, empty_subst(), depth, ctors) matches Err(e) ==> self_unify_error(e),
    decreases depth, fs.len() - i,
{
    if i >= fs.len() {
        return;
    }
    let e = empty_subst();
    assert forall|j: int| 0 <= j < i implies fs[j].0 != fs[i].0 by {
        assert(seq_lt(fs[j].0, fs[i].0));
        lemma_seq_lt_irreflexive(fs[i].0);
    }
    super::infer::lemma_find_field_first(fs, fs[i].0, i);
    lemma_apply_empty(fs[i].1);
    law_unify_reflexive(fs[i].1, depth);
    assert(compose(e, e) =~= e) by {
        assert(compose(e, e).vars =~= e.vars);
        assert(compose(e, e).gens =~= e.gens);
    }
    lemma_unify_fields_reflexive(fs, i + 1, depth, ctors);
}

} // verus!
