//! The completeness of unification: on first-order types, whenever some
//! substitution of type variables makes two types equal, `unify` succeeds
//! (unless it runs out of depth, or meets a generic parameter), and every
//! such substitution factors through the one it returns.

use vstd::prelude::*;
use super::model::{SType, apply, simple, binder_free, fields_sorted, occurs_in, lemma_simple_list,
    lemma_simple_fields, lemma_occurs_in_list, lemma_occurs_in_fields, lemma_binder_free_list,
    lemma_binder_free_fields};
use super::subst::{SSubst, compose, empty_subst};
use super::infer::{spec_unify, unify_list, unify_fields, find_field, single, bind_var, same_primitive,
    lemma_find_field_first};
use super::laws::lemma_compose_apply;
use super::unify_laws::{subst_simple, self_unify_error, lemma_simple_binder_free, lemma_apply_simple,
    lemma_compose_refines};
use crate::text::{seq_lt, lemma_seq_lt_irreflexive};

verus! {

/// `u` makes `a` and `b` equal.
pub open spec fn unifies(u: SSubst, a: SType, b: SType) -> bool {
    apply(a, u.vars, u.gens) == apply(b, u.vars, u.gens)
}

/// `u` does to every variable that `s` binds what it does to the type `s`
/// binds it to: applying `s` first and then `u` is applying `u`.
pub open spec fn absorbs(u: SSubst, s: SSubst) -> bool {
    &&& s.gens == Map::<usize, SType>::empty()
    &&& forall|k: Seq<char>| #[trigger] s.vars.contains_key(k) ==> apply(s.vars[k], u.vars, u.gens) == apply(
        SType::TVar(k),
        u.vars,
        u.gens,
    )
}

/// The number of nodes of a type.
pub open spec fn tsize(t: SType) -> nat
    decreases t,
{
    match t {
        SType::TApp(f, args) => 1 + tsize(*f) + tsize_list(args),
        SType::Record(fs) => 1 + tsize_fields(fs),
        SType::Variant(fs) => 1 + tsize_fields(fs),
        SType::FixedArray(e, _) => 1 + tsize(*e),
        SType::Array(e) => 1 + tsize(*e),
        SType::Exists(_, b) => 1 + tsize(*b),
        SType::Recursive(_, b) => 1 + tsize(*b),
        SType::Func(ps, r) => 1 + tsize_list(ps) + tsize(*r),
        SType::Alias(_, b) => 1 + tsize(*b),
        _ => 1,
    }
}

/// The number of nodes of a list of types.
pub open spec fn tsize_list(s: Seq<SType>) -> nat
    decreases s,
{
    if s.len() == 0 {
        0
    } else {
        tsize(s[0]) + tsize_list(s.drop_first())
    }
}

/// The number of nodes of the types of a list of fields.
pub open spec fn tsize_fields(fs: Seq<(Seq<char>, SType)>) -> nat
    decreases fs,
{
    if fs.len() == 0 {
        0
    } else {
        tsize(fs[0].1) + tsize_fields(fs.drop_first())
    }
}

proof fn lemma_tsize_list_ge(s: Seq<SType>, i: int)
    requires
        0 <= i < s.len(),
    ensures
        tsize_list(s) >= tsize(s[i]),
    decreases s.len(),
{
    if i > 0 {
        lemma_tsize_list_ge(s.drop_first(), i - 1);
    }
}

proof fn lemma_tsize_fields_ge(fs: Seq<(Seq<char>, SType)>, i: int)
    requires
        0 <= i < fs.len(),
    ensures
        tsize_fields(fs) >= tsize(fs[i].1),
    decreases fs.len(),
{
    if i > 0 {
        lemma_tsize_fields_ge(fs.drop_first(), i - 1);
    }
}

/// A variable occurring in a type is, after any substitution, no larger
/// than the type, and strictly smaller when the type is not the variable.
proof fn lemma_occurs_size(n: Seq<char>, t: SType, u: SSubst)
    requires
        binder_free(t),
        occurs_in(n, t),
    ensures
        tsize(apply(t, u.vars, u.gens)) >= tsize(apply(SType::TVar(n), u.vars, u.gens)),
        !(t is TVar) ==> tsize(apply(t, u.vars, u.gens)) > tsize(apply(SType::TVar(n), u.vars, u.gens)),
    decreases t,
{
    let a = apply(t, u.vars, u.gens);
    match t {
        SType::TApp(f, args) => {
            lemma_binder_free_list(args);
            lemma_occurs_in_list(n, args);
            if occurs_in(n, *f) {
                lemma_occurs_size(n, *f, u);
            } else {
                let i = choose|i: int| 0 <= i < args.len() && #[trigger] occurs_in(n, args[i]);
                lemma_occurs_size(n, args[i], u);
                assert(a->TApp_1[i] == apply(args[i], u.vars, u.gens));
                lemma_tsize_list_ge(a->TApp_1, i);
            }
        },
        SType::Record(fs) => {
            lemma_binder_free_fields(fs);
            lemma_occurs_in_fields(n, fs);
            let i = choose|i: int| 0 <= i < fs.len() && #[trigger] occurs_in(n, fs[i].1);
            lemma_occurs_size(n, fs[i].1, u);
            assert(a->Record_0[i].1 == apply(fs[i].1, u.vars, u.gens));
            lemma_tsize_fields_ge(a->Record_0, i);
        },
        SType::Variant(fs) => {
            lemma_binder_free_fields(fs);
            lemma_occurs_in_fields(n, fs);
            let i = choose|i: int| 0 <= i < fs.len() && #[trigger] occurs_in(n, fs[i].1);
            lemma_occurs_size(n, fs[i].1, u);
            assert(a->Variant_0[i].1 == apply(fs[i].1, u.vars, u.gens));
            lemma_tsize_fields_ge(a->Variant_0, i);
        },
        SType::FixedArray(e, _) => lemma_occurs_size(n, *e, u),
        SType::Array(e) => lemma_occurs_size(n, *e, u),
        SType::Func(ps, r) => {
            lemma_binder_free_list(ps);
            lemma_occurs_in_list(n, ps);
            if occurs_in(n, *r) {
                lemma_occurs_size(n, *r, u);
            } else {
                let i = choose|i: int| 0 <= i < ps.len() && #[trigger] occurs_in(n, ps[i]);
                lemma_occurs_size(n, ps[i], u);
                assert(a->Func_0[i] == apply(ps[i], u.vars, u.gens));
                lemma_tsize_list_ge(a->Func_0, i);
            }
        },
        SType::Alias(_, inner) => lemma_occurs_size(n, *inner, u),
        _ => {},
    }
}

/// Substitutions that do the same to every variable, with the same generic
/// bindings, do the same to every type without binders.
proof fn lemma_apply_agree(t: SType, m1: Map<Seq<char>, SType>, m2: Map<Seq<char>, SType>, g: Map<usize, SType>)
    requires
        binder_free(t),
        forall|k: Seq<char>| #[trigger] apply(SType::TVar(k), m1, g) == apply(SType::TVar(k), m2, g),
    ensures
        apply(t, m1, g) == apply(t, m2, g),
    decreases t,
{
    match t {
        SType::TVar(k) => {
            assert(apply(SType::TVar(k), m1, g) == apply(SType::TVar(k), m2, g));
        },
        SType::TApp(f, args) => {
            lemma_apply_agree(*f, m1, m2, g);
            lemma_binder_free_list(args);
            assert forall|i: int| 0 <= i < args.len() implies #[trigger] apply(t, m1, g)->TApp_1[i] == apply(
                t,
                m2,
                g,
            )->TApp_1[i] by {
                lemma_apply_agree(args[i], m1, m2, g);
            }
            assert(apply(t, m1, g)->TApp_1 =~= apply(t, m2, g)->TApp_1);
        },
        SType::Record(fs) => {
            lemma_binder_free_fields(fs);
            assert forall|i: int| 0 <= i < fs.len() implies #[trigger] apply(t, m1, g)->Record_0[i] == apply(
                t,
                m2,
                g,
            )->Record_0[i] by {
                lemma_apply_agree(fs[i].1, m1, m2, g);
            }
            assert(apply(t, m1, g)->Record_0 =~= apply(t, m2, g)->Record_0);
        },
        SType::Variant(fs) => {
            lemma_binder_free_fields(fs);
            assert forall|i: int| 0 <= i < fs.len() implies #[trigger] apply(t, m1, g)->Variant_0[i] == apply(
                t,
                m2,
                g,
            )->Variant_0[i] by {
                lemma_apply_agree(fs[i].1, m1, m2, g);
            }
            assert(apply(t, m1, g)->Variant_0 =~= apply(t, m2, g)->Variant_0);
        },
        SType::FixedArray(e, _) => lemma_apply_agree(*e, m1, m2, g),
        SType::Array(e) => lemma_apply_agree(*e, m1, m2, g),
        SType::Func(ps, r) => {
            lemma_apply_agree(*r, m1, m2, g);
            lemma_binder_free_list(ps);
            assert forall|i: int| 0 <= i < ps.len() implies #[trigger] apply(t, m1, g)->Func_0[i] == apply(
                t,
                m2,
                g,
            )->Func_0[i] by {
                lemma_apply_agree(ps[i], m1, m2, g);
            }
            assert(apply(t, m1, g)->Func_0 =~= apply(t, m2, g)->Func_0);
        },
        SType::Alias(_, inner) => lemma_apply_agree(*inner, m1, m2, g),
        _ => {},
    }
}

/// When `u` absorbs `s`, applying `s` and then `u` is applying `u`.
proof fn lemma_absorbed(x: SType, u: SSubst, s: SSubst)
    requires
        binder_free(x),
        absorbs(u, s),
    ensures
        apply(apply(x, s.vars, s.gens), u.vars, u.gens) == apply(x, u.vars, u.gens),
{
    lemma_compose_apply(x, u, s);
    let c = compose(u, s);
    assert(c.gens =~= u.gens);
    assert forall|k: Seq<char>| #[trigger] apply(SType::TVar(k), c.vars, u.gens) == apply(SType::TVar(k), u.vars, u.gens) by {
        if s.vars.contains_key(k) {
            assert(c.vars[k] == apply(s.vars[k], u.vars, u.gens));
        }
    }
    lemma_apply_agree(x, c.vars, u.vars, u.gens);
}

/// A substitution that absorbs two absorbs their composition.
proof fn lemma_absorbs_compose(u: SSubst, s2: SSubst, s: SSubst)
    requires
        absorbs(u, s2),
        absorbs(u, s),
        subst_simple(s),
    ensures
        absorbs(u, compose(s2, s)),
{
    let c = compose(s2, s);
    assert(c.gens =~= Map::<usize, SType>::empty());
    assert forall|k: Seq<char>| #[trigger] c.vars.contains_key(k) implies apply(c.vars[k], u.vars, u.gens) == apply(
        SType::TVar(k),
        u.vars,
        u.gens,
    ) by {
        if s.vars.contains_key(k) {
            lemma_simple_binder_free(s.vars[k]);
            lemma_absorbed(s.vars[k], u, s2);
        }
    }
}

/// Unification is complete on first-order types: when a substitution `u`
/// of type variables makes `t1` and `t2` equal, unifying them fails only
/// by running out of depth or at a generic parameter, and otherwise gives
/// a most general unifier: `u` is what it returns followed by `u`.
pub proof fn law_unify_complete(t1: SType, t2: SType, depth: nat, u: SSubst)
    requires
        simple(t1),
        simple(t2),
        u.gens == Map::<usize, SType>::empty(),
        unifies(u, t1, t2),
    ensures
        spec_unify(t1, t2, depth) matches Err(e) ==> self_unify_error(e),
        spec_unify(t1, t2, depth) matches Ok(s) ==> absorbs(u, s) && subst_simple(s),
        spec_unify(t1, t2, depth) matches Ok(s) ==> forall|x: SType|
            binder_free(x) ==> #[trigger] apply(apply(x, s.vars, s.gens), u.vars, u.gens) == apply(x, u.vars, u.gens),
    decreases depth, 0nat,
{
    lemma_unify_complete(t1, t2, depth, u);
    if let Ok(s) = spec_unify(t1, t2, depth) {
        assert forall|x: SType| binder_free(x) implies #[trigger] apply(apply(x, s.vars, s.gens), u.vars, u.gens) == apply(
            x,
            u.vars,
            u.gens,
        ) by {
            lemma_absorbed(x, u, s);
        }
    }
}

#[verifier::spinoff_prover]
#[verifier::rlimit(80)]
proof fn lemma_unify_complete(t1: SType, t2: SType, depth: nat, u: SSubst)
    requires
        simple(t1),
        simple(t2),
        u.gens == Map::<usize, SType>::empty(),
        unifies(u, t1, t2),
    ensures
        spec_unify(t1, t2, depth) matches Err(e) ==> self_unify_error(e),
        spec_unify(t1, t2, depth) matches Ok(s) ==> absorbs(u, s) && subst_simple(s),
    decreases depth, 0nat,
{
    if depth == 0 {
        return;
    }
    let d = (depth - 1) as nat;
    let a1 = apply(t1, u.vars, u.gens);
    let a2 = apply(t2, u.vars, u.gens);
    if same_primitive(t1, t2) {
        return;
    }
    if t1 is TVar {
        let n = t1->TVar_0;
        if t2 is TVar && t2->TVar_0 == n {
            return;
        }
        if occurs_in(n, t2) {
            lemma_simple_binder_free(t2);
            lemma_occurs_size(n, t2, u);
            assert(false);
        }
        return;
    }
    if t2 is TVar {
        let m = t2->TVar_0;
        if occurs_in(m, t1) {
            lemma_simple_binder_free(t1);
            lemma_occurs_size(m, t1, u);
            assert(false);
        }
        return;
    }
    match (t1, t2) {
        (SType::TApp(f1, x1), SType::TApp(f2, x2)) => {
            assert(a1->TApp_1.len() == x1.len() && a2->TApp_1.len() == x2.len());
            lemma_unify_complete(*f1, *f2, d, u);
            if x1.len() == x2.len() {
                if let Ok(s) = spec_unify(*f1, *f2, d) {
                    lemma_simple_list(x1);
                    lemma_simple_list(x2);
                    assert forall|j: int| 0 <= j < x1.len() implies #[trigger] unifies(u, x1[j], x2[j]) by {
                        assert(a1->TApp_1[j] == a2->TApp_1[j]);
                    }
                    lemma_list_complete(x1, x2, 0, s, d, u);
                }
            }
        },
        (SType::Record(fs1), SType::Record(fs2)) => {
            assert(a1->Record_0.len() == fs1.len() && a2->Record_0.len() == fs2.len());
            lemma_simple_fields(fs1);
            lemma_simple_fields(fs2);
            assert forall|j: int| 0 <= j < fs1.len() implies #[trigger] fs1[j].0 == fs2[j].0 && unifies(
                u,
                fs1[j].1,
                fs2[j].1,
            ) by {
                assert(a1->Record_0[j] == a2->Record_0[j]);
            }
            lemma_fields_complete(fs1, fs2, 0, empty_subst(), d, false, u);
        },
        (SType::Variant(fs1), SType::Variant(fs2)) => {
            assert(a1->Variant_0.len() == fs1.len() && a2->Variant_0.len() == fs2.len());
            lemma_simple_fields(fs1);
            lemma_simple_fields(fs2);
            assert forall|j: int| 0 <= j < fs1.len() implies #[trigger] fs1[j].0 == fs2[j].0 && unifies(
                u,
                fs1[j].1,
                fs2[j].1,
            ) by {
                assert(a1->Variant_0[j] == a2->Variant_0[j]);
            }
            lemma_fields_complete(fs1, fs2, 0, empty_subst(), d, true, u);
        },
        (SType::FixedArray(e1, _), SType::FixedArray(e2, _)) => {
            lemma_unify_complete(*e1, *e2, d, u);
        },
        (SType::Array(e1), SType::Array(e2)) => {
            lemma_unify_complete(*e1, *e2, d, u);
        },
        (SType::Func(p1, r1), SType::Func(p2, r2)) => {
            assert(a1->Func_0.len() == p1.len() && a2->Func_0.len() == p2.len());
            lemma_simple_list(p1);
            lemma_simple_list(p2);
            assert forall|j: int| 0 <= j < p1.len() implies #[trigger] unifies(u, p1[j], p2[j]) by {
                assert(a1->Func_0[j] == a2->Func_0[j]);
            }
            lemma_list_complete(p1, p2, 0, empty_subst(), d, u);
            if let Ok(s) = unify_list(p1, p2, 0, empty_subst(), d) {
                lemma_apply_simple(*r1, s);
                lemma_apply_simple(*r2, s);
                lemma_simple_binder_free(*r1);
                lemma_simple_binder_free(*r2);
                lemma_absorbed(*r1, u, s);
                lemma_absorbed(*r2, u, s);
                let q1 = apply(*r1, s.vars, s.gens);
                let q2 = apply(*r2, s.vars, s.gens);
                lemma_unify_complete(q1, q2, d, u);
                if let Ok(s2) = spec_unify(q1, q2, d) {
                    lemma_absorbs_compose(u, s2, s);
                    lemma_compose_refines(s2, s);
                }
            }
        },
        _ => {},
    }
}

proof fn lemma_list_complete(xs: Seq<SType>, ys: Seq<SType>, i: int, s: SSubst, depth: nat, u: SSubst)
    requires
        0 <= i,
        xs.len() == ys.len(),
        forall|j: int| 0 <= j < xs.len() ==> #[trigger] simple(xs[j]),
        forall|j: int| 0 <= j < ys.len() ==> #[trigger] simple(ys[j]),
        forall|j: int| 0 <= j < xs.len() ==> #[trigger] unifies(u, xs[j], ys[j]),
        u.gens == Map::<usize, SType>::empty(),
        absorbs(u, s),
        subst_simple(s),
    ensures
        unify_list(xs, ys, i, s, depth) matches Err(e) ==> self_unify_error(e),
        unify_list(xs, ys, i, s, depth) matches Ok(r) ==> absorbs(u, r) && subst_simple(r),
    decreases depth, xs.len() - i,
{
    if i >= xs.len() {
        return;
    }
    assert(unifies(u, xs[i], ys[i]));
    lemma_apply_simple(xs[i], s);
    lemma_apply_simple(ys[i], s);
    lemma_simple_binder_free(xs[i]);
    lemma_simple_binder_free(ys[i]);
    lemma_absorbed(xs[i], u, s);
    lemma_absorbed(ys[i], u, s);
    let q1 = apply(xs[i], s.vars, s.gens);
    let q2 = apply(ys[i], s.vars, s.gens);
    lemma_unify_complete(q1, q2, depth, u);
    if let Ok(s2) = spec_unify(q1, q2, depth) {
        lemma_absorbs_compose(u, s2, s);
        lemma_compose_refines(s2, s);
        lemma_list_complete(xs, ys, i + 1, compose(s2, s), depth, u);
    }
}

proof fn lemma_fields_complete(
    fs1: Seq<(Seq<char>, SType)>,
    fs2: Seq<(Seq<char>, SType)>,
    i: int,
    s: SSubst,
    depth: nat,
    ctors: bool,
    u: SSubst,
)
    requires
        0 <= i,
        fs1.len() == fs2.len(),
        fields_sorted(fs2),
        forall|j: int| 0 <= j < fs1.len() ==> #[trigger] simple(fs1[j].1),
        forall|j: int| 0 <= j < fs2.len() ==> #[trigger] simple(fs2[j].1),
        forall|j: int| 0 <= j < fs1.len() ==> #[trigger] fs1[j].0 == fs2[j].0 && unifies(u, fs1[j].1, fs2[j].1),
        u.gens == Map::<usize, SType>::empty(),
        absorbs(u, s),
        subst_simple(s),
    ensures
        unify_fields(fs1, fs2, i, s, depth, ctors) matches Err(e) ==> self_unify_error(e),
        unify_fields(fs1, fs2, i, s, depth, ctors) matches Ok(r) ==> absorbs(u, r) && subst_simple(r),
    decreases depth, fs1.len() - i,
{
    if i >= fs1.len() {
        return;
    }
    assert(fs1[i].0 == fs2[i].0 && unifies(u, fs1[i].1, fs2[i].1));
    assert forall|j: int| 0 <= j < i implies fs2[j].0 != fs2[i].0 by {
        assert(seq_lt(fs2[j].0, fs2[i].0));
        lemma_seq_lt_irreflexive(fs2[i].0);
    }
    lemma_find_field_first(fs2, fs2[i].0, i);
    lemma_apply_simple(fs1[i].1, s);
    lemma_apply_simple(fs2[i].1, s);
    lemma_simple_binder_free(fs1[i].1);
    lemma_simple_binder_free(fs2[i].1);
    lemma_absorbed(fs1[i].1, u, s);
    lemma_absorbed(fs2[i].1, u, s);
    let q1 = apply(fs1[i].1, s.vars, s.gens);
    let q2 = apply(fs2[i].1, s.vars, s.gens);
    lemma_unify_complete(q1, q2, depth, u);
    if let Ok(s2) = spec_unify(q1, q2, depth) {
        lemma_absorbs_compose(u, s2, s);
        lemma_compose_refines(s2, s);
        lemma_fields_complete(fs1, fs2, i + 1, compose(s2, s), depth, ctors, u);
    }
}

} // verus!
