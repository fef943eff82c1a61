//! Laws of substitution: the empty substitution changes nothing, bindings
//! of absent variables change nothing, and composing substitutions is
//! applying them one after the other.

use vstd::prelude::*;
use super::model::{SType, apply, occurs_in, binder_free, lemma_occurs_in_list, lemma_occurs_in_fields, lemma_binder_free_list, lemma_binder_free_fields};
use super::subst::{SSubst, compose, empty_subst};

verus! {

/// Applying a substitution with no generic bindings leaves a type alone
/// when none of the bound variables occurs free in it.
pub proof fn lemma_apply_absent(t: SType, vars: Map<Seq<char>, SType>, gens: Map<usize, SType>)
    requires
        forall|x: Seq<char>| #[trigger] vars.contains_key(x) ==> !occurs_in(x, t),
        gens == Map::<usize, SType>::empty(),
    ensures
        apply(t, vars, gens) == t,
    decreases t,
{
    match t {
        SType::TApp(f, args) => {
            lemma_apply_absent(*f, vars, gens);
            assert forall|i: int| 0 <= i < args.len() implies #[trigger] apply(t, vars, gens)->TApp_1[i] == args[i] by {
                assert forall|x: Seq<char>| #[trigger] vars.contains_key(x) implies !occurs_in(x, args[i]) by {
                    lemma_occurs_in_list(x, args);
                }
                lemma_apply_absent(args[i], vars, gens);
            }
            assert(apply(t, vars, gens)->TApp_1 =~= args);
        }
        SType::Record(fs) => {
            assert forall|i: int| 0 <= i < fs.len() implies #[trigger] apply(t, vars, gens)->Record_0[i] == fs[i] by {
                assert forall|x: Seq<char>| #[trigger] vars.contains_key(x) implies !occurs_in(x, fs[i].1) by {
                    lemma_occurs_in_fields(x, fs);
                }
                lemma_apply_absent(fs[i].1, vars, gens);
            }
            assert(apply(t, vars, gens)->Record_0 =~= fs);
        }
        SType::Variant(fs) => {
            assert forall|i: int| 0 <= i < fs.len() implies #[trigger] apply(t, vars, gens)->Variant_0[i] == fs[i] by {
                assert forall|x: Seq<char>| #[trigger] vars.contains_key(x) implies !occurs_in(x, fs[i].1) by {
                    lemma_occurs_in_fields(x, fs);
                }
                lemma_apply_absent(fs[i].1, vars, gens);
            }
            assert(apply(t, vars, gens)->Variant_0 =~= fs);
        }
        SType::FixedArray(e, _) => {
            lemma_apply_absent(*e, vars, gens);
        }
        SType::Array(e) => {
            lemma_apply_absent(*e, vars, gens);
        }
        SType::Exists(b, body) => {
            assert forall|x: Seq<char>| #[trigger] vars.remove(b).contains_key(x) implies !occurs_in(x, *body) by {}
            lemma_apply_absent(*body, vars.remove(b), gens);
        }
        SType::Recursive(b, body) => {
            assert forall|x: Seq<char>| #[trigger] vars.remove(b).contains_key(x) implies !occurs_in(x, *body) by {}
            lemma_apply_absent(*body, vars.remove(b), gens);
        }
        SType::Func(ps, r) => {
            lemma_apply_absent(*r, vars, gens);
            assert forall|i: int| 0 <= i < ps.len() implies #[trigger] apply(t, vars, gens)->Func_0[i] == ps[i] by {
                assert forall|x: Seq<char>| #[trigger] vars.contains_key(x) implies !occurs_in(x, ps[i]) by {
                    lemma_occurs_in_list(x, ps);
                }
                lemma_apply_absent(ps[i], vars, gens);
            }
            assert(apply(t, vars, gens)->Func_0 =~= ps);
        }
        SType::Alias(_, inner) => {
            lemma_apply_absent(*inner, vars, gens);
        }
        _ => {}
    }
}

/// Applying the empty substitution changes nothing.
pub proof fn lemma_apply_empty(t: SType)
    ensures
        apply(t, empty_subst().vars, empty_subst().gens) == t,
{
    lemma_apply_absent(t, empty_subst().vars, empty_subst().gens);
}

/// Composition is sequential application: on a type without binders,
/// applying `compose(s1, s2)` equals applying `s2` and then `s1`.
pub proof fn lemma_compose_apply(t: SType, s1: SSubst, s2: SSubst)
    requires
        binder_free(t),
    ensures
        apply(t, compose(s1, s2).vars, compose(s1, s2).gens) == apply(apply(t, s2.vars, s2.gens), s1.vars, s1.gens),
    decreases t,
{
    let c = compose(s1, s2);
    match t {
        SType::TVar(n) => {}
        SType::TGen(k) => {}
        SType::TApp(f, args) => {
            lemma_compose_apply(*f, s1, s2);
            lemma_binder_free_list(args);
            assert forall|i: int| 0 <= i < args.len() implies #[trigger] apply(t, c.vars, c.gens)->TApp_1[i]
                == apply(apply(t, s2.vars, s2.gens), s1.vars, s1.gens)->TApp_1[i] by {
                lemma_compose_apply(args[i], s1, s2);
            }
            assert(apply(t, c.vars, c.gens)->TApp_1 =~= apply(apply(t, s2.vars, s2.gens), s1.vars, s1.gens)->TApp_1);
        }
        SType::Record(fs) => {
            lemma_binder_free_fields(fs);
            assert forall|i: int| 0 <= i < fs.len() implies #[trigger] apply(t, c.vars, c.gens)->Record_0[i]
                == apply(apply(t, s2.vars, s2.gens), s1.vars, s1.gens)->Record_0[i] by {
                lemma_compose_apply(fs[i].1, s1, s2);
            }
            assert(apply(t, c.vars, c.gens)->Record_0 =~= apply(apply(t, s2.vars, s2.gens), s1.vars, s1.gens)->Record_0);
        }
        SType::Variant(fs) => {
            lemma_binder_free_fields(fs);
            assert forall|i: int| 0 <= i < fs.len() implies #[trigger] apply(t, c.vars, c.gens)->Variant_0[i]
                == apply(apply(t, s2.vars, s2.gens), s1.vars, s1.gens)->Variant_0[i] by {
                lemma_compose_apply(fs[i].1, s1, s2);
            }
            assert(apply(t, c.vars, c.gens)->Variant_0 =~= apply(apply(t, s2.vars, s2.gens), s1.vars, s1.gens)->Variant_0);
        }
        SType::FixedArray(e, _) => {
            lemma_compose_apply(*e, s1, s2);
        }
        SType::Array(e) => {
            lemma_compose_apply(*e, s1, s2);
        }
        SType::Func(ps, r) => {
            lemma_compose_apply(*r, s1, s2);
            lemma_binder_free_list(ps);
            assert forall|i: int| 0 <= i < ps.len() implies #[trigger] apply(t, c.vars, c.gens)->Func_0[i]
                == apply(apply(t, s2.vars, s2.gens), s1.vars, s1.gens)->Func_0[i] by {
                lemma_compose_apply(ps[i], s1, s2);
            }
            assert(apply(t, c.vars, c.gens)->Func_0 =~= apply(apply(t, s2.vars, s2.gens), s1.vars, s1.gens)->Func_0);
        }
        SType::Alias(_, inner) => {
            lemma_compose_apply(*inner, s1, s2);
        }
        _ => {}
    }
}

} // verus!
