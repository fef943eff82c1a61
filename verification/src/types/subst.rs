//! Type substitution.
//!
//! A substitution maps type variables (by name) and generic type indices
//! to types. It records the results of unification.

use vstd::prelude::*;
use crate::name_map::{NameMap, find_name, names_sorted, lemma_find_name_bounds,
    lemma_find_name_push, lemma_insert_entry_find, lemma_find_name_first, lemma_find_name_first_le,
    lemma_sorted_find};
use super::MonoType;
use super::model::{SType, apply};

verus! {

/// The model of a substitution: what each variable name and each generic
/// index is bound to.
pub struct SSubst {
    pub vars: Map<Seq<char>, SType>,
    pub gens: Map<usize, SType>,
}

/// The model of a list of named bindings: the first binding of each name.
pub open spec fn vars_map(s: Seq<(String, MonoType)>) -> Map<Seq<char>, SType> {
    Map::new(|k: Seq<char>| find_name(s, k) is Some, |k: Seq<char>| s[find_name(s, k)->0].1@)
}

/// The position of the first binding of index `k`.
pub open spec fn find_gen(s: Seq<(usize, MonoType)>, k: usize) -> Option<int>
    decreases s.len(),
{
    if s.len() == 0 {
        None
    } else if s[0].0 == k {
        Some(0)
    } else {
        match find_gen(s.drop_first(), k) {
            Some(i) => Some(i + 1),
            None => None,
        }
    }
}

/// The model of a list of indexed bindings: the first binding of each index.
pub open spec fn gens_map(s: Seq<(usize, MonoType)>) -> Map<usize, SType> {
    Map::new(|k: usize| find_gen(s, k) is Some, |k: usize| s[find_gen(s, k)->0].1@)
}

/// The composition of two substitution models: `s1` after `s2`. The
/// bindings of `s2`, with `s1` applied to them, take precedence over those
/// of `s1`.
pub open spec fn compose(s1: SSubst, s2: SSubst) -> SSubst {
    SSubst {
        vars: s1.vars.union_prefer_right(s2.vars.map_values(|t: SType| apply(t, s1.vars, s1.gens))),
        gens: s1.gens.union_prefer_right(s2.gens.map_values(|t: SType| apply(t, s1.vars, s1.gens))),
    }
}

/// The empty substitution model.
pub open spec fn empty_subst() -> SSubst {
    SSubst { vars: Map::empty(), gens: Map::empty() }
}

pub proof fn lemma_find_gen_bounds(s: Seq<(usize, MonoType)>, k: usize)
    ensures
        find_gen(s, k) matches Some(i) ==> 0 <= i < s.len() && s[i].0 == k,
        find_gen(s, k) is None ==> forall|i: int| 0 <= i < s.len() ==> s[i].0 != k,
    decreases s.len(),
{
    if s.len() > 0 {
        lemma_find_gen_bounds(s.drop_first(), k);
        if find_gen(s, k) is None {
            assert forall|i: int| 0 <= i < s.len() implies s[i].0 != k by {
                if i > 0 {
                    assert(s[i] == s.drop_first()[i - 1]);
                }
            }
        }
    }
}

pub proof fn lemma_find_gen_first(s: Seq<(usize, MonoType)>, k: usize, j: int)
    requires
        0 <= j < s.len(),
        s[j].0 == k,
        forall|i: int| 0 <= i < j ==> s[i].0 != k,
    ensures
        find_gen(s, k) == Some(j),
    decreases s.len(),
{
    if j > 0 {
        assert forall|i: int| 0 <= i < j - 1 implies s.drop_first()[i].0 != k by {
            assert(s.drop_first()[i] == s[i + 1]);
        }
        lemma_find_gen_first(s.drop_first(), k, j - 1);
    }
}

pub proof fn lemma_find_gen_first_le(s: Seq<(usize, MonoType)>, k: usize, j: int)
    requires
        0 <= j < s.len(),
        s[j].0 == k,
    ensures
        find_gen(s, k) matches Some(i) && i <= j,
    decreases s.len(),
{
    if j > 0 && s[0].0 != k {
        assert(s.drop_first()[j - 1] == s[j]);
        lemma_find_gen_first_le(s.drop_first(), k, j - 1);
    }
}

pub proof fn lemma_find_gen_push(s: Seq<(usize, MonoType)>, e: (usize, MonoType), k: usize)
    ensures
        find_gen(s.push(e), k) == (match find_gen(s, k) {
            Some(i) => Some(i),
            None => if e.0 == k { Some(s.len() as int) } else { None },
        }),
{
    lemma_find_gen_bounds(s, k);
    let r = s.push(e);
    match find_gen(s, k) {
        Some(i) => {
            assert forall|j: int| 0 <= j < i implies r[j].0 != k by {
                if s[j].0 == k {
                    lemma_find_gen_first_le(s, k, j);
                }
            }
            lemma_find_gen_first(r, k, i);
        }
        None => {
            if e.0 == k {
                lemma_find_gen_first(r, k, s.len() as int);
            } else {
                lemma_find_gen_bounds(r, k);
                if find_gen(r, k) is Some {
                    let j = find_gen(r, k)->0;
                    if j < s.len() {
                        assert(s[j].0 == k);
                    }
                }
            }
        }
    }
}

/// Appending a binding adds it to the model unless its name is bound
/// already.
pub proof fn lemma_vars_map_push(s: Seq<(String, MonoType)>, e: (String, MonoType))
    ensures
        vars_map(s.push(e)) == (if find_name(s, e.0@) is Some {
            vars_map(s)
        } else {
            vars_map(s).insert(e.0@, e.1@)
        }),
{
    let r = s.push(e);
    let m = if find_name(s, e.0@) is Some { vars_map(s) } else { vars_map(s).insert(e.0@, e.1@) };
    assert forall|k: Seq<char>| #[trigger] vars_map(r).contains_key(k) == m.contains_key(k)
        && (vars_map(r).contains_key(k) ==> vars_map(r)[k] == m[k]) by {
        lemma_find_name_push(s, e, k);
        lemma_find_name_push(s, e, e.0@);
        lemma_find_name_bounds(s, k);
        if let Some(j) = find_name(s, k) {
            assert(r[j] == s[j]);
        }
    }
    assert(vars_map(r) =~= m);
}

/// Appending a binding adds it to the model unless its index is bound
/// already.
pub proof fn lemma_gens_map_push(s: Seq<(usize, MonoType)>, e: (usize, MonoType))
    ensures
        gens_map(s.push(e)) == (if find_gen(s, e.0) is Some {
            gens_map(s)
        } else {
            gens_map(s).insert(e.0, e.1@)
        }),
{
    let r = s.push(e);
    let m = if find_gen(s, e.0) is Some { gens_map(s) } else { gens_map(s).insert(e.0, e.1@) };
    assert forall|k: usize| #[trigger] gens_map(r).contains_key(k) == m.contains_key(k)
        && (gens_map(r).contains_key(k) ==> gens_map(r)[k] == m[k]) by {
        lemma_find_gen_push(s, e, k);
        lemma_find_gen_push(s, e, e.0);
        lemma_find_gen_bounds(s, k);
        if let Some(j) = find_gen(s, k) {
            assert(r[j] == s[j]);
        }
    }
    assert(gens_map(r) =~= m);
}

/// Setting a name in the entries sets it in the model.
pub proof fn lemma_vars_map_insert(s: Seq<(String, MonoType)>, k: String, v: MonoType)
    ensures
        vars_map(crate::name_map::insert_entry(s, k, v)) == vars_map(s).insert(k@, v@),
{
    let r = crate::name_map::insert_entry(s, k, v);
    assert forall|k2: Seq<char>| #[trigger] vars_map(r).contains_key(k2) == vars_map(s).insert(k@, v@).contains_key(k2)
        && (vars_map(r).contains_key(k2) ==> vars_map(r)[k2] == vars_map(s).insert(k@, v@)[k2]) by {
        lemma_insert_entry_find(s, k, v, k2);
    }
    assert(vars_map(r) =~= vars_map(s).insert(k@, v@));
}

/// Bindings with the same names and models, in the same order, have the
/// same model.
pub proof fn lemma_vars_map_same(a: Seq<(String, MonoType)>, b: Seq<(String, MonoType)>)
    requires
        a.len() == b.len(),
        forall|i: int| 0 <= i < a.len() ==> (#[trigger] a[i]).0@ == b[i].0@ && a[i].1@ == b[i].1@,
    ensures
        vars_map(a) == vars_map(b),
{
    assert forall|k: Seq<char>| #[trigger] vars_map(a).contains_key(k) == vars_map(b).contains_key(k)
        && (vars_map(a).contains_key(k) ==> vars_map(a)[k] == vars_map(b)[k]) by {
        lemma_find_name_bounds(a, k);
        lemma_find_name_bounds(b, k);
        if let Some(i) = find_name(a, k) {
            assert forall|j: int| 0 <= j < i implies b[j].0@ != k by {
                if b[j].0@ == k {
                    assert(a[j].0@ == k);
                    lemma_find_name_first_le(a, k, j);
                }
            }
            lemma_find_name_first(b, k, i);
            assert(a[i].1@ == b[i].1@);
        } else {
            if let Some(i) = find_name(b, k) {
                assert(a[i].0@ == k);
            }
        }
    }
    assert(vars_map(a) =~= vars_map(b));
}

/// A substitution: bindings of type variables by name, and of generic type
/// indices.
#[derive(Debug)]
pub struct Substitution {
    vars: NameMap<MonoType>,
    gens: Vec<(usize, MonoType)>,
}

impl Substitution {
    /// The variable bindings are listed in strictly increasing name order.
    #[verifier::type_invariant]
    spec fn inv(self) -> bool {
        names_sorted(self.vars.entries@)
    }
}

impl View for Substitution {
    type V = SSubst;

    closed spec fn view(&self) -> SSubst {
        SSubst { vars: vars_map(self.vars.entries@), gens: gens_map(self.gens@) }
    }
}

impl Substitution {
    /// An empty substitution.
    pub fn new() -> (r: Self)
        ensures
            r@ == empty_subst(),
    {
        let r = Substitution { vars: NameMap::new(), gens: Vec::new() };
        proof {
            assert(r@.vars =~= Map::<Seq<char>, SType>::empty());
            assert(r@.gens =~= Map::<usize, SType>::empty());
        }
        r
    }

    /// The substitution that binds each generic index `i` to `types[i]`.
    pub fn from_tgens(types: &[MonoType]) -> (r: Self)
        ensures
            r@.vars == Map::<Seq<char>, SType>::empty(),
            forall|i: usize| #[trigger] r@.gens.contains_key(i) <==> i < types@.len(),
            forall|i: usize| i < types@.len() ==> #[trigger] r@.gens[i] == types@[i as int]@,
    {
        let mut gens: Vec<(usize, MonoType)> = Vec::new();
        let mut i: usize = 0;
        while i < types.len()
            invariant
                i <= types@.len(),
                gens@.len() == i,
                forall|j: int| 0 <= j < i ==> (#[trigger] gens@[j]).0 == j && gens@[j].1@ == types@[j]@,
            decreases types.len() - i,
        {
            gens.push((i, types[i].copy()));
            i += 1;
        }
        let r = Substitution { vars: NameMap::new(), gens };
        proof {
            assert(r@.vars =~= Map::<Seq<char>, SType>::empty());
            assert forall|k: usize| find_gen(gens@, k) == (if k < types@.len() { Some(k as int) } else { None }) by {
                lemma_find_gen_bounds(gens@, k);
                if k < types@.len() {
                    lemma_find_gen_first(gens@, k, k as int);
                }
            }
        }
        r
    }

    /// Binds the variable `name` to `ty`.
    pub fn bind(&mut self, name: &str, ty: MonoType)
        ensures
            final(self)@.vars == old(self)@.vars.insert(name@, ty@),
            final(self)@.gens == old(self)@.gens,
    {
        proof {
            use_type_invariant(&*self);
        }
        let key = crate::text::owned(name);
        let ghost s = self.vars.entries@;
        let ghost tv = ty@;
        let mut vars = NameMap::new();
        std::mem::swap(&mut vars, &mut self.vars);
        proof {
            lemma_vars_map_insert(s, key, ty);
        }
        vars.insert(key, ty);
        self.vars = vars;
    }

    /// The type bound to the variable `name`.
    pub fn lookup(&self, name: &str) -> (r: Option<&MonoType>)
        ensures
            r is Some <==> self@.vars.contains_key(name@),
            r matches Some(t) ==> t@ == self@.vars[name@],
    {
        proof {
            lemma_find_name_bounds(self.vars.entries@, name@);
        }
        self.vars.get(name)
    }

    /// The type bound to the generic index `idx`.
    pub fn lookup_gen(&self, idx: usize) -> (r: Option<&MonoType>)
        ensures
            r is Some <==> self@.gens.contains_key(idx),
            r matches Some(t) ==> t@ == self@.gens[idx],
    {
        let mut i: usize = 0;
        while i < self.gens.len()
            invariant
                i <= self.gens@.len(),
                forall|j: int| 0 <= j < i ==> self.gens@[j].0 != idx,
            decreases self.gens.len() - i,
        {
            if self.gens[i].0 == idx {
                proof {
                    lemma_find_gen_first(self.gens@, idx, i as int);
                }
                return Some(&self.gens[i].1);
            }
            i += 1;
        }
        proof {
            lemma_find_gen_bounds(self.gens@, idx);
            if find_gen(self.gens@, idx) is Some {
                let j = find_gen(self.gens@, idx)->0;
                assert(self.gens@[j].0 == idx);
            }
        }
        None
    }

    /// This substitution without a binding for the variable `name` (used
    /// so that a binder does not capture its own name).
    pub fn without(&self, name: &str) -> (r: Substitution)
        ensures
            r@.vars == self@.vars.remove(name@),
            r@.gens == self@.gens,
    {
        proof {
            use_type_invariant(self);
        }
        let s = &self.vars.entries;
        let mut out: Vec<(String, MonoType)> = Vec::new();
        let mut i: usize = 0;
        while i < s.len()
            invariant
                i <= s@.len(),
                forall|j: int| 0 <= j < out@.len() ==> (#[trigger] out@[j]).0@ != name@,
                vars_map(out@) == vars_map(s@.take(i as int)).remove(name@),
                names_sorted(s@),
                names_sorted(out@),
                forall|j: int| #![trigger out@[j]] 0 <= j < out@.len() ==> exists|l: int| 0 <= l < i && #[trigger] s@[l].0@ == out@[j].0@,
            decreases s.len() - i,
        {
            let ghost o0 = out@;
            proof {
                assert(s@.take(i + 1) =~= s@.take(i as int).push(s@[i as int]));
            }
            if !crate::text::str_eq(s[i].0.as_str(), name) {
                out.push((s[i].0.clone(), s[i].1.copy()));
                proof {
                    let e = out@[out@.len() - 1];
                    assert(out@ =~= o0.push(e));
                    assert forall|a: int, b: int| 0 <= a < b < out@.len() implies crate::text::seq_lt(#[trigger] out@[a].0@, #[trigger] out@[b].0@) by {
                        if b == out@.len() - 1 {
                            assert(out@[a] == o0[a]);
                            let l = choose|l: int| 0 <= l < i && #[trigger] s@[l].0@ == o0[a].0@;
                            assert(crate::text::seq_lt(s@[l].0@, s@[i as int].0@));
                        } else {
                            assert(out@[a] == o0[a]);
                            assert(out@[b] == o0[b]);
                        }
                    }
                    assert forall|j: int| #![trigger out@[j]] 0 <= j < out@.len() implies exists|l: int| 0 <= l < i + 1 && #[trigger] s@[l].0@ == out@[j].0@ by {
                        if j < o0.len() {
                            assert(out@[j] == o0[j]);
                            let l = choose|l: int| 0 <= l < i && #[trigger] s@[l].0@ == o0[j].0@;
                            assert(s@[l].0@ == out@[j].0@);
                        } else {
                            assert(s@[i as int].0@ == out@[j].0@);
                        }
                    }
                    lemma_vars_map_push(o0, e);
                    lemma_vars_map_push(s@.take(i as int), s@[i as int]);
                    lemma_find_name_bounds(o0, e.0@);
                    if find_name(o0, e.0@) is Some {
                        let j = find_name(o0, e.0@)->0;
                        let l = choose|l: int| 0 <= l < i && #[trigger] s@[l].0@ == o0[j].0@;
                        assert(crate::text::seq_lt(s@[l].0@, s@[i as int].0@));
                        crate::text::lemma_seq_lt_irreflexive(s@[i as int].0@);
                    }
                    lemma_find_name_bounds(s@.take(i as int), e.0@);
                    if find_name(s@.take(i as int), e.0@) is Some {
                        let l = find_name(s@.take(i as int), e.0@)->0;
                        assert(crate::text::seq_lt(s@[l].0@, s@[i as int].0@));
                        crate::text::lemma_seq_lt_irreflexive(s@[i as int].0@);
                    }
                    assert(vars_map(out@) =~= vars_map(s@.take(i + 1)).remove(name@));
                }
            } else {
                proof {
                    assert forall|j: int| #![trigger out@[j]] 0 <= j < out@.len() implies exists|l: int| 0 <= l < i + 1 && #[trigger] s@[l].0@ == out@[j].0@ by {
                        let l = choose|l: int| 0 <= l < i && #[trigger] s@[l].0@ == out@[j].0@;
                        assert(s@[l].0@ == out@[j].0@);
                    }
                    lemma_vars_map_push(s@.take(i as int), s@[i as int]);
                    assert(vars_map(out@) =~= vars_map(s@.take(i + 1)).remove(name@));
                }
            }
            i += 1;
        }
        let mut gens: Vec<(usize, MonoType)> = Vec::new();
        let mut j: usize = 0;
        while j < self.gens.len()
            invariant
                j <= self.gens@.len(),
                gens@.len() == j,
                forall|k: int| 0 <= k < j ==> (#[trigger] gens@[k]).0 == self.gens@[k].0 && gens@[k].1@ == self.gens@[k].1@,
            decreases self.gens.len() - j,
        {
            gens.push((self.gens[j].0, self.gens[j].1.copy()));
            j += 1;
        }
        let r = Substitution { vars: NameMap { entries: out }, gens };
        proof {
            assert(s@.take(i as int) =~= s@);
            lemma_gens_map_same(gens@, self.gens@);
        }
        r
    }

    /// The composition `self` after `other`: applying the result equals
    /// applying `other`, then `self` (see `lemma_compose_apply`).
    pub fn compose(&self, other: &Substitution) -> (r: Substitution)
        ensures
            r@ == compose(self@, other@),
    {
        proof {
            use_type_invariant(self);
            use_type_invariant(other);
        }
        // the bindings of `other`, with `self` applied to them
        let mut out: Vec<(String, MonoType)> = Vec::new();
        let mut i: usize = 0;
        while i < other.vars.entries.len()
            invariant
                i <= other.vars.entries@.len(),
                out@.len() == i,
                forall|j: int| 0 <= j < i ==> (#[trigger] out@[j]).0@ == other.vars.entries@[j].0@
                    && out@[j].1@ == apply(other.vars.entries@[j].1@, self@.vars, self@.gens),
            decreases other.vars.entries.len() - i,
        {
            let t = other.vars.entries[i].1.apply_subst(self);
            out.push((other.vars.entries[i].0.clone(), t));
            i += 1;
        }
        let ghost m0 = other@.vars.map_values(|t: SType| apply(t, self@.vars, self@.gens));
        proof {
            let os = other.vars.entries@;
            assert forall|k: Seq<char>| #[trigger] vars_map(out@).contains_key(k) == m0.contains_key(k)
                && (vars_map(out@).contains_key(k) ==> vars_map(out@)[k] == m0[k]) by {
                lemma_find_name_bounds(out@, k);
                lemma_find_name_bounds(os, k);
                if let Some(j) = find_name(os, k) {
                    assert forall|l: int| 0 <= l < j implies out@[l].0@ != k by {
                        if out@[l].0@ == k {
                            assert(os[l].0@ == k);
                            lemma_find_name_first_le(os, k, l);
                        }
                    }
                    lemma_find_name_first(out@, k, j);
                } else {
                    if let Some(j) = find_name(out@, k) {
                        assert(os[j].0@ == k);
                    }
                }
            }
            assert(vars_map(out@) =~= m0);
            assert(names_sorted(out@)) by {
                assert forall|a: int, b: int| 0 <= a < b < out@.len() implies crate::text::seq_lt(#[trigger] out@[a].0@, #[trigger] out@[b].0@) by {
                    assert(crate::text::seq_lt(os[a].0@, os[b].0@));
                }
            }
        }
        let mut res = NameMap { entries: out };
        let ss = &self.vars.entries;
        let mut i: usize = 0;
        while i < ss.len()
            invariant
                i <= ss@.len(),
                names_sorted(res.entries@),
                vars_map(res.entries@) == vars_map(ss@.take(i as int)).union_prefer_right(m0),
            decreases ss.len() - i,
        {
            let ghost p = vars_map(ss@.take(i as int));
            let ghost r0 = res.entries@;
            proof {
                assert(ss@.take(i + 1) =~= ss@.take(i as int).push(ss@[i as int]));
                lemma_vars_map_push(ss@.take(i as int), ss@[i as int]);
            }
            if !res.contains_key(ss[i].0.as_str()) {
                let k = ss[i].0.clone();
                let v = ss[i].1.copy();
                proof {
                    lemma_vars_map_insert(r0, k, v);
                    assert(!vars_map(r0).contains_key(k@));
                    assert(!p.contains_key(k@));
                    assert(vars_map(ss@.take(i + 1)) == p.insert(k@, v@));
                    assert(p.insert(k@, v@).union_prefer_right(m0) =~= p.union_prefer_right(m0).insert(k@, v@));
                }
                res.insert(k, v);
            } else {
                proof {
                    let k = ss@[i as int].0@;
                    assert(vars_map(r0).contains_key(k));
                    if !p.contains_key(k) {
                        assert(m0.contains_key(k));
                        assert(p.insert(k, ss@[i as int].1@).union_prefer_right(m0) =~= p.union_prefer_right(m0));
                    }
                }
            }
            i += 1;
        }
        proof {
            assert(ss@.take(i as int) =~= ss@);
        }
        // the generic bindings
        let mut gout: Vec<(usize, MonoType)> = Vec::new();
        let mut i: usize = 0;
        while i < other.gens.len()
            invariant
                i <= other.gens@.len(),
                gout@.len() == i,
                forall|j: int| 0 <= j < i ==> (#[trigger] gout@[j]).0 == other.gens@[j].0
                    && gout@[j].1@ == apply(other.gens@[j].1@, self@.vars, self@.gens),
            decreases other.gens.len() - i,
        {
            let t = other.gens[i].1.apply_subst(self);
            gout.push((other.gens[i].0, t));
            i += 1;
        }
        let ghost g0 = other@.gens.map_values(|t: SType| apply(t, self@.vars, self@.gens));
        proof {
            let os = other.gens@;
            assert forall|k: usize| #[trigger] gens_map(gout@).contains_key(k) == g0.contains_key(k)
                && (gens_map(gout@).contains_key(k) ==> gens_map(gout@)[k] == g0[k]) by {
                lemma_find_gen_bounds(gout@, k);
                lemma_find_gen_bounds(os, k);
                if let Some(j) = find_gen(os, k) {
                    assert forall|l: int| 0 <= l < j implies gout@[l].0 != k by {
                        if gout@[l].0 == k {
                            assert(os[l].0 == k);
                            lemma_find_gen_first_le(os, k, l);
                        }
                    }
                    lemma_find_gen_first(gout@, k, j);
                } else {
                    if let Some(j) = find_gen(gout@, k) {
                        assert(os[j].0 == k);
                    }
                }
            }
            assert(gens_map(gout@) =~= g0);
        }
        let sg = &self.gens;
        let mut i: usize = 0;
        while i < sg.len()
            invariant
                i <= sg@.len(),
                gens_map(gout@) == gens_map(sg@.take(i as int)).union_prefer_right(g0),
            decreases sg.len() - i,
        {
            let ghost p = gens_map(sg@.take(i as int));
            let ghost r0 = gout@;
            proof {
                assert(sg@.take(i + 1) =~= sg@.take(i as int).push(sg@[i as int]));
                lemma_gens_map_push(sg@.take(i as int), sg@[i as int]);
            }
            let mut found = false;
            let mut j: usize = 0;
            while j < gout.len()
                invariant
                    j <= gout@.len(),
                    i < sg@.len(),
                    gout@ == r0,
                    found == exists|l: int| 0 <= l < j && #[trigger] gout@[l].0 == sg@[i as int].0,
                decreases gout.len() - j,
            {
                if gout[j].0 == sg[i].0 {
                    found = true;
                }
                j += 1;
            }
            proof {
                lemma_find_gen_bounds(r0, sg@[i as int].0);
                if found {
                    let l = choose|l: int| 0 <= l < j && #[trigger] gout@[l].0 == sg@[i as int].0;
                    assert(find_gen(r0, sg@[i as int].0) is Some);
                }
            }
            if !found {
                let e = (sg[i].0, sg[i].1.copy());
                proof {
                    lemma_gens_map_push(r0, e);
                    let k = e.0;
                    assert(!gens_map(r0).contains_key(k));
                    assert(!p.contains_key(k));
                    assert(p.insert(k, e.1@).union_prefer_right(g0) =~= p.union_prefer_right(g0).insert(k, e.1@));
                }
                gout.push(e);
            } else {
                proof {
                    let k = sg@[i as int].0;
                    assert(gens_map(r0).contains_key(k));
                    if !p.contains_key(k) {
                        assert(g0.contains_key(k));
                        assert(p.insert(k, sg@[i as int].1@).union_prefer_right(g0) =~= p.union_prefer_right(g0));
                    }
                }
            }
            i += 1;
        }
        proof {
            assert(sg@.take(i as int) =~= sg@);
        }
        Substitution { vars: res, gens: gout }
    }

    /// Whether nothing is bound.
    pub fn is_empty(&self) -> (r: bool)
        ensures
            r == (self@.vars == Map::<Seq<char>, SType>::empty() && self@.gens == Map::<usize, SType>::empty()),
    {
        let r = self.vars.entries.len() == 0 && self.gens.len() == 0;
        proof {
            if r {
                assert(self@.vars =~= Map::<Seq<char>, SType>::empty());
                assert(self@.gens =~= Map::<usize, SType>::empty());
            } else {
                if self.vars.entries@.len() > 0 {
                    let k = self.vars.entries@[0].0@;
                    assert(find_name(self.vars.entries@, k) is Some);
                    assert(self@.vars.contains_key(k));
                } else {
                    let k = self.gens@[0].0;
                    assert(find_gen(self.gens@, k) is Some);
                    assert(self@.gens.contains_key(k));
                }
            }
        }
        r
    }

    /// The variable bindings, in strictly increasing order of name.
    pub fn iter(&self) -> (r: &[(String, MonoType)])
        ensures
            names_sorted(r@),
            forall|i: int| 0 <= i < r@.len() ==> self@.vars.contains_key((#[trigger] r@[i]).0@)
                && self@.vars[r@[i].0@] == r@[i].1@,
            forall|k: Seq<char>| #[trigger] self@.vars.contains_key(k) ==> exists|i: int| 0 <= i < r@.len() && r@[i].0@ == k,
    {
        proof {
            use_type_invariant(self);
            assert forall|k: Seq<char>| #[trigger] self@.vars.contains_key(k) implies exists|i: int| 0 <= i < self.vars.entries@.len() && self.vars.entries@[i].0@ == k by {
                lemma_find_name_bounds(self.vars.entries@, k);
                let i = find_name(self.vars.entries@, k)->0;
                assert(self.vars.entries@[i].0@ == k);
            }
            assert forall|i: int| 0 <= i < self.vars.entries@.len() implies self@.vars.contains_key((#[trigger] self.vars.entries@[i]).0@)
                && self@.vars[self.vars.entries@[i].0@] == self.vars.entries@[i].1@ by {
                lemma_sorted_find(self.vars.entries@, i);
            }
        }
        self.vars.entries.as_slice()
    }
}

impl Clone for Substitution {
    fn clone(&self) -> (r: Self)
        ensures
            r@ == self@,
    {
        proof {
            use_type_invariant(self);
        }
        let vars = super::copy_fields(&self.vars);
        let mut gens: Vec<(usize, MonoType)> = Vec::new();
        let mut i: usize = 0;
        while i < self.gens.len()
            invariant
                i <= self.gens@.len(),
                gens@.len() == i,
                forall|j: int| 0 <= j < i ==> (#[trigger] gens@[j]).0 == self.gens@[j].0 && gens@[j].1@ == self.gens@[j].1@,
            decreases self.gens.len() - i,
        {
            gens.push((self.gens[i].0, self.gens[i].1.copy()));
            i += 1;
        }
        proof {
            lemma_vars_map_same(vars.entries@, self.vars.entries@);
            lemma_gens_map_same(gens@, self.gens@);
            assert forall|a: int, b: int| 0 <= a < b < vars.entries@.len() implies
                crate::text::seq_lt(#[trigger] vars.entries@[a].0@, #[trigger] vars.entries@[b].0@) by {
                assert(crate::text::seq_lt(self.vars.entries@[a].0@, self.vars.entries@[b].0@));
            }
        }
        Substitution { vars, gens }
    }
}

impl Default for Substitution {
    fn default() -> (r: Self)
        ensures
            r@ == empty_subst(),
    {
        Substitution::new()
    }
}

/// Bindings with the same indices and models, in the same order, have the
/// same model.
pub proof fn lemma_gens_map_same(a: Seq<(usize, MonoType)>, b: Seq<(usize, MonoType)>)
    requires
        a.len() == b.len(),
        forall|i: int| 0 <= i < a.len() ==> (#[trigger] a[i]).0 == b[i].0 && a[i].1@ == b[i].1@,
    ensures
        gens_map(a) == gens_map(b),
{
    assert forall|k: usize| #[trigger] gens_map(a).contains_key(k) == gens_map(b).contains_key(k)
        && (gens_map(a).contains_key(k) ==> gens_map(a)[k] == gens_map(b)[k]) by {
        lemma_find_gen_bounds(a, k);
        lemma_find_gen_bounds(b, k);
        if let Some(i) = find_gen(a, k) {
            assert forall|j: int| 0 <= j < i implies b[j].0 != k by {
                if b[j].0 == k {
                    assert(a[j].0 == k);
                    lemma_find_gen_first_le(a, k, j);
                }
            }
            lemma_find_gen_first(b, k, i);
            assert(a[i].1@ == b[i].1@);
        } else {
            if let Some(i) = find_gen(b, k) {
                assert(a[i].0 == k);
            }
        }
    }
    assert(gens_map(a) =~= gens_map(b));
}

} // verus!
