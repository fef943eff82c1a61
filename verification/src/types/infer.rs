//! Type inference via unification.
//!
//! `unify` computes a substitution that makes two types equal, following
//! the first-order unification algorithm with an occurs check.

use vstd::prelude::*;
use crate::name_map::{NameMap, find_name, lemma_find_name_bounds, lemma_find_name_first,
    lemma_find_name_first_le};
use super::MonoType;
use super::model::{SType, occurs_in, apply};
use super::subst::{Substitution, SSubst, compose, empty_subst};

verus! {

/// Errors that can occur during type inference.
#[derive(Debug)]
pub enum TypeError {
    UnificationFailure(MonoType, MonoType),
    OccursCheck(String, MonoType),
    UnboundVariable(String),
    TypeMismatch { expected: MonoType, found: MonoType },
    FieldNotFound(String),
    ConstructorNotFound(String),
    ArityMismatch { expected: usize, found: usize },
    UnresolvedConstraint(String),
    AmbiguousType(String),
    Other(String),
}

/// The model of a type error.
pub enum STypeError {
    UnificationFailure(SType, SType),
    OccursCheck(Seq<char>, SType),
    UnboundVariable(Seq<char>),
    TypeMismatch { expected: SType, found: SType },
    FieldNotFound(Seq<char>),
    ConstructorNotFound(Seq<char>),
    ArityMismatch { expected: usize, found: usize },
    UnresolvedConstraint(Seq<char>),
    AmbiguousType(Seq<char>),
    Other(Seq<char>),
}

impl View for TypeError {
    type V = STypeError;

    open spec fn view(&self) -> STypeError {
        match self {
            TypeError::UnificationFailure(a, b) => STypeError::UnificationFailure(a@, b@),
            TypeError::OccursCheck(n, t) => STypeError::OccursCheck(n@, t@),
            TypeError::UnboundVariable(n) => STypeError::UnboundVariable(n@),
            TypeError::TypeMismatch { expected, found } => STypeError::TypeMismatch {
                expected: expected@,
                found: found@,
            },
            TypeError::FieldNotFound(n) => STypeError::FieldNotFound(n@),
            TypeError::ConstructorNotFound(n) => STypeError::ConstructorNotFound(n@),
            TypeError::ArityMismatch { expected, found } => STypeError::ArityMismatch {
                expected: *expected,
                found: *found,
            },
            TypeError::UnresolvedConstraint(n) => STypeError::UnresolvedConstraint(n@),
            TypeError::AmbiguousType(n) => STypeError::AmbiguousType(n@),
            TypeError::Other(n) => STypeError::Other(n@),
        }
    }
}

/// The model of a unification outcome.
pub open spec fn outcome(r: Result<Substitution, TypeError>) -> Result<SSubst, STypeError> {
    match r {
        Ok(s) => Ok(s@),
        Err(e) => Err(e@),
    }
}

/// How deeply `unify` may nest before it gives up. Each nested step of
/// unification uses one unit; no type that fits in memory comes near it.
pub const UNIFY_DEPTH: u64 = 0xffff_ffff_ffff_ffff;

/// The message carried by the error returned when the depth is exhausted.
pub open spec fn depth_message() -> Seq<char> {
    "unification nested too deeply"@
}

/// The substitution binding only `n`, to `t`.
pub open spec fn single(n: Seq<char>, t: SType) -> SSubst {
    SSubst { vars: Map::empty().insert(n, t), gens: Map::empty() }
}

/// The position of the first field named `k`.
pub open spec fn find_field(fs: Seq<(Seq<char>, SType)>, k: Seq<char>) -> Option<int>
    decreases fs.len(),
{
    if fs.len() == 0 {
        None
    } else if fs[0].0 == k {
        Some(0)
    } else {
        match find_field(fs.drop_first(), k) {
            Some(i) => Some(i + 1),
            None => None,
        }
    }
}

/// Whether `t1` and `t2` are the same primitive type.
pub open spec fn same_primitive(t1: SType, t2: SType) -> bool {
    ||| t1 is Unit && t2 is Unit
    ||| t1 is Bool && t2 is Bool
    ||| t1 is Char && t2 is Char
    ||| t1 is Byte && t2 is Byte
    ||| t1 is Short && t2 is Short
    ||| t1 is Int && t2 is Int
    ||| t1 is Long && t2 is Long
    ||| t1 is Int128 && t2 is Int128
    ||| t1 is Float && t2 is Float
    ||| t1 is Double && t2 is Double
    ||| t1 is Str && t2 is Str
}

/// Binding the variable `n` to `t`, after the occurs check.
pub open spec fn bind_var(n: Seq<char>, t: SType) -> Result<SSubst, STypeError> {
    if occurs_in(n, t) {
        Err(STypeError::OccursCheck(n, t))
    } else {
        Ok(single(n, t))
    }
}

/// The outcome of unifying `t1` with `t2`, with `depth` nested steps
/// available.
pub open spec fn spec_unify(t1: SType, t2: SType, depth: nat) -> Result<SSubst, STypeError>
    decreases depth, 0nat,
{
    if depth == 0 {
        Err(STypeError::Other(depth_message()))
    } else {
        let d = (depth - 1) as nat;
        if same_primitive(t1, t2) {
            Ok(empty_subst())
        } else if t1 is TVar {
            let n = t1->TVar_0;
            if t2 is TVar && t2->TVar_0 == n {
                Ok(empty_subst())
            } else {
                bind_var(n, t2)
            }
        } else if t2 is TVar {
            bind_var(t2->TVar_0, t1)
        } else {
            match (t1, t2) {
                (SType::TApp(f1, a1), SType::TApp(f2, a2)) => if a1.len() != a2.len() {
                    Err(STypeError::UnificationFailure(t1, t2))
                } else {
                    match spec_unify(*f1, *f2, d) {
                        Err(e) => Err(e),
                        Ok(s) => unify_list(a1, a2, 0, s, d),
                    }
                },
                (SType::Record(fs1), SType::Record(fs2)) => if fs1.len() != fs2.len() {
                    Err(STypeError::UnificationFailure(t1, t2))
                } else {
                    unify_fields(fs1, fs2, 0, empty_subst(), d, false)
                },
                (SType::Variant(fs1), SType::Variant(fs2)) => if fs1.len() != fs2.len() {
                    Err(STypeError::UnificationFailure(t1, t2))
                } else {
                    unify_fields(fs1, fs2, 0, empty_subst(), d, true)
                },
                (SType::FixedArray(e1, n1), SType::FixedArray(e2, n2)) => if n1 != n2 {
                    Err(STypeError::UnificationFailure(t1, t2))
                } else {
                    spec_unify(*e1, *e2, d)
                },
                (SType::Array(e1), SType::Array(e2)) => spec_unify(*e1, *e2, d),
                (SType::Func(p1, r1), SType::Func(p2, r2)) => if p1.len() != p2.len() {
                    Err(STypeError::ArityMismatch { expected: p1.len() as usize, found: p2.len() as usize })
                } else {
                    match unify_list(p1, p2, 0, empty_subst(), d) {
                        Err(e) => Err(e),
                        Ok(s) => match spec_unify(apply(*r1, s.vars, s.gens), apply(*r2, s.vars, s.gens), d) {
                            Err(e) => Err(e),
                            Ok(s2) => Ok(compose(s2, s)),
                        },
                    }
                },
                (SType::Alias(_, inner), _) => spec_unify(*inner, t2, d),
                (_, SType::Alias(_, inner)) => spec_unify(*inner, t1, d),
                (SType::Exists(v1, b1), SType::Exists(v2, b2)) => spec_unify(
                    *b1,
                    apply(*b2, single(v2, SType::TVar(v1)).vars, single(v2, SType::TVar(v1)).gens),
                    d,
                ),
                (SType::Recursive(v1, b1), SType::Recursive(v2, b2)) => spec_unify(
                    *b1,
                    apply(*b2, single(v2, SType::TVar(v1)).vars, single(v2, SType::TVar(v1)).gens),
                    d,
                ),
                _ => Err(STypeError::UnificationFailure(t1, t2)),
            }
        }
    }
}

/// Unifying the pairs `(xs[j], ys[j])` for `j` from `i` on, each after the
/// substitution found so far, composing the results onto `s`.
pub open spec fn unify_list(xs: Seq<SType>, ys: Seq<SType>, i: int, s: SSubst, depth: nat) -> Result<SSubst, STypeError>
    decreases depth, xs.len() - i,
{
    if i < 0 || i >= xs.len() || i >= ys.len() {
        Ok(s)
    } else {
        match spec_unify(apply(xs[i], s.vars, s.gens), apply(ys[i], s.vars, s.gens), depth) {
            Err(e) => Err(e),
            Ok(s2) => unify_list(xs, ys, i + 1, compose(s2, s), depth),
        }
    }
}

/// Unifying each field of `fs1`, from position `i` on, with the field of
/// the same name in `fs2` (whose absence is an error naming the field, or
/// the constructor when `ctors`), composing the results onto `s`.
pub open spec fn unify_fields(
    fs1: Seq<(Seq<char>, SType)>,
    fs2: Seq<(Seq<char>, SType)>,
    i: int,
    s: SSubst,
    depth: nat,
    ctors: bool,
) -> Result<SSubst, STypeError>
    decreases depth, fs1.len() - i,
{
    if i < 0 || i >= fs1.len() {
        Ok(s)
    } else {
        match find_field(fs2, fs1[i].0) {
            None => if ctors {
                Err(STypeError::ConstructorNotFound(fs1[i].0))
            } else {
                Err(STypeError::FieldNotFound(fs1[i].0))
            },
            Some(j) => match spec_unify(apply(fs1[i].1, s.vars, s.gens), apply(fs2[j].1, s.vars, s.gens), depth) {
                Err(e) => Err(e),
                Ok(s2) => unify_fields(fs1, fs2, i + 1, compose(s2, s), depth, ctors),
            },
        }
    }
}

/// The fields of a map, as a model.
pub open spec fn fields_model(m: NameMap<MonoType>) -> Seq<(Seq<char>, SType)> {
    Seq::new(m.entries@.len(), |i: int| (m.entries@[i].0@, m.entries@[i].1@))
}

pub proof fn lemma_find_field_first(fs: Seq<(Seq<char>, SType)>, k: Seq<char>, j: int)
    requires
        0 <= j < fs.len(),
        fs[j].0 == k,
        forall|i: int| 0 <= i < j ==> fs[i].0 != k,
    ensures
        find_field(fs, k) == Some(j),
    decreases fs.len(),
{
    if j > 0 {
        assert forall|i: int| 0 <= i < j - 1 implies fs.drop_first()[i].0 != k by {
            assert(fs.drop_first()[i] == fs[i + 1]);
        }
        lemma_find_field_first(fs.drop_first(), k, j - 1);
    }
}

pub proof fn lemma_find_field_bounds(fs: Seq<(Seq<char>, SType)>, k: Seq<char>)
    ensures
        find_field(fs, k) matches Some(i) ==> 0 <= i < fs.len() && fs[i].0 == k,
        find_field(fs, k) is None ==> forall|i: int| 0 <= i < fs.len() ==> fs[i].0 != k,
    decreases fs.len(),
{
    if fs.len() > 0 {
        lemma_find_field_bounds(fs.drop_first(), k);
        if find_field(fs, k) is None {
            assert forall|i: int| 0 <= i < fs.len() implies fs[i].0 != k by {
                if i > 0 {
                    assert(fs[i] == fs.drop_first()[i - 1]);
                }
            }
        }
    }
}

/// Looking a name up in a map finds the position that the model gives.
pub proof fn lemma_find_name_model(m: NameMap<MonoType>, k: Seq<char>)
    ensures
        find_name(m.entries@, k) == find_field(fields_model(m), k),
{
    let fs = fields_model(m);
    lemma_find_name_bounds(m.entries@, k);
    lemma_find_field_bounds(fs, k);
    if let Some(i) = find_name(m.entries@, k) {
        assert forall|j: int| 0 <= j < i implies fs[j].0 != k by {
            if fs[j].0 == k {
                lemma_find_name_first_le(m.entries@, k, j);
            }
        }
        lemma_find_field_first(fs, k, i);
    } else {
        if let Some(i) = find_field(fs, k) {
            assert(m.entries@[i].0@ == k);
        }
    }
}

/// Binding `name` to `ty` after the occurs check.
fn bind_checked(name: &String, ty: &MonoType) -> (r: Result<Substitution, TypeError>)
    ensures
        outcome(r) == bind_var(name@, ty@),
{
    if occurs_check(name.as_str(), ty) {
        return Err(TypeError::OccursCheck(name.clone(), ty.copy()));
    }
    let mut subst = Substitution::new();
    subst.bind(name.as_str(), ty.copy());
    proof {
        assert(subst@.vars =~= Map::empty().insert(name@, ty@));
    }
    Ok(subst)
}

/// Whether the variable `name` occurs free in `ty` (which would make
/// binding `name` to `ty` an infinite type).
pub fn occurs_check(name: &str, ty: &MonoType) -> (r: bool)
    ensures
        r == occurs_in(name@, ty@),
{
    let fv = ty.free_vars();
    assert(occurs_in(name@, ty@) == super::has_name(fv@, name@));
    let mut i: usize = 0;
    while i < fv.len()
        invariant
            i <= fv@.len(),
            forall|j: int| 0 <= j < i ==> fv@[j]@ != name@,
            occurs_in(name@, ty@) == super::has_name(fv@, name@),
        decreases fv.len() - i,
    {
        if crate::text::str_eq(fv[i].as_str(), name) {
            assert(super::has_name(fv@, name@));
            return true;
        }
        i += 1;
    }
    proof {
        if super::has_name(fv@, name@) {
            let j = choose|j: int| 0 <= j < fv@.len() && #[trigger] fv@[j]@ == name@;
        }
    }
    false
}


pub proof fn lemma_views_tapp(t: MonoType)
    requires
        t is TApp,
    ensures
        t@ is TApp,
        t@->TApp_0 == Box::new(t->TApp_0@),
        t@->TApp_1 == super::views(t->TApp_1@),
{
    assert(t@->TApp_1 =~= super::views(t->TApp_1@));
}

pub proof fn lemma_views_func(t: MonoType)
    requires
        t is Func,
    ensures
        t@ is Func,
        t@->Func_1 == Box::new(t->Func_1@),
        t@->Func_0 == super::views(t->Func_0@),
{
    assert(t@->Func_0 =~= super::views(t->Func_0@));
}

pub proof fn lemma_views_record(t: MonoType)
    requires
        t is Record,
    ensures
        t@ == SType::Record(fields_model(t->Record_0)),
{
    assert(t@->Record_0 =~= fields_model(t->Record_0));
}

pub proof fn lemma_views_variant(t: MonoType)
    requires
        t is Variant,
    ensures
        t@ == SType::Variant(fields_model(t->Variant_0)),
{
    assert(t@->Variant_0 =~= fields_model(t->Variant_0));
}

/// Unifies the pairs `(xs[j], ys[j])` in order, each after the
/// substitution found so far, starting from `s0`.
fn unify_pairs(xs: &Vec<MonoType>, ys: &Vec<MonoType>, s0: Substitution, depth: u64) -> (r: Result<Substitution, TypeError>)
    requires
        xs@.len() == ys@.len(),
    ensures
        outcome(r) == unify_list(super::views(xs@), super::views(ys@), 0, s0@, depth as nat),
    decreases depth, 1nat,
{
    let ghost xv = super::views(xs@);
    let ghost yv = super::views(ys@);
    let mut subst = s0;
    let mut i: usize = 0;
    while i < xs.len()
        invariant
            i <= xs@.len(),
            xs@.len() == ys@.len(),
            xv == super::views(xs@),
            yv == super::views(ys@),
            unify_list(xv, yv, 0, s0@, depth as nat) == unify_list(xv, yv, i as int, subst@, depth as nat),
        decreases xs.len() - i,
    {
        let a = xs[i].apply_subst(&subst);
        let b = ys[i].apply_subst(&subst);
        match unify_rec(&a, &b, depth) {
            Err(e) => {
                return Err(e);
            }
            Ok(s) => {
                subst = s.compose(&subst);
            }
        }
        i += 1;
    }
    Ok(subst)
}

/// Unifies each field of `m1` with the field of the same name in `m2`.
fn unify_named(m1: &NameMap<MonoType>, m2: &NameMap<MonoType>, depth: u64, ctors: bool) -> (r: Result<Substitution, TypeError>)
    ensures
        outcome(r) == unify_fields(fields_model(*m1), fields_model(*m2), 0, empty_subst(), depth as nat, ctors),
    decreases depth, 1nat,
{
    let ghost f1 = fields_model(*m1);
    let ghost f2 = fields_model(*m2);
    let mut subst = Substitution::new();
    let mut i: usize = 0;
    while i < m1.entries.len()
        invariant
            i <= m1.entries@.len(),
            f1 == fields_model(*m1),
            f2 == fields_model(*m2),
            unify_fields(f1, f2, 0, empty_subst(), depth as nat, ctors) == unify_fields(f1, f2, i as int, subst@, depth as nat, ctors),
        decreases m1.entries.len() - i,
    {
        let name = &m1.entries[i].0;
        proof {
            lemma_find_name_model(*m2, name@);
            lemma_find_name_bounds(m2.entries@, name@);
        }
        match m2.get(name.as_str()) {
            None => {
                if ctors {
                    return Err(TypeError::ConstructorNotFound(name.clone()));
                } else {
                    return Err(TypeError::FieldNotFound(name.clone()));
                }
            }
            Some(ty2) => {
                let a = m1.entries[i].1.apply_subst(&subst);
                let b = ty2.apply_subst(&subst);
                match unify_rec(&a, &b, depth) {
                    Err(e) => {
                        return Err(e);
                    }
                    Ok(s) => {
                        subst = s.compose(&subst);
                    }
                }
            }
        }
        i += 1;
    }
    Ok(subst)
}

/// Unification with `depth` nested steps available.
fn unify_rec(t1: &MonoType, t2: &MonoType, depth: u64) -> (r: Result<Substitution, TypeError>)
    ensures
        outcome(r) == spec_unify(t1@, t2@, depth as nat),
    decreases depth, 0nat,
{
    if depth == 0 {
        return Err(TypeError::Other(crate::text::owned("unification nested too deeply")));
    }
    let d = depth - 1;
    match (t1, t2) {
        (MonoType::Unit, MonoType::Unit) | (MonoType::Bool, MonoType::Bool)
        | (MonoType::Char, MonoType::Char) | (MonoType::Byte, MonoType::Byte)
        | (MonoType::Short, MonoType::Short) | (MonoType::Int, MonoType::Int)
        | (MonoType::Long, MonoType::Long) | (MonoType::Int128, MonoType::Int128)
        | (MonoType::Float, MonoType::Float) | (MonoType::Double, MonoType::Double)
        | (MonoType::Str, MonoType::Str) => {
            return Ok(Substitution::new());
        }
        _ => {}
    }
    if let MonoType::TVar(name) = t1 {
        if let MonoType::TVar(n2) = t2 {
            if crate::text::str_eq(name.as_str(), n2.as_str()) {
                return Ok(Substitution::new());
            }
        }
        return bind_checked(name, t2);
    }
    if let MonoType::TVar(name) = t2 {
        return bind_checked(name, t1);
    }
    match (t1, t2) {
        (MonoType::TApp(f1, a1), MonoType::TApp(f2, a2)) => {
            proof {
                lemma_views_tapp(*t1);
                lemma_views_tapp(*t2);
            }
            if a1.len() != a2.len() {
                return Err(TypeError::UnificationFailure(t1.copy(), t2.copy()));
            }
            match unify_rec(f1, f2, d) {
                Err(e) => Err(e),
                Ok(s) => unify_pairs(a1, a2, s, d),
            }
        }
        (MonoType::Record(m1), MonoType::Record(m2)) => {
            proof {
                lemma_views_record(*t1);
                lemma_views_record(*t2);
            }
            if m1.entries.len() != m2.entries.len() {
                return Err(TypeError::UnificationFailure(t1.copy(), t2.copy()));
            }
            unify_named(m1, m2, d, false)
        }
        (MonoType::Variant(m1), MonoType::Variant(m2)) => {
            proof {
                lemma_views_variant(*t1);
                lemma_views_variant(*t2);
            }
            if m1.entries.len() != m2.entries.len() {
                return Err(TypeError::UnificationFailure(t1.copy(), t2.copy()));
            }
            unify_named(m1, m2, d, true)
        }
        (MonoType::FixedArray(e1, n1), MonoType::FixedArray(e2, n2)) => {
            if n1 != n2 {
                return Err(TypeError::UnificationFailure(t1.copy(), t2.copy()));
            }
            unify_rec(e1, e2, d)
        }
        (MonoType::Array(e1), MonoType::Array(e2)) => unify_rec(e1, e2, d),
        (MonoType::Func(p1, r1), MonoType::Func(p2, r2)) => {
            proof {
                lemma_views_func(*t1);
                lemma_views_func(*t2);
            }
            if p1.len() != p2.len() {
                return Err(TypeError::ArityMismatch { expected: p1.len(), found: p2.len() });
            }
            match unify_pairs(p1, p2, Substitution::new(), d) {
                Err(e) => Err(e),
                Ok(subst) => {
                    let r1s = r1.apply_subst(&subst);
                    let r2s = r2.apply_subst(&subst);
                    match unify_rec(&r1s, &r2s, d) {
                        Err(e) => Err(e),
                        Ok(s) => Ok(s.compose(&subst)),
                    }
                }
            }
        }
        (MonoType::Alias(_, inner), _) => unify_rec(inner, t2, d),
        (_, MonoType::Alias(_, inner)) => unify_rec(inner, t1, d),
        (MonoType::Exists(v1, b1), MonoType::Exists(v2, b2)) | (MonoType::Recursive(v1, b1), MonoType::Recursive(v2, b2)) => {
            let mut rename = Substitution::new();
            rename.bind(v2.as_str(), MonoType::TVar(v1.clone()));
            proof {
                assert(rename@.vars =~= single(v2@, SType::TVar(v1@)).vars);
                assert(rename@.gens =~= single(v2@, SType::TVar(v1@)).gens);
            }
            let b2r = b2.apply_subst(&rename);
            unify_rec(b1, &b2r, d)
        }
        _ => Err(TypeError::UnificationFailure(t1.copy(), t2.copy())),
    }
}

/// Unifies two types, producing a substitution that makes them equal (see
/// `lemma_unify_sound`).
pub fn unify(t1: &MonoType, t2: &MonoType) -> (r: Result<Substitution, TypeError>)
    ensures
        outcome(r) == spec_unify(t1@, t2@, UNIFY_DEPTH as nat),
{
    unify_rec(t1, t2, UNIFY_DEPTH)
}

} // verus!
