//! The Calvin type system: monomorphic types, qualified types and type
//! schemes, type classes, and the operations on them (free variables,
//! substitution, sizes, rendering).

pub mod model;
pub mod subst;
pub mod infer;
pub mod env;
pub mod render;
pub mod laws;
pub mod unify_laws;
pub mod complete;

use vstd::prelude::*;
use crate::name_map::NameMap;
use crate::text::{push_char, push_decimal, decimal};
use self::model::{SType, occurs_in, apply, size_of, size_fits, lemma_occurs_in_list, lemma_occurs_in_fields};
use self::subst::Substitution;

verus! {

/// A monomorphic type.
#[derive(Debug, PartialEq)]
pub enum MonoType {
    /// The unit type.
    Unit,
    /// A boolean type.
    Bool,
    /// A character type (Unicode scalar value).
    Char,
    /// An 8-bit unsigned integer.
    Byte,
    /// A 16-bit signed integer.
    Short,
    /// A 32-bit signed integer.
    Int,
    /// A 64-bit signed integer.
    Long,
    /// A 128-bit signed integer.
    Int128,
    /// A 32-bit floating-point number.
    Float,
    /// A 64-bit floating-point number.
    Double,
    /// A string type.
    Str,
    /// A type variable, used during type inference.
    TVar(String),
    /// A generic type variable bound by a type scheme.
    TGen(usize),
    /// A type constructor application.
    TApp(Box<MonoType>, Vec<MonoType>),
    /// A record type with named fields, ordered by field name.
    Record(NameMap<MonoType>),
    /// A variant (tagged union) type with named constructors.
    Variant(NameMap<MonoType>),
    /// A fixed-size array type.
    FixedArray(Box<MonoType>, usize),
    /// A dynamically-sized array type.
    Array(Box<MonoType>),
    /// An existential type: `exists a. T`.
    Exists(String, Box<MonoType>),
    /// A recursive type: `mu a. T`.
    Recursive(String, Box<MonoType>),
    /// A function type: `(A, B, ...) -> R`.
    Func(Vec<MonoType>, Box<MonoType>),
    /// A named type alias reference.
    Alias(String, Box<MonoType>),
}

impl View for MonoType {
    type V = SType;

    open spec fn view(&self) -> SType {
        self.model()
    }
}

impl MonoType {
    /// The model of this type.
    pub open spec fn model(&self) -> SType
        decreases self,
    {
        match self {
            MonoType::Unit => SType::Unit,
            MonoType::Bool => SType::Bool,
            MonoType::Char => SType::Char,
            MonoType::Byte => SType::Byte,
            MonoType::Short => SType::Short,
            MonoType::Int => SType::Int,
            MonoType::Long => SType::Long,
            MonoType::Int128 => SType::Int128,
            MonoType::Float => SType::Float,
            MonoType::Double => SType::Double,
            MonoType::Str => SType::Str,
            MonoType::TVar(n) => SType::TVar(n@),
            MonoType::TGen(k) => SType::TGen(*k),
            MonoType::TApp(f, args) => SType::TApp(
                Box::new(f.model()),
                Seq::new(
                    args@.len(),
                    |i: int|
                        if 0 <= i < args@.len() {
                            proof {
                                assert(decreases_to!(args => args@));
                            }
                            args@[i].model()
                        } else {
                            SType::Unit
                        },
                ),
            ),
            MonoType::Record(m) => SType::Record(
                Seq::new(
                    m.entries@.len(),
                    |i: int|
                        if 0 <= i < m.entries@.len() {
                            proof {
                                assert(decreases_to!(m.entries => m.entries@));
                            }
                            (m.entries@[i].0@, m.entries@[i].1.model())
                        } else {
                            (Seq::empty(), SType::Unit)
                        },
                ),
            ),
            MonoType::Variant(m) => SType::Variant(
                Seq::new(
                    m.entries@.len(),
                    |i: int|
                        if 0 <= i < m.entries@.len() {
                            proof {
                                assert(decreases_to!(m.entries => m.entries@));
                            }
                            (m.entries@[i].0@, m.entries@[i].1.model())
                        } else {
                            (Seq::empty(), SType::Unit)
                        },
                ),
            ),
            MonoType::FixedArray(e, n) => SType::FixedArray(Box::new(e.model()), *n),
            MonoType::Array(e) => SType::Array(Box::new(e.model())),
            MonoType::Exists(b, body) => SType::Exists(b@, Box::new(body.model())),
            MonoType::Recursive(b, body) => SType::Recursive(b@, Box::new(body.model())),
            MonoType::Func(ps, r) => SType::Func(
                Seq::new(
                    ps@.len(),
                    |i: int|
                        if 0 <= i < ps@.len() {
                            proof {
                                assert(decreases_to!(ps => ps@));
                            }
                            ps@[i].model()
                        } else {
                            SType::Unit
                        },
                ),
                Box::new(r.model()),
            ),
            MonoType::Alias(n, inner) => SType::Alias(n@, Box::new(inner.model())),
        }
    }
}

/// The models of a list of types.
pub open spec fn views(s: Seq<MonoType>) -> Seq<SType> {
    Seq::new(s.len(), |i: int| s[i]@)
}

/// Strictly increasing names.
pub open spec fn names_strictly_sorted(s: Seq<String>) -> bool {
    forall|i: int, j: int| 0 <= i < j < s.len() ==> crate::text::seq_lt(#[trigger] s[i]@, #[trigger] s[j]@)
}

/// Whether `x` is one of the names in `s`.
pub open spec fn has_name(s: Seq<String>, x: Seq<char>) -> bool {
    exists|i: int| 0 <= i < s.len() && #[trigger] s[i]@ == x
}

/// `r` holds exactly the names of `a` and of `b`.
pub open spec fn names_union(r: Seq<String>, a: Seq<String>, b: Seq<String>) -> bool {
    forall|y: Seq<char>| #[trigger] has_name(r, y) <==> (has_name(a, y) || has_name(b, y))
}

pub proof fn lemma_has_name_single(x: String)
    ensures
        forall|y: Seq<char>| #[trigger] has_name(seq![x], y) <==> y == x@,
{
    assert forall|y: Seq<char>| #[trigger] has_name(seq![x], y) <==> y == x@ by {
        if y == x@ {
            assert(seq![x][0]@ == y);
        }
    }
}

/// Makes `v` hold the names of `old(v)` and `x`, in strictly increasing
/// order.
pub fn insert_name(v: &mut Vec<String>, x: String)
    requires
        names_strictly_sorted(old(v)@),
    ensures
        names_strictly_sorted(final(v)@),
        names_union(final(v)@, old(v)@, seq![x]),
{
    let mut p: usize = 0;
    while p < v.len() && crate::text::str_lt(v[p].as_str(), x.as_str())
        invariant
            p <= v@.len(),
            v@ == old(v)@,
            forall|i: int| 0 <= i < p ==> crate::text::seq_lt(#[trigger] v@[i]@, x@),
        decreases v.len() - p,
    {
        p += 1;
    }
    proof {
        lemma_has_name_single(x);
    }
    if p < v.len() && crate::text::str_eq(v[p].as_str(), x.as_str()) {
        assert forall|y: Seq<char>| has_name(v@, y) <==> (has_name(old(v)@, y) || y == x@) by {
            if y == x@ {
                assert(v@[p as int]@ == y);
            }
        }
        return;
    }
    let ghost s = v@;
    let ghost xv = x@;
    assert(s == old(v)@);
    proof {
        if p < s.len() {
            crate::text::lemma_seq_lt_total(s[p as int]@, xv);
        }
    }
    v.insert(p, x);
    assert(v@[p as int]@ == xv);
    proof {
        assert forall|i: int| 0 <= i < v@.len() implies #[trigger] v@[i] == (if i < p { s[i] } else if i == p { v@[p as int] } else { s[i - 1] }) by {}
        assert forall|i: int, j: int| 0 <= i < j < v@.len() implies crate::text::seq_lt(#[trigger] v@[i]@, #[trigger] v@[j]@) by {
            if i < p && j == p {
            } else if i == p && j > p {
                if j - 1 > p {
                    assert(crate::text::seq_lt(s[p as int]@, s[j - 1]@));
                    crate::text::lemma_seq_lt_transitive(xv, s[p as int]@, s[j - 1]@);
                }
            } else if i < p && j > p {
                assert(crate::text::seq_lt(s[i]@, s[j - 1]@));
            } else if i > p {
                assert(crate::text::seq_lt(s[i - 1]@, s[j - 1]@));
            }
        }
        assert forall|y: Seq<char>| has_name(v@, y) <==> (has_name(s, y) || y == xv) by {
            if has_name(v@, y) {
                let i = choose|i: int| 0 <= i < v@.len() && #[trigger] v@[i]@ == y;
                if i < p {
                    assert(s[i]@ == y);
                } else if i > p {
                    assert(s[i - 1]@ == y);
                }
            }
            if has_name(s, y) {
                let i = choose|i: int| 0 <= i < s.len() && #[trigger] s[i]@ == y;
                if i < p {
                    assert(v@[i]@ == y);
                } else {
                    assert(v@[i + 1]@ == y);
                }
            }
            if y == xv {
                assert(v@[p as int]@ == y);
            }
        }
        assert(forall|y: Seq<char>| has_name(v@, y) <==> (has_name(old(v)@, y) || y == xv));
    }
}

/// Makes `v` hold the names of `old(v)` and of `w`, in strictly increasing
/// order.
pub fn union_names(v: &mut Vec<String>, w: &Vec<String>)
    requires
        names_strictly_sorted(old(v)@),
    ensures
        names_strictly_sorted(final(v)@),
        names_union(final(v)@, old(v)@, w@),
{
    let mut i: usize = 0;
    while i < w.len()
        invariant
            i <= w@.len(),
            names_strictly_sorted(v@),
            forall|y: Seq<char>| has_name(v@, y) <==> (has_name(old(v)@, y) || has_name(w@.take(i as int), y)),
        decreases w.len() - i,
    {
        let ghost v0 = v@;
        insert_name(v, w[i].clone());
        proof {
            lemma_has_name_single(w@[i as int]);
            assert(forall|y: Seq<char>| has_name(v@, y) <==> (has_name(v0, y) || y == w@[i as int]@));
            assert forall|y: Seq<char>| has_name(w@.take(i + 1), y) <==> (has_name(w@.take(i as int), y) || y == w@[i as int]@) by {
                if has_name(w@.take(i + 1), y) {
                    let j = choose|j: int| 0 <= j < i + 1 && #[trigger] w@.take(i + 1)[j]@ == y;
                    if j < i {
                        assert(w@.take(i as int)[j] == w@.take(i + 1)[j]);
                    }
                }
                if has_name(w@.take(i as int), y) {
                    let j = choose|j: int| 0 <= j < i && #[trigger] w@.take(i as int)[j]@ == y;
                    assert(w@.take(i + 1)[j] == w@.take(i as int)[j]);
                }
                if y == w@[i as int]@ {
                    assert(w@.take(i + 1)[i as int] == w@[i as int]);
                }
            }
        }
        i += 1;
    }
    proof {
        assert(w@.take(i as int) =~= w@);
    }
}

impl MonoType {
    /// A copy of this type with the same model.
    pub fn copy(&self) -> (r: MonoType)
        ensures
            r@ == self@,
        decreases self,
    {
        match self {
            MonoType::Unit => MonoType::Unit,
            MonoType::Bool => MonoType::Bool,
            MonoType::Char => MonoType::Char,
            MonoType::Byte => MonoType::Byte,
            MonoType::Short => MonoType::Short,
            MonoType::Int => MonoType::Int,
            MonoType::Long => MonoType::Long,
            MonoType::Int128 => MonoType::Int128,
            MonoType::Float => MonoType::Float,
            MonoType::Double => MonoType::Double,
            MonoType::Str => MonoType::Str,
            MonoType::TVar(n) => MonoType::TVar(n.clone()),
            MonoType::TGen(k) => MonoType::TGen(*k),
            MonoType::TApp(f, args) => {
                let f2 = f.copy();
                let a2 = copy_all(args);
                let r = MonoType::TApp(Box::new(f2), a2);
                assert(r@ == self@) by {
                    assert(views(a2@) =~= views(args@));
                    match r@ {
                        SType::TApp(_, ra) => {
                            assert(ra =~= views(a2@));
                        }
                        _ => {}
                    }
                    match self@ {
                        SType::TApp(_, sa) => {
                            assert(sa =~= views(args@));
                        }
                        _ => {}
                    }
                }
                r
            }
            MonoType::Record(m) => {
                let m2 = copy_fields(m);
                let r = MonoType::Record(m2);
                proof {
                    let rs = Seq::new(m2.entries@.len(), |i: int| (m2.entries@[i].0@, m2.entries@[i].1@));
                    let ss = Seq::new(m.entries@.len(), |i: int| (m.entries@[i].0@, m.entries@[i].1@));
                    assert(rs =~= ss);
                    assert(r@ == SType::Record(rs)) by {
                        match r@ {
                            SType::Record(x) => { assert(x =~= rs); }
                            _ => {}
                        }
                    }
                    assert(self@ == SType::Record(ss)) by {
                        match self@ {
                            SType::Record(x) => { assert(x =~= ss); }
                            _ => {}
                        }
                    }
                }
                r
            }
            MonoType::Variant(m) => {
                let m2 = copy_fields(m);
                let r = MonoType::Variant(m2);
                proof {
                    let rs = Seq::new(m2.entries@.len(), |i: int| (m2.entries@[i].0@, m2.entries@[i].1@));
                    let ss = Seq::new(m.entries@.len(), |i: int| (m.entries@[i].0@, m.entries@[i].1@));
                    assert(rs =~= ss);
                    assert(r@ == SType::Variant(rs)) by {
                        match r@ {
                            SType::Variant(x) => { assert(x =~= rs); }
                            _ => {}
                        }
                    }
                    assert(self@ == SType::Variant(ss)) by {
                        match self@ {
                            SType::Variant(x) => { assert(x =~= ss); }
                            _ => {}
                        }
                    }
                }
                r
            }
            MonoType::FixedArray(e, n) => MonoType::FixedArray(Box::new(e.copy()), *n),
            MonoType::Array(e) => MonoType::Array(Box::new(e.copy())),
            MonoType::Exists(b, body) => MonoType::Exists(b.clone(), Box::new(body.copy())),
            MonoType::Recursive(b, body) => MonoType::Recursive(b.clone(), Box::new(body.copy())),
            MonoType::Func(ps, r) => {
                let p2 = copy_all(ps);
                let r2 = r.copy();
                let res = MonoType::Func(p2, Box::new(r2));
                assert(res@ == self@) by {
                    match res@ {
                        SType::Func(x, _) => { assert(x =~= views(p2@)); }
                        _ => {}
                    }
                    match self@ {
                        SType::Func(x, _) => { assert(x =~= views(ps@)); }
                        _ => {}
                    }
                    assert(views(p2@) =~= views(ps@));
                }
                res
            }
            MonoType::Alias(n, inner) => MonoType::Alias(n.clone(), Box::new(inner.copy())),
        }
    }
}

impl Clone for MonoType {
    fn clone(&self) -> (r: Self)
        ensures
            r@ == self@,
    {
        self.copy()
    }
}

/// Copies of each type of `v`, with the same models.
pub fn copy_all(v: &Vec<MonoType>) -> (r: Vec<MonoType>)
    ensures
        views(r@) == views(v@),
        r@.len() == v@.len(),
    decreases v,
{
    let mut r: Vec<MonoType> = Vec::new();
    let mut i: usize = 0;
    while i < v.len()
        invariant
            i <= v@.len(),
            r@.len() == i,
            forall|j: int| 0 <= j < i ==> #[trigger] r@[j]@ == v@[j]@,
        decreases v.len() - i,
    {
        proof {
            assert(decreases_to!(v => v@));
        }
        r.push(v[i].copy());
        i += 1;
    }
    assert(views(r@) =~= views(v@));
    r
}

/// Copies of each field of `m`, with the same names and models.
pub fn copy_fields(m: &NameMap<MonoType>) -> (r: NameMap<MonoType>)
    ensures
        r.entries@.len() == m.entries@.len(),
        forall|i: int| 0 <= i < m.entries@.len() ==> (#[trigger] r.entries@[i]).0@ == m.entries@[i].0@
            && r.entries@[i].1@ == m.entries@[i].1@,
    decreases m,
{
    let mut r: Vec<(String, MonoType)> = Vec::new();
    let mut i: usize = 0;
    while i < m.entries.len()
        invariant
            i <= m.entries@.len(),
            r@.len() == i,
            forall|j: int| 0 <= j < i ==> (#[trigger] r@[j]).0@ == m.entries@[j].0@ && r@[j].1@ == m.entries@[j].1@,
        decreases m.entries.len() - i,
    {
        proof {
            assert(decreases_to!(m => m.entries));
            assert(decreases_to!(m.entries => m.entries@));
        }
        let name = m.entries[i].0.clone();
        let t = m.entries[i].1.copy();
        r.push((name, t));
        i += 1;
    }
    NameMap { entries: r }
}


/// The names of `v` other than `b`, in the same order.
fn remove_name(v: Vec<String>, b: &String) -> (r: Vec<String>)
    requires
        names_strictly_sorted(v@),
    ensures
        names_strictly_sorted(r@),
        forall|y: Seq<char>| has_name(r@, y) <==> (has_name(v@, y) && y != b@),
{
    let mut r: Vec<String> = Vec::new();
    let mut i: usize = 0;
    while i < v.len()
        invariant
            i <= v@.len(),
            names_strictly_sorted(v@),
            forall|k: int| #![trigger r@[k]] 0 <= k < r@.len() ==> exists|j: int| 0 <= j < i && #[trigger] v@[j] == r@[k],
            names_strictly_sorted(r@),
            forall|y: Seq<char>| has_name(r@, y) <==> (has_name(v@.take(i as int), y) && y != b@),
        decreases v.len() - i,
    {
        let ghost r0 = r@;
        if !crate::text::str_eq(v[i].as_str(), b.as_str()) {
            r.push(v[i].clone());
            proof {
                assert forall|k: int, l: int| 0 <= k < l < r@.len() implies crate::text::seq_lt(#[trigger] r@[k]@, #[trigger] r@[l]@) by {
                    if l == r@.len() - 1 {
                        assert(r@[k] == r0[k]);
                        let j = choose|j: int| 0 <= j < i && #[trigger] v@[j] == r0[k];
                        assert(crate::text::seq_lt(v@[j]@, v@[i as int]@));
                    }
                }
            }
        }
        proof {
            assert forall|y: Seq<char>| has_name(v@.take(i + 1), y) <==> (has_name(v@.take(i as int), y) || y == v@[i as int]@) by {
                if has_name(v@.take(i + 1), y) {
                    let j = choose|j: int| 0 <= j < i + 1 && #[trigger] v@.take(i + 1)[j]@ == y;
                    if j < i {
                        assert(v@.take(i as int)[j] == v@.take(i + 1)[j]);
                    }
                }
                if has_name(v@.take(i as int), y) {
                    let j = choose|j: int| 0 <= j < i && #[trigger] v@.take(i as int)[j]@ == y;
                    assert(v@.take(i + 1)[j] == v@.take(i as int)[j]);
                }
                if y == v@[i as int]@ {
                    assert(v@.take(i + 1)[i as int] == v@[i as int]);
                }
            }
            assert forall|y: Seq<char>| has_name(r@, y) <==> (has_name(v@.take(i + 1), y) && y != b@) by {
                if has_name(r@, y) {
                    let k = choose|k: int| 0 <= k < r@.len() && #[trigger] r@[k]@ == y;
                    if k < r0.len() {
                        assert(r0[k] == r@[k]);
                        assert(has_name(r0, y));
                    }
                }
                if has_name(r0, y) {
                    let k = choose|k: int| 0 <= k < r0.len() && #[trigger] r0[k]@ == y;
                    assert(r@[k] == r0[k]);
                }
                if y == v@[i as int]@ && y != b@ {
                    assert(r@[r@.len() - 1] == v@[i as int]);
                }
            }
        }
        i += 1;
    }
    proof {
        assert(v@.take(i as int) =~= v@);
    }
    r
}

/// The variables free in some type of `xs`, each once, in increasing order.
pub fn free_vars_all(xs: &Vec<MonoType>) -> (r: Vec<String>)
    ensures
        names_strictly_sorted(r@),
        forall|y: Seq<char>| has_name(r@, y) <==> exists|j: int|
            0 <= j < xs@.len() && #[trigger] occurs_in(y, xs@[j]@),
    decreases xs,
{
    let mut vars: Vec<String> = Vec::new();
    let mut i: usize = 0;
    while i < xs.len()
        invariant
            i <= xs@.len(),
            names_strictly_sorted(vars@),
            forall|y: Seq<char>| has_name(vars@, y) <==> exists|j: int|
                0 <= j < i && #[trigger] occurs_in(y, xs@[j]@),
        decreases xs.len() - i,
    {
        proof {
            assert(decreases_to!(xs => xs@));
        }
        let w = xs[i].free_vars();
        union_names(&mut vars, &w);
        proof {
            assert forall|y: Seq<char>| has_name(vars@, y) <==> exists|j: int|
                0 <= j < i + 1 && #[trigger] occurs_in(y, xs@[j]@) by {
                if exists|j: int| 0 <= j < i + 1 && #[trigger] occurs_in(y, xs@[j]@) {
                    let j = choose|j: int| 0 <= j < i + 1 && #[trigger] occurs_in(y, xs@[j]@);
                    if j < i {
                        assert(exists|j: int| 0 <= j < i && #[trigger] occurs_in(y, xs@[j]@));
                    }
                }
            }
        }
        i += 1;
    }
    vars
}

/// The variables free in the type of some field of `m`, each once, in
/// increasing order.
pub fn free_vars_fields(m: &NameMap<MonoType>) -> (r: Vec<String>)
    ensures
        names_strictly_sorted(r@),
        forall|y: Seq<char>| has_name(r@, y) <==> exists|j: int|
            0 <= j < m.entries@.len() && #[trigger] occurs_in(y, m.entries@[j].1@),
    decreases m,
{
    let mut vars: Vec<String> = Vec::new();
    let mut i: usize = 0;
    while i < m.entries.len()
        invariant
            i <= m.entries@.len(),
            names_strictly_sorted(vars@),
            forall|y: Seq<char>| has_name(vars@, y) <==> exists|j: int|
                0 <= j < i && #[trigger] occurs_in(y, m.entries@[j].1@),
        decreases m.entries.len() - i,
    {
        proof {
            assert(decreases_to!(m => m.entries));
            assert(decreases_to!(m.entries => m.entries@));
        }
        let w = m.entries[i].1.free_vars();
        union_names(&mut vars, &w);
        proof {
            assert forall|y: Seq<char>| has_name(vars@, y) <==> exists|j: int|
                0 <= j < i + 1 && #[trigger] occurs_in(y, m.entries@[j].1@) by {
                if exists|j: int| 0 <= j < i + 1 && #[trigger] occurs_in(y, m.entries@[j].1@) {
                    let j = choose|j: int| 0 <= j < i + 1 && #[trigger] occurs_in(y, m.entries@[j].1@);
                    if j < i {
                        assert(exists|j: int| 0 <= j < i && #[trigger] occurs_in(y, m.entries@[j].1@));
                    }
                }
            }
        }
        i += 1;
    }
    vars
}

impl MonoType {
    /// Whether this is a primitive numeric type.
    pub fn is_numeric(&self) -> (r: bool)
        ensures
            r == (self@ is Byte || self@ is Short || self@ is Int || self@ is Long || self@ is Int128
                || self@ is Float || self@ is Double),
    {
        match self {
            MonoType::Byte | MonoType::Short | MonoType::Int | MonoType::Long | MonoType::Int128
            | MonoType::Float | MonoType::Double => true,
            _ => false,
        }
    }

    /// Whether this is a primitive type.
    pub fn is_primitive(&self) -> (r: bool)
        ensures
            r == (self@ is Unit || self@ is Bool || self@ is Char || self@ is Byte || self@ is Short
                || self@ is Int || self@ is Long || self@ is Int128 || self@ is Float
                || self@ is Double || self@ is Str),
    {
        match self {
            MonoType::Unit | MonoType::Bool | MonoType::Char | MonoType::Byte | MonoType::Short
            | MonoType::Int | MonoType::Long | MonoType::Int128 | MonoType::Float
            | MonoType::Double | MonoType::Str => true,
            _ => false,
        }
    }

    /// The size in bytes of a value of this type, where it is fixed.
    pub fn size_of(&self) -> (r: Option<usize>)
        requires
            size_fits(self@),
        ensures
            r matches Some(n) ==> size_of(self@) == Some(n as nat),
            r is None ==> size_of(self@) is None,
        decreases self,
    {
        match self {
            MonoType::Unit => Some(0),
            MonoType::Bool => Some(1),
            MonoType::Char => Some(4),
            MonoType::Byte => Some(1),
            MonoType::Short => Some(2),
            MonoType::Int => Some(4),
            MonoType::Long => Some(8),
            MonoType::Int128 => Some(16),
            MonoType::Float => Some(4),
            MonoType::Double => Some(8),
            MonoType::FixedArray(elem, n) => match elem.size_of() {
                Some(s) => {
                    assert(s * (*n as nat) <= usize::MAX);
                    Some(s * *n)
                }
                None => None,
            },
            _ => None,
        }
    }

    /// The type variables free in this type, each once, in increasing name
    /// order.
    pub fn free_vars(&self) -> (r: Vec<String>)
        ensures
            names_strictly_sorted(r@),
            forall|y: Seq<char>| has_name(r@, y) <==> occurs_in(y, self@),
        decreases self,
    {
        match self {
            MonoType::TVar(name) => {
                let r = vec![name.clone()];
                assert forall|y: Seq<char>| has_name(r@, y) <==> occurs_in(y, self@) by {
                    if y == name@ {
                        assert(r@[0]@ == y);
                    }
                }
                r
            }
            MonoType::TApp(f, args) => {
                let mut vars = f.free_vars();
                let ghost fvv = vars@;
                let w = free_vars_all(args);
                union_names(&mut vars, &w);
                proof {
                    let m = self@;
                    assert forall|y: Seq<char>| has_name(vars@, y) <==> occurs_in(y, m) by {
                        assert(has_name(vars@, y) <==> (has_name(fvv, y) || has_name(w@, y)));
                        assert(m is TApp);
                        match m {
                            SType::TApp(ff, aa) => {
                                assert(*ff == f@);
                                assert(aa.len() == args@.len());
                                lemma_occurs_in_list(y, aa);
                                if exists|j: int| 0 <= j < aa.len() && #[trigger] occurs_in(y, aa[j]) {
                                    let j = choose|j: int| 0 <= j < aa.len() && #[trigger] occurs_in(y, aa[j]);
                                    assert(aa[j] == args@[j]@);
                                }
                                if exists|j: int| 0 <= j < args@.len() && #[trigger] occurs_in(y, args@[j]@) {
                                    let j = choose|j: int| 0 <= j < args@.len() && #[trigger] occurs_in(y, args@[j]@);
                                    assert(aa[j] == args@[j]@);
                                    assert(occurs_in(y, aa[j]));
                                }
                            }
                            _ => {}
                        }
                    }
                }
                vars
            }
            MonoType::Record(fields) | MonoType::Variant(fields) => {
                let vars = free_vars_fields(fields);
                proof {
                    let m = self@;
                    assert forall|y: Seq<char>| has_name(vars@, y) <==> occurs_in(y, m) by {
                        match m {
                            SType::Record(fs) => {
                                lemma_occurs_in_fields(y, fs);
                                if exists|j: int| 0 <= j < fs.len() && #[trigger] occurs_in(y, fs[j].1) {
                                    let j = choose|j: int| 0 <= j < fs.len() && #[trigger] occurs_in(y, fs[j].1);
                                    assert(fs[j].1 == fields.entries@[j].1@);
                                }
                                if exists|j: int| 0 <= j < fields.entries@.len() && #[trigger] occurs_in(y, fields.entries@[j].1@) {
                                    let j = choose|j: int| 0 <= j < fields.entries@.len() && #[trigger] occurs_in(y, fields.entries@[j].1@);
                                    assert(fs[j].1 == fields.entries@[j].1@);
                                }
                            }
                            SType::Variant(fs) => {
                                lemma_occurs_in_fields(y, fs);
                                if exists|j: int| 0 <= j < fs.len() && #[trigger] occurs_in(y, fs[j].1) {
                                    let j = choose|j: int| 0 <= j < fs.len() && #[trigger] occurs_in(y, fs[j].1);
                                    assert(fs[j].1 == fields.entries@[j].1@);
                                }
                                if exists|j: int| 0 <= j < fields.entries@.len() && #[trigger] occurs_in(y, fields.entries@[j].1@) {
                                    let j = choose|j: int| 0 <= j < fields.entries@.len() && #[trigger] occurs_in(y, fields.entries@[j].1@);
                                    assert(fs[j].1 == fields.entries@[j].1@);
                                }
                            }
                            _ => {}
                        }
                    }
                }
                vars
            }
            MonoType::FixedArray(elem, _) | MonoType::Array(elem) => elem.free_vars(),
            MonoType::Exists(bound, body) | MonoType::Recursive(bound, body) => {
                let v = body.free_vars();
                remove_name(v, bound)
            }
            MonoType::Func(params, ret) => {
                let mut vars = free_vars_all(params);
                let ghost pvv = vars@;
                let w = ret.free_vars();
                union_names(&mut vars, &w);
                proof {
                    let m = self@;
                    assert forall|y: Seq<char>| has_name(vars@, y) <==> occurs_in(y, m) by {
                        assert(has_name(vars@, y) <==> (has_name(pvv, y) || has_name(w@, y)));
                        assert(m is Func);
                        match m {
                            SType::Func(ps, rr) => {
                                lemma_occurs_in_list(y, ps);
                                assert(*rr == ret@);
                                if exists|j: int| 0 <= j < ps.len() && #[trigger] occurs_in(y, ps[j]) {
                                    let j = choose|j: int| 0 <= j < ps.len() && #[trigger] occurs_in(y, ps[j]);
                                    assert(ps[j] == params@[j]@);
                                }
                                if exists|j: int| 0 <= j < params@.len() && #[trigger] occurs_in(y, params@[j]@) {
                                    let j = choose|j: int| 0 <= j < params@.len() && #[trigger] occurs_in(y, params@[j]@);
                                    assert(ps[j] == params@[j]@);
                                    assert(occurs_in(y, ps[j]));
                                }
                            }
                            _ => {}
                        }
                    }
                }
                vars
            }
            MonoType::Alias(_, inner) => inner.free_vars(),
            _ => {
                let r: Vec<String> = Vec::new();
                assert forall|y: Seq<char>| has_name(r@, y) <==> occurs_in(y, self@) by {}
                r
            }
        }
    }
}


/// `subst` applied to each type of `xs`.
pub fn apply_all(xs: &Vec<MonoType>, subst: &Substitution) -> (r: Vec<MonoType>)
    ensures
        r@.len() == xs@.len(),
        forall|i: int| 0 <= i < xs@.len() ==> #[trigger] r@[i]@ == apply(xs@[i]@, subst@.vars, subst@.gens),
    decreases xs,
{
    let mut r: Vec<MonoType> = Vec::new();
    let mut i: usize = 0;
    while i < xs.len()
        invariant
            i <= xs@.len(),
            r@.len() == i,
            forall|j: int| 0 <= j < i ==> #[trigger] r@[j]@ == apply(xs@[j]@, subst@.vars, subst@.gens),
        decreases xs.len() - i,
    {
        proof {
            assert(decreases_to!(xs => xs@));
        }
        r.push(xs[i].apply_subst(subst));
        i += 1;
    }
    r
}

/// `subst` applied to the type of each field of `m`.
pub fn apply_fields(m: &NameMap<MonoType>, subst: &Substitution) -> (r: NameMap<MonoType>)
    ensures
        r.entries@.len() == m.entries@.len(),
        forall|i: int| 0 <= i < m.entries@.len() ==> (#[trigger] r.entries@[i]).0@ == m.entries@[i].0@
            && r.entries@[i].1@ == apply(m.entries@[i].1@, subst@.vars, subst@.gens),
    decreases m,
{
    let mut r: Vec<(String, MonoType)> = Vec::new();
    let mut i: usize = 0;
    while i < m.entries.len()
        invariant
            i <= m.entries@.len(),
            r@.len() == i,
            forall|j: int| 0 <= j < i ==> (#[trigger] r@[j]).0@ == m.entries@[j].0@
                && r@[j].1@ == apply(m.entries@[j].1@, subst@.vars, subst@.gens),
        decreases m.entries.len() - i,
    {
        proof {
            assert(decreases_to!(m => m.entries));
            assert(decreases_to!(m.entries => m.entries@));
        }
        let t = m.entries[i].1.apply_subst(subst);
        r.push((m.entries[i].0.clone(), t));
        i += 1;
    }
    NameMap { entries: r }
}

impl MonoType {
    /// The type obtained by replacing each variable and generic index bound
    /// in `subst` by its binding.
    pub fn apply_subst(&self, subst: &Substitution) -> (r: MonoType)
        ensures
            r@ == apply(self@, subst@.vars, subst@.gens),
        decreases self,
    {
        match self {
            MonoType::TVar(name) => match subst.lookup(name.as_str()) {
                Some(t) => t.copy(),
                None => self.copy(),
            },
            MonoType::TGen(n) => match subst.lookup_gen(*n) {
                Some(t) => t.copy(),
                None => self.copy(),
            },
            MonoType::TApp(f, args) => {
                let f2 = f.apply_subst(subst);
                let a2 = apply_all(args, subst);
                let r = MonoType::TApp(Box::new(f2), a2);
                proof {
                    let m = self@;
                    assert(m is TApp);
                    let rm = r@;
                    let am = apply(m, subst@.vars, subst@.gens);
                    assert forall|j: int| 0 <= j < args@.len() implies rm->TApp_1[j] == am->TApp_1[j] by {
                        assert(m->TApp_1[j] == args@[j]@);
                        assert(rm->TApp_1[j] == a2@[j]@);
                    }
                    assert(rm->TApp_1 =~= am->TApp_1);
                }
                r
            }
            MonoType::Record(fields) => {
                let f2 = apply_fields(fields, subst);
                let r = MonoType::Record(f2);
                proof {
                    let m = self@;
                    assert(m is Record);
                    assert(r@->Record_0 =~= apply(m, subst@.vars, subst@.gens)->Record_0);
                }
                r
            }
            MonoType::Variant(fields) => {
                let f2 = apply_fields(fields, subst);
                let r = MonoType::Variant(f2);
                proof {
                    let m = self@;
                    assert(m is Variant);
                    assert(r@->Variant_0 =~= apply(m, subst@.vars, subst@.gens)->Variant_0);
                }
                r
            }
            MonoType::FixedArray(elem, n) => MonoType::FixedArray(Box::new(elem.apply_subst(subst)), *n),
            MonoType::Array(elem) => MonoType::Array(Box::new(elem.apply_subst(subst))),
            MonoType::Exists(bound, body) => {
                let filtered = subst.without(bound.as_str());
                MonoType::Exists(bound.clone(), Box::new(body.apply_subst(&filtered)))
            }
            MonoType::Recursive(bound, body) => {
                let filtered = subst.without(bound.as_str());
                MonoType::Recursive(bound.clone(), Box::new(body.apply_subst(&filtered)))
            }
            MonoType::Func(params, ret) => {
                let p2 = apply_all(params, subst);
                let r2 = ret.apply_subst(subst);
                let r = MonoType::Func(p2, Box::new(r2));
                proof {
                    let m = self@;
                    assert(m is Func);
                    let rm = r@;
                    let am = apply(m, subst@.vars, subst@.gens);
                    assert forall|j: int| 0 <= j < params@.len() implies rm->Func_0[j] == am->Func_0[j] by {
                        assert(m->Func_0[j] == params@[j]@);
                        assert(rm->Func_0[j] == p2@[j]@);
                    }
                    assert(rm->Func_0 =~= am->Func_0);
                }
                r
            }
            MonoType::Alias(name, inner) => MonoType::Alias(name.clone(), Box::new(inner.apply_subst(subst))),
            _ => self.copy(),
        }
    }
}


/// A constraint on types, used in qualified types.
#[derive(Debug, Clone, PartialEq)]
pub struct Constraint {
    /// The name of the type class or predicate.
    pub name: String,
    /// The types involved in the constraint.
    pub types: Vec<MonoType>,
}

/// The model of a constraint.
pub struct SConstraint {
    pub name: Seq<char>,
    pub types: Seq<SType>,
}

impl View for Constraint {
    type V = SConstraint;

    open spec fn view(&self) -> SConstraint {
        SConstraint { name: self.name@, types: views(self.types@) }
    }
}

/// The models of a list of constraints.
pub open spec fn constraint_views(s: Seq<Constraint>) -> Seq<SConstraint> {
    Seq::new(s.len(), |i: int| s[i]@)
}

impl Constraint {
    /// A copy with the same model.
    pub fn copy(&self) -> (r: Constraint)
        ensures
            r@ == self@,
    {
        Constraint { name: self.name.clone(), types: copy_all(&self.types) }
    }

    /// This constraint with `subst` applied to each of its types.
    pub fn apply_subst(&self, subst: &Substitution) -> (r: Constraint)
        ensures
            r@ == subst_constraint(self@, subst@.vars, subst@.gens),
    {
        let types = apply_all(&self.types, subst);
        let r = Constraint { name: self.name.clone(), types };
        assert(r@.types =~= subst_constraint(self@, subst@.vars, subst@.gens).types);
        r
    }
}

/// A constraint with a substitution applied to each of its types.
pub open spec fn subst_constraint(c: SConstraint, vars: Map<Seq<char>, SType>, gens: Map<usize, SType>) -> SConstraint {
    SConstraint { name: c.name, types: Seq::new(c.types.len(), |i: int| apply(c.types[i], vars, gens)) }
}

/// Copies of each constraint, with the same models.
pub fn copy_constraints(v: &Vec<Constraint>) -> (r: Vec<Constraint>)
    ensures
        constraint_views(r@) == constraint_views(v@),
{
    let mut r: Vec<Constraint> = Vec::new();
    let mut i: usize = 0;
    while i < v.len()
        invariant
            i <= v@.len(),
            r@.len() == i,
            forall|j: int| 0 <= j < i ==> #[trigger] r@[j]@ == v@[j]@,
        decreases v.len() - i,
    {
        r.push(v[i].copy());
        i += 1;
    }
    assert(constraint_views(r@) =~= constraint_views(v@));
    r
}

/// `subst` applied to each constraint.
pub fn subst_constraints(v: &Vec<Constraint>, subst: &Substitution) -> (r: Vec<Constraint>)
    ensures
        constraint_views(r@) == Seq::new(v@.len(), |i: int| subst_constraint(v@[i]@, subst@.vars, subst@.gens)),
{
    let mut r: Vec<Constraint> = Vec::new();
    let mut i: usize = 0;
    while i < v.len()
        invariant
            i <= v@.len(),
            r@.len() == i,
            forall|j: int| 0 <= j < i ==> #[trigger] r@[j]@ == subst_constraint(v@[j]@, subst@.vars, subst@.gens),
        decreases v.len() - i,
    {
        r.push(v[i].apply_subst(subst));
        i += 1;
    }
    assert(constraint_views(r@) =~= Seq::new(v@.len(), |i: int| subst_constraint(v@[i]@, subst@.vars, subst@.gens)));
    r
}

/// A qualified type: a monotype with a set of constraints.
#[derive(Debug, PartialEq)]
pub struct QualType {
    /// The constraints that must be satisfied.
    pub constraints: Vec<Constraint>,
    /// The underlying monomorphic type.
    pub mono: MonoType,
}

/// The model of a qualified type.
pub struct SQual {
    pub constraints: Seq<SConstraint>,
    pub mono: SType,
}

impl View for QualType {
    type V = SQual;

    open spec fn view(&self) -> SQual {
        SQual { constraints: constraint_views(self.constraints@), mono: self.mono@ }
    }
}

impl QualType {
    /// A qualified type with no constraints.
    pub fn unqualified(mono: MonoType) -> (r: Self)
        ensures
            r.constraints@.len() == 0,
            r.mono == mono,
    {
        QualType { constraints: Vec::new(), mono }
    }

    /// A qualified type with the given constraints.
    pub fn qualified(constraints: Vec<Constraint>, mono: MonoType) -> (r: Self)
        ensures
            r.constraints == constraints,
            r.mono == mono,
    {
        QualType { constraints, mono }
    }

    /// A copy with the same model.
    pub fn copy(&self) -> (r: QualType)
        ensures
            r@ == self@,
    {
        QualType { constraints: copy_constraints(&self.constraints), mono: self.mono.copy() }
    }
}

/// A polymorphic type scheme: universally quantified type variables (the
/// generic indices `0 .. vars`) over a qualified type.
#[derive(Debug, PartialEq)]
pub struct PolyType {
    /// The number of universally quantified type variables.
    pub vars: usize,
    /// The qualified type body.
    pub body: QualType,
}

/// The model of a type scheme.
pub struct SPoly {
    pub vars: usize,
    pub body: SQual,
}

impl View for PolyType {
    type V = SPoly;

    open spec fn view(&self) -> SPoly {
        SPoly { vars: self.vars, body: self.body@ }
    }
}

/// The name of the `n`-th fresh type variable.
pub open spec fn fresh_name(n: nat) -> Seq<char> {
    "t"@ + decimal(n)
}

/// The counter value after `k` more fresh variables, starting from `c`
/// (counting wraps around, as an atomic counter does).
pub open spec fn counter_after(c: usize, k: nat) -> usize {
    ((c + k) % (usize::MAX as int + 1)) as usize
}

/// One more step of the counter after `k` steps is `k + 1` steps.
pub proof fn lemma_counter_step(c: usize, k: nat)
    ensures
        counter_after(counter_after(c, k), 1) == counter_after(c, k + 1),
{
    let m = usize::MAX as int + 1;
    vstd::arithmetic::div_mod::lemma_add_mod_noop(c + k, 1, m);
    vstd::arithmetic::div_mod::lemma_small_mod(1, m as nat);
}

/// Generates the next fresh type variable name from `counter`, and moves
/// the counter on.
pub fn fresh_tvar(counter: &mut usize) -> (r: String)
    ensures
        r@ == fresh_name(*old(counter) as nat),
        *final(counter) == counter_after(*old(counter), 1),
{
    let n = *counter;
    *counter = if n == usize::MAX { 0 } else { n + 1 };
    proof {
        let m = usize::MAX as int + 1;
        if n < usize::MAX {
            vstd::arithmetic::div_mod::lemma_small_mod((n + 1) as nat, m as nat);
        } else {
            vstd::arithmetic::div_mod::lemma_mod_self_0(m);
        }
    }
    let mut s = crate::text::owned("t");
    push_decimal(&mut s, n as u64);
    s
}

/// Resets the type variable counter.
pub fn reset_tvar_counter(counter: &mut usize)
    ensures
        *final(counter) == 0,
{
    *counter = 0;
}

impl PolyType {
    /// A scheme with no quantified variables.
    pub fn mono(ty: MonoType) -> (r: Self)
        ensures
            r.vars == 0,
            r.body.constraints@.len() == 0,
            r.body.mono == ty,
    {
        PolyType { vars: 0, body: QualType::unqualified(ty) }
    }

    /// A scheme over `vars` variables with body `qt`.
    pub fn from_qual(vars: usize, qt: QualType) -> (r: Self)
        ensures
            r.vars == vars,
            r.body == qt,
    {
        PolyType { vars, body: qt }
    }

    /// A copy with the same model.
    pub fn copy(&self) -> (r: PolyType)
        ensures
            r@ == self@,
    {
        PolyType { vars: self.vars, body: self.body.copy() }
    }

    /// The body with each quantified variable `i` replaced by a fresh type
    /// variable, the `i`-th drawn from `counter`.
    pub fn instantiate(&self, counter: &mut usize) -> (r: QualType)
        ensures
            *final(counter) == counter_after(*old(counter), self.vars as nat),
            r@ == instantiate(self@, *old(counter)),
    {
        let mut fresh: Vec<MonoType> = Vec::new();
        let mut i: usize = 0;
        proof {
            vstd::arithmetic::div_mod::lemma_small_mod(*old(counter) as nat, (usize::MAX as int + 1) as nat);
        }
        while i < self.vars
            invariant
                i <= self.vars,
                fresh@.len() == i,
                *counter == counter_after(*old(counter), i as nat),
                forall|j: int| 0 <= j < i ==> #[trigger] fresh@[j]@ == SType::TVar(fresh_name(counter_after(*old(counter), j as nat) as nat)),
            decreases self.vars - i,
        {
            let ghost c0 = *counter;
            let name = fresh_tvar(counter);
            proof {
                lemma_counter_step(*old(counter), i as nat);
            }
            fresh.push(MonoType::TVar(name));
            i += 1;
        }
        let subst = Substitution::from_tgens(fresh.as_slice());
        proof {
            assert(subst@.gens =~= instance_gens(self.vars, *old(counter)));
            assert(subst@.vars =~= Map::<Seq<char>, SType>::empty());
        }
        let constraints = subst_constraints(&self.body.constraints, &subst);
        let mono = self.body.mono.apply_subst(&subst);
        let r = QualType { constraints, mono };
        assert(r@.constraints =~= instantiate(self@, *old(counter)).constraints);
        r
    }
}

/// The generic bindings that instantiation uses: index `i` to the `i`-th
/// fresh variable drawn from counter value `c`.
pub open spec fn instance_gens(vars: usize, c: usize) -> Map<usize, SType> {
    Map::new(|i: usize| i < vars, |i: usize| SType::TVar(fresh_name(counter_after(c, i as nat) as nat)))
}

/// The instantiation of a scheme, drawing fresh names from counter value
/// `c`.
pub open spec fn instantiate(p: SPoly, c: usize) -> SQual {
    let gens = instance_gens(p.vars, c);
    SQual {
        constraints: Seq::new(
            p.body.constraints.len(),
            |i: int| subst_constraint(p.body.constraints[i], Map::empty(), gens),
        ),
        mono: apply(p.body.mono, Map::empty(), gens),
    }
}

/// A type class definition.
#[derive(Debug)]
pub struct TypeClass {
    /// The name of the type class.
    pub name: String,
    /// The type parameters of the class.
    pub params: Vec<String>,
    /// Super-class constraints.
    pub supers: Vec<Constraint>,
    /// The member functions of the class.
    pub members: NameMap<QualType>,
}

/// The text of each name in a list.
pub open spec fn string_views(s: Seq<String>) -> Seq<Seq<char>> {
    Seq::new(s.len(), |i: int| s[i]@)
}

/// The model of a type class.
pub struct SClass {
    pub name: Seq<char>,
    pub params: Seq<Seq<char>>,
    pub supers: Seq<SConstraint>,
    pub members: Map<Seq<char>, SQual>,
}

impl View for TypeClass {
    type V = SClass;

    open spec fn view(&self) -> SClass {
        SClass {
            name: self.name@,
            params: string_views(self.params@),
            supers: constraint_views(self.supers@),
            members: self.members@.map_values(|q: QualType| q@),
        }
    }
}

/// A type class instance.
#[derive(Debug)]
pub struct TypeClassInstance {
    /// The class this is an instance of.
    pub class_name: String,
    /// The concrete types for the class parameters.
    pub types: Vec<MonoType>,
    /// Constraints required for this instance.
    pub constraints: Vec<Constraint>,
    /// The member function implementations (as expression names).
    pub members: NameMap<String>,
}

/// The model of a type class instance.
pub struct SInstance {
    pub class_name: Seq<char>,
    pub types: Seq<SType>,
    pub constraints: Seq<SConstraint>,
    pub members: Map<Seq<char>, Seq<char>>,
}

impl View for TypeClassInstance {
    type V = SInstance;

    open spec fn view(&self) -> SInstance {
        SInstance {
            class_name: self.class_name@,
            types: views(self.types@),
            constraints: constraint_views(self.constraints@),
            members: self.members@.map_values(|m: String| m@),
        }
    }
}

} // verus!
