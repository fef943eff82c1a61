//! The mathematical model of types: names are character sequences, and
//! every operation on types is stated over this model.

use vstd::prelude::*;

verus! {

/// The model of a monomorphic type.
pub enum SType {
    Unit,
    Bool,
    Char,
    Byte,
    Short,
    Int,
    Long,
    Int128,
    Float,
    Double,
    Str,
    TVar(Seq<char>),
    TGen(usize),
    TApp(Box<SType>, Seq<SType>),
    Record(Seq<(Seq<char>, SType)>),
    Variant(Seq<(Seq<char>, SType)>),
    FixedArray(Box<SType>, usize),
    Array(Box<SType>),
    Exists(Seq<char>, Box<SType>),
    Recursive(Seq<char>, Box<SType>),
    Func(Seq<SType>, Box<SType>),
    Alias(Seq<char>, Box<SType>),
}

/// Whether the variable `x` occurs free in `t` (a binder `exists x.` or
/// `mu x.` hides it in its body).
pub open spec fn occurs_in(x: Seq<char>, t: SType) -> bool
    decreases t,
{
    match t {
        SType::TVar(n) => n == x,
        SType::TApp(f, args) => occurs_in(x, *f) || occurs_in_list(x, args),
        SType::Record(fs) => occurs_in_fields(x, fs),
        SType::Variant(fs) => occurs_in_fields(x, fs),
        SType::FixedArray(e, _) => occurs_in(x, *e),
        SType::Array(e) => occurs_in(x, *e),
        SType::Exists(b, body) => b != x && occurs_in(x, *body),
        SType::Recursive(b, body) => b != x && occurs_in(x, *body),
        SType::Func(ps, r) => occurs_in_list(x, ps) || occurs_in(x, *r),
        SType::Alias(_, inner) => occurs_in(x, *inner),
        _ => false,
    }
}


/// `occurs_in` for some element .
pub open spec fn occurs_in_list(x: Seq<char>, s: Seq<SType>) -> bool
    decreases s,
{
    if s.len() == 0 {
        false
    } else {
        occurs_in(x, s[0]) || occurs_in_list(x, s.drop_first())
    }
}

/// `occurs_in` for some element (the type of some field of a list).
pub open spec fn occurs_in_fields(x: Seq<char>, fs: Seq<(Seq<char>, SType)>) -> bool
    decreases fs,
{
    if fs.len() == 0 {
        false
    } else {
        occurs_in(x, fs[0].1) || occurs_in_fields(x, fs.drop_first())
    }
}

/// The result of applying a substitution (variable bindings `vars`, generic
/// bindings `gens`) to `t`. A binder removes its own name from `vars` in its
/// body.
pub open spec fn apply(t: SType, vars: Map<Seq<char>, SType>, gens: Map<usize, SType>) -> SType
    decreases t,
{
    match t {
        SType::TVar(n) => if vars.contains_key(n) {
            vars[n]
        } else {
            t
        },
        SType::TGen(k) => if gens.contains_key(k) {
            gens[k]
        } else {
            t
        },
        SType::TApp(f, args) => SType::TApp(
            Box::new(apply(*f, vars, gens)),
            Seq::new(args.len(), |i: int| if 0 <= i < args.len() { apply(args[i], vars, gens) } else { SType::Unit }),
        ),
        SType::Record(fs) => SType::Record(
            Seq::new(fs.len(), |i: int| if 0 <= i < fs.len() { (fs[i].0, apply(fs[i].1, vars, gens)) } else { (fs[i].0, SType::Unit) }),
        ),
        SType::Variant(fs) => SType::Variant(
            Seq::new(fs.len(), |i: int| if 0 <= i < fs.len() { (fs[i].0, apply(fs[i].1, vars, gens)) } else { (fs[i].0, SType::Unit) }),
        ),
        SType::FixedArray(e, n) => SType::FixedArray(Box::new(apply(*e, vars, gens)), n),
        SType::Array(e) => SType::Array(Box::new(apply(*e, vars, gens))),
        SType::Exists(b, body) => SType::Exists(b, Box::new(apply(*body, vars.remove(b), gens))),
        SType::Recursive(b, body) => SType::Recursive(
            b,
            Box::new(apply(*body, vars.remove(b), gens)),
        ),
        SType::Func(ps, r) => SType::Func(
            Seq::new(ps.len(), |i: int| if 0 <= i < ps.len() { apply(ps[i], vars, gens) } else { SType::Unit }),
            Box::new(apply(*r, vars, gens)),
        ),
        SType::Alias(n, inner) => SType::Alias(n, Box::new(apply(*inner, vars, gens))),
        _ => t,
    }
}

/// The size in bytes of a value of type `t`, where it is fixed.
pub open spec fn size_of(t: SType) -> Option<nat>
    decreases t,
{
    match t {
        SType::Unit => Some(0),
        SType::Bool => Some(1),
        SType::Char => Some(4),
        SType::Byte => Some(1),
        SType::Short => Some(2),
        SType::Int => Some(4),
        SType::Long => Some(8),
        SType::Int128 => Some(16),
        SType::Float => Some(4),
        SType::Double => Some(8),
        SType::FixedArray(e, n) => match size_of(*e) {
            Some(s) => Some(s * (n as nat)),
            None => None,
        },
        _ => None,
    }
}

/// Every product computed on the way to `size_of(t)` fits in a `usize`.
pub open spec fn size_fits(t: SType) -> bool
    decreases t,
{
    match t {
        SType::FixedArray(e, n) => size_fits(*e) && match size_of(*e) {
            Some(s) => s * n <= usize::MAX,
            None => true,
        },
        _ => true,
    }
}

/// No `exists` or `mu` binder anywhere in `t`.
pub open spec fn binder_free(t: SType) -> bool
    decreases t,
{
    match t {
        SType::TApp(f, args) => binder_free(*f) && binder_free_list(args),
        SType::Record(fs) => binder_free_fields(fs),
        SType::Variant(fs) => binder_free_fields(fs),
        SType::FixedArray(e, _) => binder_free(*e),
        SType::Array(e) => binder_free(*e),
        SType::Exists(_, _) => false,
        SType::Recursive(_, _) => false,
        SType::Func(ps, r) => binder_free(*r) && binder_free_list(ps),
        SType::Alias(_, inner) => binder_free(*inner),
        _ => true,
    }
}


/// `binder_free` for every element .
pub open spec fn binder_free_list(s: Seq<SType>) -> bool
    decreases s,
{
    if s.len() == 0 {
        true
    } else {
        binder_free(s[0]) && binder_free_list(s.drop_first())
    }
}

/// `binder_free` for every element (the type of some field of a list).
pub open spec fn binder_free_fields(fs: Seq<(Seq<char>, SType)>) -> bool
    decreases fs,
{
    if fs.len() == 0 {
        true
    } else {
        binder_free(fs[0].1) && binder_free_fields(fs.drop_first())
    }
}

/// Names strictly increasing along a list of fields.
pub open spec fn fields_sorted(fs: Seq<(Seq<char>, SType)>) -> bool {
    forall|i: int, j: int|
        0 <= i < j < fs.len() ==> crate::text::seq_lt(#[trigger] fs[i].0, #[trigger] fs[j].0)
}

/// A plain first-order type: no binders, no aliases, and every record and
/// variant lists its fields in strictly increasing name order.
pub open spec fn simple(t: SType) -> bool
    decreases t,
{
    match t {
        SType::TApp(f, args) => simple(*f) && simple_list(args),
        SType::Record(fs) => fields_sorted(fs) && simple_fields(fs),
        SType::Variant(fs) => fields_sorted(fs) && simple_fields(fs),
        SType::FixedArray(e, _) => simple(*e),
        SType::Array(e) => simple(*e),
        SType::Exists(_, _) => false,
        SType::Recursive(_, _) => false,
        SType::Func(ps, r) => simple(*r) && simple_list(ps),
        SType::Alias(_, _) => false,
        _ => true,
    }
}


/// `simple` for every element .
pub open spec fn simple_list(s: Seq<SType>) -> bool
    decreases s,
{
    if s.len() == 0 {
        true
    } else {
        simple(s[0]) && simple_list(s.drop_first())
    }
}

/// `simple` for every element (the type of some field of a list).
pub open spec fn simple_fields(fs: Seq<(Seq<char>, SType)>) -> bool
    decreases fs,
{
    if fs.len() == 0 {
        true
    } else {
        simple(fs[0].1) && simple_fields(fs.drop_first())
    }
}

} // verus!

verus! {

pub proof fn lemma_occurs_in_list(x: Seq<char>, s: Seq<SType>)
    ensures
        occurs_in_list(x, s) <==> exists|i: int| 0 <= i < s.len() && #[trigger] occurs_in(x, s[i]),
    decreases s.len(),
{
    if s.len() > 0 {
        lemma_occurs_in_list(x, s.drop_first());
        if exists|i: int| 0 <= i < s.len() && #[trigger] occurs_in(x, s[i]) {
            let i = choose|i: int| 0 <= i < s.len() && #[trigger] occurs_in(x, s[i]);
            if i > 0 {
                assert(s.drop_first()[i - 1] == s[i]);
            }
        }
        if occurs_in_list(x, s.drop_first()) {
            let i = choose|i: int| 0 <= i < s.drop_first().len() && #[trigger] occurs_in(x, s.drop_first()[i]);
            assert(s.drop_first()[i] == s[i + 1]);
            assert(occurs_in(x, s[i + 1]));
        }
        if occurs_in(x, s[0]) {
            assert(occurs_in(x, s[0]));
        }
    }
}

pub proof fn lemma_occurs_in_fields(x: Seq<char>, fs: Seq<(Seq<char>, SType)>)
    ensures
        occurs_in_fields(x, fs) <==> exists|i: int| 0 <= i < fs.len() && #[trigger] occurs_in(x, fs[i].1),
    decreases fs.len(),
{
    if fs.len() > 0 {
        lemma_occurs_in_fields(x, fs.drop_first());
        if exists|i: int| 0 <= i < fs.len() && #[trigger] occurs_in(x, fs[i].1) {
            let i = choose|i: int| 0 <= i < fs.len() && #[trigger] occurs_in(x, fs[i].1);
            if i > 0 {
                assert(fs.drop_first()[i - 1] == fs[i]);
            }
        }
        if occurs_in_fields(x, fs.drop_first()) {
            let i = choose|i: int| 0 <= i < fs.drop_first().len() && #[trigger] occurs_in(x, fs.drop_first()[i].1);
            assert(fs.drop_first()[i] == fs[i + 1]);
            assert(occurs_in(x, fs[i + 1].1));
        }
        if occurs_in(x, fs[0].1) {
            assert(occurs_in(x, fs[0].1));
        }
    }
}

pub proof fn lemma_binder_free_list(s: Seq<SType>)
    ensures
        binder_free_list(s) <==> forall|i: int| 0 <= i < s.len() ==> #[trigger] binder_free(s[i]),
    decreases s.len(),
{
    if s.len() > 0 {
        lemma_binder_free_list(s.drop_first());
        if binder_free_list(s) {
            assert forall|i: int| 0 <= i < s.len() implies #[trigger] binder_free(s[i]) by {
                if i > 0 {
                    assert(s.drop_first()[i - 1] == s[i]);
                }
            }
        }
        if forall|i: int| 0 <= i < s.len() ==> #[trigger] binder_free(s[i]) {
            assert(binder_free(s[0]));
            assert forall|i: int| 0 <= i < s.drop_first().len() implies #[trigger] binder_free(s.drop_first()[i]) by {
                assert(s.drop_first()[i] == s[i + 1]);
            }
        }
    }
}

pub proof fn lemma_binder_free_fields(fs: Seq<(Seq<char>, SType)>)
    ensures
        binder_free_fields(fs) <==> forall|i: int| 0 <= i < fs.len() ==> #[trigger] binder_free(fs[i].1),
    decreases fs.len(),
{
    if fs.len() > 0 {
        lemma_binder_free_fields(fs.drop_first());
        if binder_free_fields(fs) {
            assert forall|i: int| 0 <= i < fs.len() implies #[trigger] binder_free(fs[i].1) by {
                if i > 0 {
                    assert(fs.drop_first()[i - 1] == fs[i]);
                }
            }
        }
        if forall|i: int| 0 <= i < fs.len() ==> #[trigger] binder_free(fs[i].1) {
            assert(binder_free(fs[0].1));
            assert forall|i: int| 0 <= i < fs.drop_first().len() implies #[trigger] binder_free(fs.drop_first()[i].1) by {
                assert(fs.drop_first()[i] == fs[i + 1]);
            }
        }
    }
}

pub proof fn lemma_simple_list(s: Seq<SType>)
    ensures
        simple_list(s) <==> forall|i: int| 0 <= i < s.len() ==> #[trigger] simple(s[i]),
    decreases s.len(),
{
    if s.len() > 0 {
        lemma_simple_list(s.drop_first());
        if simple_list(s) {
            assert forall|i: int| 0 <= i < s.len() implies #[trigger] simple(s[i]) by {
                if i > 0 {
                    assert(s.drop_first()[i - 1] == s[i]);
                }
            }
        }
        if forall|i: int| 0 <= i < s.len() ==> #[trigger] simple(s[i]) {
            assert(simple(s[0]));
            assert forall|i: int| 0 <= i < s.drop_first().len() implies #[trigger] simple(s.drop_first()[i]) by {
                assert(s.drop_first()[i] == s[i + 1]);
            }
        }
    }
}

pub proof fn lemma_simple_fields(fs: Seq<(Seq<char>, SType)>)
    ensures
        simple_fields(fs) <==> forall|i: int| 0 <= i < fs.len() ==> #[trigger] simple(fs[i].1),
    decreases fs.len(),
{
    if fs.len() > 0 {
        lemma_simple_fields(fs.drop_first());
        if simple_fields(fs) {
            assert forall|i: int| 0 <= i < fs.len() implies #[trigger] simple(fs[i].1) by {
                if i > 0 {
                    assert(fs.drop_first()[i - 1] == fs[i]);
                }
            }
        }
        if forall|i: int| 0 <= i < fs.len() ==> #[trigger] simple(fs[i].1) {
            assert(simple(fs[0].1));
            assert forall|i: int| 0 <= i < fs.drop_first().len() implies #[trigger] simple(fs.drop_first()[i].1) by {
                assert(fs.drop_first()[i] == fs[i + 1]);
            }
        }
    }
}

} // verus!
