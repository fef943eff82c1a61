//! The textual form of types, as the interpreter prints them.

use vstd::prelude::*;
use crate::name_map::NameMap;
use crate::text::{push_str, push_decimal, decimal};
use super::{MonoType, Constraint, QualType, PolyType, SConstraint, SQual, SPoly, constraint_views};
use super::infer::{TypeError, STypeError};
use super::model::SType;

verus! {

/// The textual form of a type.
pub open spec fn render(t: SType) -> Seq<char>
    decreases t, 0nat,
{
    match t {
        SType::Unit => "()"@,
        SType::Bool => "bool"@,
        SType::Char => "char"@,
        SType::Byte => "byte"@,
        SType::Short => "short"@,
        SType::Int => "int"@,
        SType::Long => "long"@,
        SType::Int128 => "int128"@,
        SType::Float => "float"@,
        SType::Double => "double"@,
        SType::Str => "str"@,
        SType::TVar(n) => n,
        SType::TGen(k) => "'"@ + decimal(k as nat),
        SType::TApp(f, args) => "("@ + render(*f) + render_spaced(args) + ")"@,
        SType::Record(fs) => "{"@ + render_fields(fs, ": "@, ", "@) + "}"@,
        SType::Variant(fs) => "("@ + render_fields(fs, " "@, " | "@) + ")"@,
        SType::FixedArray(e, n) => "["@ + render(*e) + "; "@ + decimal(n as nat) + "]"@,
        SType::Array(e) => "["@ + render(*e) + "]"@,
        SType::Exists(v, body) => "exists "@ + v + ". "@ + render(*body),
        SType::Recursive(v, body) => "mu "@ + v + ". "@ + render(*body),
        SType::Func(ps, r) => "("@ + render_joined(ps, ", "@) + ") -> "@ + render(*r),
        SType::Alias(n, _) => n,
    }
}

/// Each type of `ts` preceded by a space.
pub open spec fn render_spaced(ts: Seq<SType>) -> Seq<char>
    decreases ts, 1nat,
{
    if ts.len() == 0 {
        Seq::empty()
    } else {
        render_spaced(ts.drop_last()) + " "@ + render(ts.last())
    }
}

/// The types of `ts`, separated by `sep`.
pub open spec fn render_joined(ts: Seq<SType>, sep: Seq<char>) -> Seq<char>
    decreases ts, 1nat,
{
    if ts.len() == 0 {
        Seq::empty()
    } else if ts.len() == 1 {
        render(ts[0])
    } else {
        render_joined(ts.drop_last(), sep) + sep + render(ts.last())
    }
}

/// Each field as its name, `kv`, and its type, separated by `sep`.
pub open spec fn render_fields(fs: Seq<(Seq<char>, SType)>, kv: Seq<char>, sep: Seq<char>) -> Seq<char>
    decreases fs, 1nat,
{
    if fs.len() == 0 {
        Seq::empty()
    } else if fs.len() == 1 {
        fs[0].0 + kv + render(fs[0].1)
    } else {
        render_fields(fs.drop_last(), kv, sep) + sep + (fs.last().0 + kv + render(fs.last().1))
    }
}

impl MonoType {
    /// Appends the textual form of this type.
    pub fn render_into(&self, out: &mut String)
        ensures
            final(out)@ == old(out)@ + render(self@),
        decreases self,
    {
        match self {
            MonoType::Unit => push_str(out, "()"),
            MonoType::Bool => push_str(out, "bool"),
            MonoType::Char => push_str(out, "char"),
            MonoType::Byte => push_str(out, "byte"),
            MonoType::Short => push_str(out, "short"),
            MonoType::Int => push_str(out, "int"),
            MonoType::Long => push_str(out, "long"),
            MonoType::Int128 => push_str(out, "int128"),
            MonoType::Float => push_str(out, "float"),
            MonoType::Double => push_str(out, "double"),
            MonoType::Str => push_str(out, "str"),
            MonoType::TVar(n) => push_str(out, n.as_str()),
            MonoType::TGen(k) => {
                push_str(out, "'");
                push_decimal(out, *k as u64);
                assert(out@ =~= old(out)@ + ("'"@ + decimal(*k as nat)));
            }
            MonoType::TApp(f, args) => {
                proof {
                    super::infer::lemma_views_tapp(*self);
                }
                push_str(out, "(");
                f.render_into(out);
                render_spaced_into(args, out);
                push_str(out, ")");
                assert(out@ =~= old(out)@ + render(self@));
            }
            MonoType::Record(fields) => {
                proof {
                    super::infer::lemma_views_record(*self);
                }
                push_str(out, "{");
                render_fields_into(fields, ": ", ", ", out);
                push_str(out, "}");
                assert(out@ =~= old(out)@ + render(self@));
            }
            MonoType::Variant(fields) => {
                proof {
                    super::infer::lemma_views_variant(*self);
                }
                push_str(out, "(");
                render_fields_into(fields, " ", " | ", out);
                push_str(out, ")");
                assert(out@ =~= old(out)@ + render(self@));
            }
            MonoType::FixedArray(e, n) => {
                push_str(out, "[");
                e.render_into(out);
                push_str(out, "; ");
                push_decimal(out, *n as u64);
                push_str(out, "]");
                assert(out@ =~= old(out)@ + render(self@));
            }
            MonoType::Array(e) => {
                push_str(out, "[");
                e.render_into(out);
                push_str(out, "]");
                assert(out@ =~= old(out)@ + render(self@));
            }
            MonoType::Exists(v, body) => {
                push_str(out, "exists ");
                push_str(out, v.as_str());
                push_str(out, ". ");
                body.render_into(out);
                assert(out@ =~= old(out)@ + render(self@));
            }
            MonoType::Recursive(v, body) => {
                push_str(out, "mu ");
                push_str(out, v.as_str());
                push_str(out, ". ");
                body.render_into(out);
                assert(out@ =~= old(out)@ + render(self@));
            }
            MonoType::Func(ps, r) => {
                proof {
                    super::infer::lemma_views_func(*self);
                }
                push_str(out, "(");
                render_joined_into(ps, ", ", out);
                push_str(out, ") -> ");
                r.render_into(out);
                assert(out@ =~= old(out)@ + render(self@));
            }
            MonoType::Alias(n, _) => push_str(out, n.as_str()),
        }
    }

    /// The textual form of this type (what `{}` prints).
    pub fn to_string(&self) -> (r: String)
        ensures
            r@ == render(self@),
    {
        let mut out = String::new();
        self.render_into(&mut out);
        assert(out@ =~= render(self@));
        out
    }
}

/// Appends each type of `ts` preceded by a space.
pub fn render_spaced_into(ts: &Vec<MonoType>, out: &mut String)
    ensures
        final(out)@ == old(out)@ + render_spaced(super::views(ts@)),
    decreases ts,
{
    let ghost start = out@;
    let ghost v = super::views(ts@);
    let mut i: usize = 0;
    assert(v.take(0) =~= Seq::<SType>::empty());
    while i < ts.len()
        invariant
            i <= ts@.len(),
            v == super::views(ts@),
            out@ == start + render_spaced(v.take(i as int)),
        decreases ts.len() - i,
    {
        proof {
            assert(decreases_to!(ts => ts@));
            assert(v.take(i + 1).drop_last() =~= v.take(i as int));
            assert(v.take(i + 1).last() == ts@[i as int]@);
        }
        push_str(out, " ");
        ts[i].render_into(out);
        proof {
            assert(out@ =~= start + render_spaced(v.take(i + 1)));
        }
        i += 1;
    }
    assert(v.take(i as int) =~= v);
}

/// Appends the types of `ts`, separated by `sep`.
pub fn render_joined_into(ts: &Vec<MonoType>, sep: &str, out: &mut String)
    ensures
        final(out)@ == old(out)@ + render_joined(super::views(ts@), sep@),
    decreases ts,
{
    let ghost start = out@;
    let ghost v = super::views(ts@);
    let mut i: usize = 0;
    assert(v.take(0) =~= Seq::<SType>::empty());
    while i < ts.len()
        invariant
            i <= ts@.len(),
            v == super::views(ts@),
            out@ == start + render_joined(v.take(i as int), sep@),
        decreases ts.len() - i,
    {
        proof {
            assert(decreases_to!(ts => ts@));
            assert(v.take(i + 1).drop_last() =~= v.take(i as int));
            assert(v.take(i + 1).last() == ts@[i as int]@);
            assert(v.take(i + 1)[0] == v[0]);
        }
        if i > 0 {
            push_str(out, sep);
        }
        ts[i].render_into(out);
        proof {
            assert(out@ =~= start + render_joined(v.take(i + 1), sep@));
        }
        i += 1;
    }
    assert(v.take(i as int) =~= v);
}

/// Appends each field of `m` as its name, `kv`, and its type, separated by
/// `sep`.
pub fn render_fields_into(m: &NameMap<MonoType>, kv: &str, sep: &str, out: &mut String)
    ensures
        final(out)@ == old(out)@ + render_fields(super::infer::fields_model(*m), kv@, sep@),
    decreases m,
{
    let ghost start = out@;
    let ghost v = super::infer::fields_model(*m);
    let mut i: usize = 0;
    assert(v.take(0) =~= Seq::<(Seq<char>, SType)>::empty());
    while i < m.entries.len()
        invariant
            i <= m.entries@.len(),
            v == super::infer::fields_model(*m),
            out@ == start + render_fields(v.take(i as int), kv@, sep@),
        decreases m.entries.len() - i,
    {
        proof {
            assert(decreases_to!(m => m.entries));
            assert(decreases_to!(m.entries => m.entries@));
            assert(v.take(i + 1).drop_last() =~= v.take(i as int));
            assert(v.take(i + 1).last() == (m.entries@[i as int].0@, m.entries@[i as int].1@));
            assert(v.take(i + 1)[0] == v[0]);
        }
        if i > 0 {
            push_str(out, sep);
        }
        push_str(out, m.entries[i].0.as_str());
        push_str(out, kv);
        m.entries[i].1.render_into(out);
        proof {
            assert(out@ =~= start + render_fields(v.take(i + 1), kv@, sep@));
        }
        i += 1;
    }
    assert(v.take(i as int) =~= v);
}

/// The textual form of a constraint: its name, then each type after a
/// space.
pub open spec fn render_constraint(c: SConstraint) -> Seq<char> {
    c.name + render_spaced(c.types)
}

/// The constraints of `cs`, separated by `", "`.
pub open spec fn render_constraints(cs: Seq<SConstraint>) -> Seq<char>
    decreases cs.len(),
{
    if cs.len() == 0 {
        Seq::empty()
    } else if cs.len() == 1 {
        render_constraint(cs[0])
    } else {
        render_constraints(cs.drop_last()) + ", "@ + render_constraint(cs.last())
    }
}

/// The textual form of a qualified type: the constraints in parentheses
/// before `=>`, where there are any, then the type.
pub open spec fn render_qual(q: SQual) -> Seq<char> {
    if q.constraints.len() == 0 {
        render(q.mono)
    } else {
        "("@ + render_constraints(q.constraints) + ") => "@ + render(q.mono)
    }
}

/// `" '0 '1 ... '(n-1)"`.
pub open spec fn render_gens(n: nat) -> Seq<char>
    decreases n,
{
    if n == 0 {
        Seq::empty()
    } else {
        render_gens((n - 1) as nat) + " '"@ + decimal((n - 1) as nat)
    }
}

/// The textual form of a scheme: `forall '0 ... '(n-1). ` before the body
/// when it quantifies over `n > 0` variables.
pub open spec fn render_poly(p: SPoly) -> Seq<char> {
    if p.vars > 0 {
        "forall"@ + render_gens(p.vars as nat) + ". "@ + render_qual(p.body)
    } else {
        render_qual(p.body)
    }
}

impl Constraint {
    /// Appends the textual form of this constraint.
    pub fn render_into(&self, out: &mut String)
        ensures
            final(out)@ == old(out)@ + render_constraint(self@),
    {
        push_str(out, self.name.as_str());
        render_spaced_into(&self.types, out);
        assert(final(out)@ =~= old(out)@ + render_constraint(self@));
    }

    /// The textual form of this constraint (what `{}` prints).
    pub fn to_string(&self) -> (r: String)
        ensures
            r@ == render_constraint(self@),
    {
        let mut out = String::new();
        self.render_into(&mut out);
        assert(out@ =~= render_constraint(self@));
        out
    }
}

impl QualType {
    /// Appends the textual form of this qualified type.
    pub fn render_into(&self, out: &mut String)
        ensures
            final(out)@ == old(out)@ + render_qual(self@),
    {
        let ghost start = out@;
        let ghost cs = constraint_views(self.constraints@);
        if self.constraints.len() > 0 {
            push_str(out, "(");
            let ghost open = out@;
            let mut i: usize = 0;
            assert(cs.take(0) =~= Seq::<SConstraint>::empty());
            while i < self.constraints.len()
                invariant
                    i <= self.constraints@.len(),
                    cs == constraint_views(self.constraints@),
                    out@ == open + render_constraints(cs.take(i as int)),
                decreases self.constraints.len() - i,
            {
                proof {
                    assert(cs.take(i + 1).drop_last() =~= cs.take(i as int));
                    assert(cs.take(i + 1).last() == self.constraints@[i as int]@);
                    assert(cs.take(i + 1)[0] == cs[0]);
                }
                if i > 0 {
                    push_str(out, ", ");
                }
                self.constraints[i].render_into(out);
                proof {
                    assert(out@ =~= open + render_constraints(cs.take(i + 1)));
                }
                i += 1;
            }
            assert(cs.take(i as int) =~= cs);
            push_str(out, ") => ");
        }
        self.mono.render_into(out);
        assert(final(out)@ =~= start + render_qual(self@));
    }

    /// The textual form of this qualified type (what `{}` prints).
    pub fn to_string(&self) -> (r: String)
        ensures
            r@ == render_qual(self@),
    {
        let mut out = String::new();
        self.render_into(&mut out);
        assert(out@ =~= render_qual(self@));
        out
    }
}

impl PolyType {
    /// The textual form of this scheme (what `{}` prints).
    pub fn to_string(&self) -> (r: String)
        ensures
            r@ == render_poly(self@),
    {
        let mut out = String::new();
        if self.vars > 0 {
            push_str(&mut out, "forall");
            let mut i: usize = 0;
            while i < self.vars
                invariant
                    i <= self.vars,
                    out@ == "forall"@ + render_gens(i as nat),
                decreases self.vars - i,
            {
                push_str(&mut out, " '");
                push_decimal(&mut out, i as u64);
                i += 1;
                assert(out@ =~= "forall"@ + render_gens(i as nat));
            }
            push_str(&mut out, ". ");
        }
        self.body.render_into(&mut out);
        assert(out@ =~= render_poly(self@));
        out
    }
}

/// The message of a type error.
pub open spec fn error_message(e: STypeError) -> Seq<char> {
    match e {
        STypeError::UnificationFailure(a, b) => "Cannot unify "@ + render(a) + " with "@ + render(b),
        STypeError::OccursCheck(n, t) => "Occurs check failed: "@ + n + " occurs in "@ + render(t),
        STypeError::UnboundVariable(n) => "Unbound variable: "@ + n,
        STypeError::TypeMismatch { expected, found } =>
            "Type mismatch: expected "@ + render(expected) + ", found "@ + render(found),
        STypeError::FieldNotFound(n) => "Record field not found: "@ + n,
        STypeError::ConstructorNotFound(n) => "Variant constructor not found: "@ + n,
        STypeError::ArityMismatch { expected, found } =>
            "Arity mismatch: expected "@ + decimal(expected as nat) + " arguments, found "@ + decimal(found as nat),
        STypeError::UnresolvedConstraint(n) => "Cannot resolve constraint: "@ + n,
        STypeError::AmbiguousType(n) => "Ambiguous type: "@ + n,
        STypeError::Other(n) => n,
    }
}

impl TypeError {
    /// The message of this error (what `{}` prints).
    pub fn to_string(&self) -> (r: String)
        ensures
            r@ == error_message(self@),
    {
        let mut out = String::new();
        match self {
            TypeError::UnificationFailure(a, b) => {
                push_str(&mut out, "Cannot unify ");
                a.render_into(&mut out);
                push_str(&mut out, " with ");
                b.render_into(&mut out);
            }
            TypeError::OccursCheck(n, t) => {
                push_str(&mut out, "Occurs check failed: ");
                push_str(&mut out, n.as_str());
                push_str(&mut out, " occurs in ");
                t.render_into(&mut out);
            }
            TypeError::UnboundVariable(n) => {
                push_str(&mut out, "Unbound variable: ");
                push_str(&mut out, n.as_str());
            }
            TypeError::TypeMismatch { expected, found } => {
                push_str(&mut out, "Type mismatch: expected ");
                expected.render_into(&mut out);
                push_str(&mut out, ", found ");
                found.render_into(&mut out);
            }
            TypeError::FieldNotFound(n) => {
                push_str(&mut out, "Record field not found: ");
                push_str(&mut out, n.as_str());
            }
            TypeError::ConstructorNotFound(n) => {
                push_str(&mut out, "Variant constructor not found: ");
                push_str(&mut out, n.as_str());
            }
            TypeError::ArityMismatch { expected, found } => {
                push_str(&mut out, "Arity mismatch: expected ");
                push_decimal(&mut out, *expected as u64);
                push_str(&mut out, " arguments, found ");
                push_decimal(&mut out, *found as u64);
            }
            TypeError::UnresolvedConstraint(n) => {
                push_str(&mut out, "Cannot resolve constraint: ");
                push_str(&mut out, n.as_str());
            }
            TypeError::AmbiguousType(n) => {
                push_str(&mut out, "Ambiguous type: ");
                push_str(&mut out, n.as_str());
            }
            TypeError::Other(n) => {
                push_str(&mut out, n.as_str());
            }
        }
        assert(out@ =~= error_message(self@));
        out
    }
}

} // verus!
