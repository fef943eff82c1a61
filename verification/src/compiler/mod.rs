//! The errors of the evaluator, and its runtime environment: nested
//! scopes binding names to values. A scope sees the bindings of the scopes
//! around it unless it binds the same name itself.

use vstd::prelude::*;
use crate::name_map::{NameMap, clones_of, names_sorted};
use self::value::Value;
use crate::types::infer::TypeError;
use crate::types::render::error_message;
use crate::text::{push_str, push_decimal, decimal};

pub mod value;
pub mod eval;

verus! {

/// Errors that can occur during compilation or evaluation.
#[derive(Debug)]
pub enum EvalError {
    TypeError(TypeError),
    UnboundVariable(String),
    NotAFunction,
    ArityMismatch { expected: usize, got: usize },
    MatchFailure,
    DivisionByZero,
    IndexOutOfBounds { index: usize, length: usize },
    FieldNotFound(String),
    Runtime(String),
}

/// The message of an error (what `{}` prints).
pub open spec fn error_text(e: EvalError) -> Seq<char> {
    match e {
        EvalError::TypeError(t) => "Type error: "@ + error_message(t@),
        EvalError::UnboundVariable(n) => "Unbound variable: "@ + n@,
        EvalError::NotAFunction => "Not a function"@,
        EvalError::ArityMismatch { expected, got } => "Arity mismatch: expected "@ + decimal(expected as nat)
            + ", got "@ + decimal(got as nat),
        EvalError::MatchFailure => "Pattern match failure"@,
        EvalError::DivisionByZero => "Division by zero"@,
        EvalError::IndexOutOfBounds { index, length } => "Index out of bounds: "@ + decimal(index as nat)
            + " (length "@ + decimal(length as nat) + ")"@,
        EvalError::FieldNotFound(n) => "Field not found: "@ + n@,
        EvalError::Runtime(m) => "Runtime error: "@ + m@,
    }
}

impl EvalError {
    /// The message of this error (what `{}` prints).
    pub fn to_string(&self) -> (r: String)
        ensures
            r@ == error_text(*self),
            self matches EvalError::TypeError(e) ==> r@ == "Type error: "@ + error_message(e@),
            self matches EvalError::UnboundVariable(n) ==> r@ == "Unbound variable: "@ + n@,
            self is NotAFunction ==> r@ == "Not a function"@,
            self matches EvalError::ArityMismatch { expected, got } ==> r@ == "Arity mismatch: expected "@
                + decimal(expected as nat) + ", got "@ + decimal(got as nat),
            self is MatchFailure ==> r@ == "Pattern match failure"@,
            self is DivisionByZero ==> r@ == "Division by zero"@,
            self matches EvalError::IndexOutOfBounds { index, length } ==> r@ == "Index out of bounds: "@
                + decimal(index as nat) + " (length "@ + decimal(length as nat) + ")"@,
            self matches EvalError::FieldNotFound(n) ==> r@ == "Field not found: "@ + n@,
            self matches EvalError::Runtime(m) ==> r@ == "Runtime error: "@ + m@,
    {
        let mut out = String::new();
        match self {
            EvalError::TypeError(e) => {
                push_str(&mut out, "Type error: ");
                let t = e.to_string();
                push_str(&mut out, t.as_str());
            }
            EvalError::UnboundVariable(n) => {
                push_str(&mut out, "Unbound variable: ");
                push_str(&mut out, n.as_str());
            }
            EvalError::NotAFunction => push_str(&mut out, "Not a function"),
            EvalError::ArityMismatch { expected, got } => {
                push_str(&mut out, "Arity mismatch: expected ");
                push_decimal(&mut out, *expected as u64);
                push_str(&mut out, ", got ");
                push_decimal(&mut out, *got as u64);
            }
            EvalError::MatchFailure => push_str(&mut out, "Pattern match failure"),
            EvalError::DivisionByZero => push_str(&mut out, "Division by zero"),
            EvalError::IndexOutOfBounds { index, length } => {
                push_str(&mut out, "Index out of bounds: ");
                push_decimal(&mut out, *index as u64);
                push_str(&mut out, " (length ");
                push_decimal(&mut out, *length as u64);
                push_str(&mut out, ")");
            }
            EvalError::FieldNotFound(n) => {
                push_str(&mut out, "Field not found: ");
                push_str(&mut out, n.as_str());
            }
            EvalError::Runtime(m) => {
                push_str(&mut out, "Runtime error: ");
                push_str(&mut out, m.as_str());
            }
        }
        out
    }
}

/// A scope of bindings, with an optional enclosing (parent) scope.
#[derive(Debug)]
pub struct Env<V> {
    bindings: NameMap<V>,
    parent: Option<Box<Env<V>>>,
}

impl<V> Env<V> {
    /// Each scope keeps its names in increasing order, once each.
    #[verifier::type_invariant]
    spec fn inv(self) -> bool {
        self.bindings.wf()
    }

    /// The bindings made in this scope itself.
    pub closed spec fn own_bindings(self) -> Map<Seq<char>, V> {
        self.bindings@
    }

    /// The bindings visible from the enclosing scopes.
    pub closed spec fn outer_bindings(self) -> Map<Seq<char>, V> {
        match self.parent {
            Some(p) => p.scope_bindings(),
            None => Map::empty(),
        }
    }

    /// The bindings visible here: this scope's own over the enclosing ones.
    pub closed spec fn scope_bindings(self) -> Map<Seq<char>, V>
        decreases self,
    {
        match self.parent {
            Some(p) => p.scope_bindings().union_prefer_right(self.bindings@),
            None => self.bindings@,
        }
    }

    /// The visible bindings are this scope's own over the enclosing ones.
    pub proof fn lemma_scopes(self)
        ensures
            self.scope_bindings() == self.outer_bindings().union_prefer_right(self.own_bindings()),
    {
        if self.parent is None {
            assert(self.scope_bindings() =~= Map::<Seq<char>, V>::empty().union_prefer_right(self.own_bindings()));
        }
    }

    /// An empty environment.
    pub fn new() -> (r: Self)
        ensures
            r.scope_bindings() == Map::<Seq<char>, V>::empty(),
            r.own_bindings() == Map::<Seq<char>, V>::empty(),
            r.outer_bindings() == Map::<Seq<char>, V>::empty(),
    {
        let r = Env { bindings: NameMap::new(), parent: None };
        assert(r.bindings@ =~= Map::<Seq<char>, V>::empty());
        r
    }

    /// A new scope inside `parent`: it sees everything `parent` sees and
    /// binds nothing itself yet.
    pub fn child(parent: Env<V>) -> (r: Self)
        ensures
            r.scope_bindings() == parent.scope_bindings(),
            r.own_bindings() == Map::<Seq<char>, V>::empty(),
            r.outer_bindings() == parent.scope_bindings(),
    {
        let r = Env { bindings: NameMap::new(), parent: Some(Box::new(parent)) };
        assert(r.bindings@ =~= Map::<Seq<char>, V>::empty());
        assert(r.scope_bindings() =~= parent.scope_bindings());
        r
    }

    /// Binds `name` to `value` in this scope.
    pub fn bind(&mut self, name: &str, value: V)
        ensures
            final(self).scope_bindings() == old(self).scope_bindings().insert(name@, value),
            final(self).own_bindings() == old(self).own_bindings().insert(name@, value),
            final(self).outer_bindings() == old(self).outer_bindings(),
    {
        proof {
            use_type_invariant(&*self);
        }
        let mut b = NameMap::new();
        std::mem::swap(&mut b, &mut self.bindings);
        b.insert(crate::text::owned(name), value);
        self.bindings = b;
        proof {
            if self.parent is Some {
                assert(final(self).scope_bindings() =~= old(self).scope_bindings().insert(name@, value));
            }
        }
    }

    /// The value `name` is bound to, searching this scope and then the
    /// enclosing ones.
    pub fn lookup(&self, name: &str) -> (r: Option<&V>)
        ensures
            r is Some <==> self.scope_bindings().contains_key(name@),
            r matches Some(v) ==> *v == self.scope_bindings()[name@],
        decreases self,
    {
        match self.bindings.get(name) {
            Some(v) => Some(v),
            None => match &self.parent {
                Some(parent) => parent.lookup(name),
                None => None,
            },
        }
    }
}

impl<V: Clone> Env<V> {
    /// All visible bindings, by name: this scope's own over the enclosing
    /// ones, each value a clone.
    pub fn all_bindings(&self) -> (r: NameMap<V>)
        ensures
            r.wf(),
            clones_of(self.scope_bindings(), r@),
        decreases self,
    {
        proof {
            use_type_invariant(self);
            self.lemma_scopes();
        }
        let mut result: NameMap<V> = match &self.parent {
            Some(parent) => parent.all_bindings(),
            None => NameMap::new(),
        };
        let ghost outer = result@;
        proof {
            if self.parent is None {
                assert(outer =~= Map::<Seq<char>, V>::empty());
            }
        }
        result.insert_clones(&self.bindings);
        proof {
            assert(result@.dom() =~= self.scope_bindings().dom());
        }
        result
    }

    /// A copy of this environment: the same scopes, each value a clone.
    pub fn copy(&self) -> (r: Self)
        ensures
            clones_of(self.own_bindings(), r.own_bindings()),
            clones_of(self.outer_bindings(), r.outer_bindings()),
            clones_of(self.scope_bindings(), r.scope_bindings()),
        decreases self,
    {
        proof {
            use_type_invariant(self);
        }
        let parent = match &self.parent {
            Some(p) => Some(Box::new(p.copy())),
            None => None,
        };
        let r = Env { bindings: self.bindings.clone_entries(), parent };
        proof {
            self.lemma_scopes();
            r.lemma_scopes();
            if self.parent is None {
                assert(r.outer_bindings() =~= self.outer_bindings());
            }
            assert(r.scope_bindings().dom() =~= self.scope_bindings().dom());
        }
        r
    }
}

impl<V: Clone> Clone for Env<V> {
    fn clone(&self) -> (r: Self)
        ensures
            clones_of(self.scope_bindings(), r.scope_bindings()),
    {
        self.copy()
    }
}

impl<V> Default for Env<V> {
    fn default() -> (r: Self)
        ensures
            r.scope_bindings() == Map::<Seq<char>, V>::empty(),
    {
        Env::new()
    }
}

/// After binding `name` to `value` in a scope, looking `name` up gives
/// `value`, and every other name is looked up as before.
pub proof fn law_lookup_after_bind<V>(before: Env<V>, after: Env<V>, name: Seq<char>, value: V)
    requires
        after.scope_bindings() == before.scope_bindings().insert(name, value),
    ensures
        after.scope_bindings().contains_key(name),
        after.scope_bindings()[name] == value,
        forall|other: Seq<char>| other != name ==> {
            &&& after.scope_bindings().contains_key(other) == before.scope_bindings().contains_key(other)
            &&& before.scope_bindings().contains_key(other) ==> after.scope_bindings()[other]
                == before.scope_bindings()[other]
        },
{
}

/// A scope inside `parent` whose only binding of its own is `name` to
/// `value` sees `value` for `name` (shadowing `parent`) and, for every
/// other name, what `parent` sees.
pub proof fn law_child_shadows_and_inherits<V>(parent: Env<V>, child: Env<V>, name: Seq<char>, value: V)
    requires
        child.outer_bindings() == parent.scope_bindings(),
        child.own_bindings() == Map::<Seq<char>, V>::empty().insert(name, value),
    ensures
        child.scope_bindings().contains_key(name),
        child.scope_bindings()[name] == value,
        forall|other: Seq<char>| other != name ==> {
            &&& child.scope_bindings().contains_key(other) == parent.scope_bindings().contains_key(other)
            &&& parent.scope_bindings().contains_key(other) ==> child.scope_bindings()[other]
                == parent.scope_bindings()[other]
        },
{
    child.lemma_scopes();
}

/// A copy of an environment of values, scope by scope.
pub(crate) fn copy_env(e: &Env<Value>) -> (r: Env<Value>)
    decreases e,
{
    proof {
        use_type_invariant(e);
    }
    let mut entries: Vec<(String, Value)> = Vec::new();
    let mut i: usize = 0;
    while i < e.bindings.entries.len()
        invariant
            i <= e.bindings.entries@.len(),
            entries@.len() == i,
            names_sorted(e.bindings.entries@),
            forall|j: int| 0 <= j < i ==> #[trigger] entries@[j].0@ == e.bindings.entries@[j].0@,
        decreases e.bindings.entries.len() - i,
    {
        proof {
            assert(decreases_to!(e => e.bindings));
            assert(decreases_to!(e.bindings => e.bindings.entries));
            assert(decreases_to!(e.bindings.entries => e.bindings.entries@));
        }
        let k = e.bindings.entries[i].0.clone();
        let v = e.bindings.entries[i].1.copy();
        entries.push((k, v));
        i += 1;
    }
    let parent = match &e.parent {
        Some(p) => Some(Box::new(copy_env(p))),
        None => None,
    };
    let bindings = NameMap { entries };
    assert(names_sorted(bindings.entries@)) by {
        assert forall|a: int, b: int| 0 <= a < b < bindings.entries@.len() implies
            crate::text::seq_lt(#[trigger] bindings.entries@[a].0@, #[trigger] bindings.entries@[b].0@) by {
            assert(crate::text::seq_lt(e.bindings.entries@[a].0@, e.bindings.entries@[b].0@));
        }
    }
    Env { bindings, parent }
}

} // verus!
