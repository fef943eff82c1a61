//! Type environments.
//!
//! A type environment maps variable names to their type schemes, and also
//! tracks type aliases, type classes and type class instances. Environments
//! nest: a child sees its parent's entries unless it shadows them.

use vstd::prelude::*;
use crate::name_map::{NameMap, entry_names, entries_map, names_sorted, find_name, lemma_find_name_bounds,
    lemma_find_name_first_le, lemma_find_name_push, lemma_sorted_find};
use super::{MonoType, PolyType, QualType, TypeClass, TypeClassInstance, SPoly, SQual, SClass, Constraint,
    views, constraint_views,
    names_strictly_sorted, has_name, insert_name, union_names, lemma_has_name_single, string_views,
    subst_constraint, subst_constraints};
use super::model::{SType, occurs_in, apply};
use super::subst::Substitution;

verus! {

/// A type environment, with an optional enclosing (parent) environment.
#[derive(Debug)]
pub struct TypeEnv {
    parent: Option<Box<TypeEnv>>,
    bindings: NameMap<PolyType>,
    aliases: NameMap<MonoType>,
    classes: NameMap<TypeClass>,
    instances: Vec<TypeClassInstance>,
}

/// Whether an instance belongs to the class named `name`.
pub open spec fn of_class(name: Seq<char>) -> spec_fn(TypeClassInstance) -> bool {
    |i: TypeClassInstance| i.class_name@ == name
}

impl TypeEnv {
    /// Each scope keeps its names in increasing order, once each.
    #[verifier::type_invariant]
    spec fn inv(self) -> bool {
        &&& self.bindings.wf()
        &&& self.aliases.wf()
        &&& self.classes.wf()
    }

    /// The bindings made in this scope itself.
    pub closed spec fn own_bindings(self) -> Map<Seq<char>, PolyType> {
        self.bindings@
    }

    /// The bindings visible from the enclosing scopes.
    pub closed spec fn outer_bindings(self) -> Map<Seq<char>, PolyType> {
        match self.parent {
            Some(p) => p.scope_bindings(),
            None => Map::empty(),
        }
    }

    /// The bindings visible here: this scope's own over the enclosing ones.
    pub closed spec fn scope_bindings(self) -> Map<Seq<char>, PolyType>
        decreases self,
    {
        match self.parent {
            Some(p) => p.scope_bindings().union_prefer_right(self.bindings@),
            None => self.bindings@,
        }
    }

    /// The type aliases visible here.
    pub closed spec fn scope_aliases(self) -> Map<Seq<char>, MonoType>
        decreases self,
    {
        match self.parent {
            Some(p) => p.scope_aliases().union_prefer_right(self.aliases@),
            None => self.aliases@,
        }
    }

    /// The type classes visible here.
    pub closed spec fn scope_classes(self) -> Map<Seq<char>, TypeClass>
        decreases self,
    {
        match self.parent {
            Some(p) => p.scope_classes().union_prefer_right(self.classes@),
            None => self.classes@,
        }
    }

    /// The instances registered in this scope, in order.
    pub closed spec fn own_instances(self) -> Seq<TypeClassInstance> {
        self.instances@
    }

    /// The instances visible here: this scope's, then the enclosing ones'.
    pub closed spec fn scope_instances(self) -> Seq<TypeClassInstance>
        decreases self,
    {
        match self.parent {
            Some(p) => self.instances@ + p.scope_instances(),
            None => self.instances@,
        }
    }

    /// The instances visible from the enclosing scopes.
    pub closed spec fn outer_instances(self) -> Seq<TypeClassInstance> {
        match self.parent {
            Some(p) => p.scope_instances(),
            None => Seq::empty(),
        }
    }

    /// The visible bindings are this scope's own over the enclosing ones,
    /// and the visible instances are this scope's followed by the enclosing
    /// ones'.
    pub proof fn lemma_scopes(self)
        ensures
            self.scope_bindings() == self.outer_bindings().union_prefer_right(self.own_bindings()),
            self.scope_instances() == self.own_instances() + self.outer_instances(),
    {
        if self.parent is None {
            assert(self.scope_bindings() =~= Map::<Seq<char>, PolyType>::empty().union_prefer_right(self.own_bindings()));
            assert(self.scope_instances() =~= self.own_instances() + Seq::<TypeClassInstance>::empty());
        }
    }

    /// An empty environment.
    pub fn new() -> (r: Self)
        ensures
            r.scope_bindings() == Map::<Seq<char>, PolyType>::empty(),
            r.own_bindings() == Map::<Seq<char>, PolyType>::empty(),
            r.outer_bindings() == Map::<Seq<char>, PolyType>::empty(),
            r.scope_aliases() == Map::<Seq<char>, MonoType>::empty(),
            r.scope_classes() == Map::<Seq<char>, TypeClass>::empty(),
            r.own_instances() == Seq::<TypeClassInstance>::empty(),
            r.outer_instances() == Seq::<TypeClassInstance>::empty(),
            r.scope_instances() == Seq::<TypeClassInstance>::empty(),
    {
        let r = TypeEnv {
            parent: None,
            bindings: NameMap::new(),
            aliases: NameMap::new(),
            classes: NameMap::new(),
            instances: Vec::new(),
        };
        proof {
            assert(r.bindings@ =~= Map::<Seq<char>, PolyType>::empty());
            assert(r.aliases@ =~= Map::<Seq<char>, MonoType>::empty());
            assert(r.classes@ =~= Map::<Seq<char>, TypeClass>::empty());
        }
        r
    }

    /// A new scope inside `parent`: it sees everything `parent` sees and
    /// has nothing of its own yet.
    pub fn child(parent: TypeEnv) -> (r: Self)
        ensures
            r.scope_bindings() == parent.scope_bindings(),
            r.own_bindings() == Map::<Seq<char>, PolyType>::empty(),
            r.outer_bindings() == parent.scope_bindings(),
            r.scope_aliases() == parent.scope_aliases(),
            r.scope_classes() == parent.scope_classes(),
            r.own_instances() == Seq::<TypeClassInstance>::empty(),
            r.outer_instances() == parent.scope_instances(),
            r.scope_instances() == parent.scope_instances(),
    {
        let r = TypeEnv {
            parent: Some(Box::new(parent)),
            bindings: NameMap::new(),
            aliases: NameMap::new(),
            classes: NameMap::new(),
            instances: Vec::new(),
        };
        proof {
            assert(r.bindings@ =~= Map::<Seq<char>, PolyType>::empty());
            assert(r.aliases@ =~= Map::<Seq<char>, MonoType>::empty());
            assert(r.classes@ =~= Map::<Seq<char>, TypeClass>::empty());
            assert(r.scope_bindings() =~= parent.scope_bindings());
            assert(r.scope_aliases() =~= parent.scope_aliases());
            assert(r.scope_classes() =~= parent.scope_classes());
            assert(r.scope_instances() =~= parent.scope_instances());
        }
        r
    }

    /// Binds `name` to `ty` in this scope.
    pub fn bind(&mut self, name: &str, ty: PolyType)
        ensures
            final(self).scope_bindings() == old(self).scope_bindings().insert(name@, ty),
            final(self).own_bindings() == old(self).own_bindings().insert(name@, ty),
            final(self).outer_bindings() == old(self).outer_bindings(),
            final(self).scope_aliases() == old(self).scope_aliases(),
            final(self).scope_classes() == old(self).scope_classes(),
            final(self).own_instances() == old(self).own_instances(),
            final(self).outer_instances() == old(self).outer_instances(),
    {
        proof {
            use_type_invariant(&*self);
        }
        let mut b = NameMap::new();
        std::mem::swap(&mut b, &mut self.bindings);
        b.insert(crate::text::owned(name), ty);
        self.bindings = b;
        proof {
            if self.parent is Some {
                assert(final(self).scope_bindings() =~= old(self).scope_bindings().insert(name@, ty));
            }
        }
    }

    /// Binds `name` to the monomorphic type `ty` in this scope.
    pub fn bind_mono(&mut self, name: &str, ty: MonoType)
        ensures
            final(self).scope_bindings().dom() == old(self).scope_bindings().dom().insert(name@),
            final(self).scope_bindings()[name@]@ == (SPoly { vars: 0, body: SQual { constraints: Seq::empty(), mono: ty@ } }),
            final(self).scope_bindings().remove(name@) == old(self).scope_bindings().remove(name@),
            final(self).own_bindings().dom() == old(self).own_bindings().dom().insert(name@),
            final(self).own_bindings()[name@] == final(self).scope_bindings()[name@],
            final(self).own_bindings().remove(name@) == old(self).own_bindings().remove(name@),
            final(self).outer_bindings() == old(self).outer_bindings(),
            final(self).scope_aliases() == old(self).scope_aliases(),
            final(self).scope_classes() == old(self).scope_classes(),
            final(self).own_instances() == old(self).own_instances(),
            final(self).outer_instances() == old(self).outer_instances(),
    {
        let p = PolyType::mono(ty);
        assert(p@.body.constraints =~= Seq::<super::SConstraint>::empty());
        self.bind(name, p);
        assert(final(self).scope_bindings().remove(name@) =~= old(self).scope_bindings().remove(name@));
        assert(final(self).own_bindings().remove(name@) =~= old(self).own_bindings().remove(name@));
    }

    /// Removes the binding of `name` made in this scope, if any.
    pub fn unbind(&mut self, name: &str)
        ensures
            final(self).own_bindings() == old(self).own_bindings().remove(name@),
            final(self).outer_bindings() == old(self).outer_bindings(),
            final(self).scope_bindings() == old(self).outer_bindings().union_prefer_right(
                old(self).own_bindings().remove(name@),
            ),
            final(self).scope_aliases() == old(self).scope_aliases(),
            final(self).scope_classes() == old(self).scope_classes(),
            final(self).own_instances() == old(self).own_instances(),
            final(self).outer_instances() == old(self).outer_instances(),
    {
        proof {
            use_type_invariant(&*self);
        }
        let mut b = NameMap::new();
        std::mem::swap(&mut b, &mut self.bindings);
        b.remove(name);
        self.bindings = b;
        proof {
            self.lemma_scopes();
        }
    }

    /// The scheme `name` is bound to, searching this scope and then the
    /// enclosing ones.
    pub fn lookup(&self, name: &str) -> (r: Option<&PolyType>)
        ensures
            r is Some <==> self.scope_bindings().contains_key(name@),
            r matches Some(p) ==> *p == self.scope_bindings()[name@],
        decreases self,
    {
        match self.bindings.get(name) {
            Some(p) => Some(p),
            None => match &self.parent {
                Some(parent) => parent.lookup(name),
                None => None,
            },
        }
    }

    /// Whether `name` is bound here or in an enclosing scope.
    pub fn has_binding(&self, name: &str) -> (r: bool)
        ensures
            r == self.scope_bindings().contains_key(name@),
    {
        self.lookup(name).is_some()
    }

    /// Whether `name` is bound in this scope itself.
    pub fn has_immediate_binding(&self, name: &str) -> (r: bool)
        ensures
            r == self.own_bindings().contains_key(name@),
    {
        self.bindings.contains_key(name)
    }

    /// Registers `name` as an alias of `ty` in this scope.
    pub fn alias(&mut self, name: &str, ty: MonoType)
        ensures
            final(self).scope_aliases() == old(self).scope_aliases().insert(name@, ty),
            final(self).scope_bindings() == old(self).scope_bindings(),
            final(self).own_bindings() == old(self).own_bindings(),
            final(self).outer_bindings() == old(self).outer_bindings(),
            final(self).scope_classes() == old(self).scope_classes(),
            final(self).own_instances() == old(self).own_instances(),
            final(self).outer_instances() == old(self).outer_instances(),
    {
        proof {
            use_type_invariant(&*self);
        }
        let mut a = NameMap::new();
        std::mem::swap(&mut a, &mut self.aliases);
        a.insert(crate::text::owned(name), ty);
        self.aliases = a;
        proof {
            if self.parent is Some {
                assert(final(self).scope_aliases() =~= old(self).scope_aliases().insert(name@, ty));
            }
        }
    }

    /// The type the alias `name` stands for, searching this scope and then
    /// the enclosing ones.
    pub fn unalias(&self, name: &str) -> (r: Option<&MonoType>)
        ensures
            r is Some <==> self.scope_aliases().contains_key(name@),
            r matches Some(t) ==> *t == self.scope_aliases()[name@],
        decreases self,
    {
        match self.aliases.get(name) {
            Some(t) => Some(t),
            None => match &self.parent {
                Some(parent) => parent.unalias(name),
                None => None,
            },
        }
    }

    /// Registers a type class in this scope, under its name.
    pub fn define_class(&mut self, class: TypeClass)
        ensures
            final(self).scope_classes() == old(self).scope_classes().insert(class.name@, class),
            final(self).scope_bindings() == old(self).scope_bindings(),
            final(self).own_bindings() == old(self).own_bindings(),
            final(self).outer_bindings() == old(self).outer_bindings(),
            final(self).scope_aliases() == old(self).scope_aliases(),
            final(self).own_instances() == old(self).own_instances(),
            final(self).outer_instances() == old(self).outer_instances(),
    {
        proof {
            use_type_invariant(&*self);
        }
        let ghost cv = class;
        let mut c = NameMap::new();
        std::mem::swap(&mut c, &mut self.classes);
        let key = class.name.clone();
        c.insert(key, class);
        self.classes = c;
        proof {
            if self.parent is Some {
                assert(final(self).scope_classes() =~= old(self).scope_classes().insert(cv.name@, cv));
            }
        }
    }

    /// The type class named `name`, searching this scope and then the
    /// enclosing ones.
    pub fn lookup_class(&self, name: &str) -> (r: Option<&TypeClass>)
        ensures
            r is Some <==> self.scope_classes().contains_key(name@),
            r matches Some(c) ==> *c == self.scope_classes()[name@],
        decreases self,
    {
        match self.classes.get(name) {
            Some(c) => Some(c),
            None => match &self.parent {
                Some(parent) => parent.lookup_class(name),
                None => None,
            },
        }
    }

    /// Registers a type class instance in this scope, after the earlier
    /// ones.
    pub fn add_instance(&mut self, instance: TypeClassInstance)
        ensures
            final(self).own_instances() == old(self).own_instances().push(instance),
            final(self).outer_instances() == old(self).outer_instances(),
            final(self).scope_bindings() == old(self).scope_bindings(),
            final(self).own_bindings() == old(self).own_bindings(),
            final(self).outer_bindings() == old(self).outer_bindings(),
            final(self).scope_aliases() == old(self).scope_aliases(),
            final(self).scope_classes() == old(self).scope_classes(),
    {
        proof {
            use_type_invariant(&*self);
        }
        let mut v = Vec::new();
        std::mem::swap(&mut v, &mut self.instances);
        v.push(instance);
        self.instances = v;
    }

    /// The instances of the class named `class_name` visible here: this
    /// scope's in order, then the enclosing ones'.
    pub fn find_instances(&self, class_name: &str) -> (r: Vec<&TypeClassInstance>)
        ensures
            r@.len() == self.scope_instances().filter(of_class(class_name@)).len(),
            forall|i: int| 0 <= i < r@.len() ==> *r@[i] == self.scope_instances().filter(of_class(class_name@))[i],
        decreases self,
    {
        let ghost pred = of_class(class_name@);
        let mut results: Vec<&TypeClassInstance> = Vec::new();
        let mut i: usize = 0;
        while i < self.instances.len()
            invariant
                i <= self.instances@.len(),
                pred == of_class(class_name@),
                results@.len() == self.instances@.take(i as int).filter(pred).len(),
                forall|j: int| 0 <= j < results@.len() ==> *results@[j] == self.instances@.take(i as int).filter(pred)[j],
            decreases self.instances.len() - i,
        {
            let inst = &self.instances[i];
            proof {
                assert(self.instances@.take(i + 1) =~= self.instances@.take(i as int).push(*inst));
                self.instances@.take(i as int).lemma_filter_push(*inst, pred);
            }
            if crate::text::str_eq(inst.class_name.as_str(), class_name) {
                results.push(inst);
            }
            i += 1;
        }
        proof {
            assert(self.instances@.take(i as int) =~= self.instances@);
        }
        match &self.parent {
            Some(parent) => {
                let more = parent.find_instances(class_name);
                let ghost base = results@.len();
                let mut j: usize = 0;
                while j < more.len()
                    invariant
                        j <= more@.len(),
                        pred == of_class(class_name@),
                        base == self.instances@.filter(pred).len(),
                        results@.len() == base + j,
                        more@.len() == parent.scope_instances().filter(pred).len(),
                        forall|k: int| 0 <= k < more@.len() ==> *more@[k] == parent.scope_instances().filter(pred)[k],
                        forall|k: int| 0 <= k < base ==> *results@[k] == self.instances@.filter(pred)[k],
                        forall|k: int| base <= k < results@.len() ==> *results@[k] == parent.scope_instances().filter(pred)[k - base],
                    decreases more.len() - j,
                {
                    results.push(more[j]);
                    j += 1;
                }
                proof {
                    Seq::filter_distributes_over_add(self.instances@, parent.scope_instances(), pred);
                }
            }
            None => {}
        }
        results
    }

    /// The names bound here or in an enclosing scope, each once, in
    /// increasing order.
    pub fn bound_variables(&self) -> (r: Vec<String>)
        ensures
            names_strictly_sorted(r@),
            forall|y: Seq<char>| has_name(r@, y) <==> self.scope_bindings().contains_key(y),
        decreases self,
    {
        proof {
            use_type_invariant(self);
            self.lemma_scopes();
        }
        let mut vars: Vec<String> = match &self.parent {
            Some(parent) => parent.bound_variables(),
            None => Vec::new(),
        };
        let ghost outer = self.outer_bindings();
        let ghost es = self.bindings.entries@;
        let mut i: usize = 0;
        while i < self.bindings.entries.len()
            invariant
                i <= es.len(),
                es == self.bindings.entries@,
                names_strictly_sorted(vars@),
                forall|y: Seq<char>| has_name(vars@, y) <==> (outer.contains_key(y)
                    || exists|j: int| 0 <= j < i && #[trigger] es[j].0@ == y),
            decreases es.len() - i,
        {
            let ghost v0 = vars@;
            insert_name(&mut vars, self.bindings.entries[i].0.clone());
            proof {
                lemma_has_name_single(es[i as int].0);
                assert forall|y: Seq<char>| has_name(vars@, y) <==> (outer.contains_key(y)
                    || exists|j: int| 0 <= j < i + 1 && #[trigger] es[j].0@ == y) by {
                    if exists|j: int| 0 <= j < i + 1 && #[trigger] es[j].0@ == y {
                        let j = choose|j: int| 0 <= j < i + 1 && #[trigger] es[j].0@ == y;
                        if j < i {
                            assert(exists|j: int| 0 <= j < i && #[trigger] es[j].0@ == y);
                        }
                    }
                }
            }
            i += 1;
        }
        proof {
            assert forall|y: Seq<char>| has_name(vars@, y) <==> self.scope_bindings().contains_key(y) by {
                lemma_find_name_bounds(es, y);
                if exists|j: int| 0 <= j < es.len() && #[trigger] es[j].0@ == y {
                    let j = choose|j: int| 0 <= j < es.len() && #[trigger] es[j].0@ == y;
                    lemma_find_name_first_le(es, y, j);
                }
            }
        }
        vars
    }

    /// All visible bindings, by name: this scope's own over the enclosing
    /// ones, each a copy.
    pub fn all_bindings(&self) -> (r: NameMap<PolyType>)
        ensures
            r.wf(),
            r@.dom() == self.scope_bindings().dom(),
            forall|k: Seq<char>| #[trigger] r@.contains_key(k) ==> r@[k]@ == self.scope_bindings()[k]@,
        decreases self,
    {
        proof {
            use_type_invariant(self);
            self.lemma_scopes();
        }
        let mut result: NameMap<PolyType> = match &self.parent {
            Some(parent) => parent.all_bindings(),
            None => NameMap::new(),
        };
        proof {
            if self.parent is None {
                assert(result@ =~= Map::<Seq<char>, PolyType>::empty());
            }
        }
        let ghost outer = self.outer_bindings();
        let ghost es = self.bindings.entries@;
        let mut i: usize = 0;
        while i < self.bindings.entries.len()
            invariant
                i <= es.len(),
                es == self.bindings.entries@,
                names_sorted(es),
                result.wf(),
                result@.dom() == outer.dom().union(entries_map(es.take(i as int)).dom()),
                forall|k: Seq<char>| #[trigger] result@.contains_key(k) ==>
                    result@[k]@ == outer.union_prefer_right(entries_map(es.take(i as int)))[k]@,
            decreases es.len() - i,
        {
            let ghost r0 = result@;
            let key = self.bindings.entries[i].0.clone();
            let val = self.bindings.entries[i].1.copy();
            result.insert(key, val);
            proof {
                let e = es[i as int];
                let t = es.take(i as int);
                assert(es.take(i + 1) =~= t.push(e));
                assert forall|j: int| 0 <= j < t.len() implies t[j].0@ != e.0@ by {
                    crate::text::lemma_seq_lt_irreflexive(e.0@);
                    assert(crate::text::seq_lt(es[j].0@, es[i as int].0@));
                }
                lemma_find_name_bounds(t, e.0@);
                assert(find_name(t, e.0@) is None);
                assert forall|k: Seq<char>| #[trigger] entries_map(t.push(e)).contains_key(k)
                    == entries_map(t).insert(e.0@, e.1).contains_key(k)
                    && (entries_map(t.push(e)).contains_key(k) ==> entries_map(t.push(e))[k]
                        == entries_map(t).insert(e.0@, e.1)[k]) by {
                    lemma_find_name_push(t, e, k);
                    lemma_find_name_bounds(t, k);
                    if k == e.0@ {
                        assert(find_name(t.push(e), k) == Some(t.len() as int));
                        assert(t.push(e)[t.len() as int] == e);
                    }
                }
                assert(entries_map(t.push(e)) =~= entries_map(t).insert(e.0@, e.1));
                assert(result@.dom() =~= outer.dom().union(entries_map(es.take(i + 1)).dom()));
            }
            i += 1;
        }
        proof {
            assert(es.take(i as int) =~= es);
            assert(result@.dom() =~= self.scope_bindings().dom());
        }
        result
    }

    /// Whether `y` occurs free in the type of some visible binding.
    pub open spec fn free_in_env(self, y: Seq<char>) -> bool {
        exists|k: Seq<char>| #[trigger] self.scope_bindings().contains_key(k)
            && occurs_in(y, self.scope_bindings()[k].body.mono@)
    }

    /// The variables of `t` to quantify over: those free in `t` and not
    /// free in the environment, in increasing name order.
    pub open spec fn generalizable(self, t: SType) -> Seq<Seq<char>> {
        choose|g: Seq<Seq<char>>| chars_strictly_sorted(g)
            && forall|y: Seq<char>| #[trigger] g.contains(y) <==> (occurs_in(y, t) && !self.free_in_env(y))
    }

    /// Quantifies `qt` over its free type variables that are not free in
    /// the environment: the `i`-th of them, in name order, becomes the
    /// generic index `i`.
    pub fn generalize(&self, qt: &QualType) -> (r: PolyType)
        ensures
            r@ == generalized(qt@, self.generalizable(qt.mono@)),
    {
        let all = self.all_bindings();
        let mut env_vars: Vec<String> = Vec::new();
        let mut i: usize = 0;
        while i < all.entries.len()
            invariant
                i <= all.entries@.len(),
                names_strictly_sorted(env_vars@),
                forall|y: Seq<char>| has_name(env_vars@, y) <==> exists|j: int|
                    0 <= j < i && #[trigger] occurs_in(y, all.entries@[j].1.body.mono@),
            decreases all.entries.len() - i,
        {
            let w = all.entries[i].1.body.mono.free_vars();
            union_names(&mut env_vars, &w);
            proof {
                assert forall|y: Seq<char>| has_name(env_vars@, y) <==> exists|j: int|
                    0 <= j < i + 1 && #[trigger] occurs_in(y, all.entries@[j].1.body.mono@) by {
                    if exists|j: int| 0 <= j < i + 1 && #[trigger] occurs_in(y, all.entries@[j].1.body.mono@) {
                        let j = choose|j: int| 0 <= j < i + 1 && #[trigger] occurs_in(y, all.entries@[j].1.body.mono@);
                        if j < i {
                            assert(exists|j: int| 0 <= j < i && #[trigger] occurs_in(y, all.entries@[j].1.body.mono@));
                        }
                    }
                }
            }
            i += 1;
        }
        proof {
            assert forall|y: Seq<char>| has_name(env_vars@, y) <==> self.free_in_env(y) by {
                let es = all.entries@;
                if has_name(env_vars@, y) {
                    let j = choose|j: int| 0 <= j < es.len() && #[trigger] occurs_in(y, es[j].1.body.mono@);
                    lemma_sorted_find(es, j);
                    assert(all@.contains_key(es[j].0@));
                    assert(self.scope_bindings().contains_key(es[j].0@));
                }
                if self.free_in_env(y) {
                    let k = choose|k: Seq<char>| #[trigger] self.scope_bindings().contains_key(k)
                        && occurs_in(y, self.scope_bindings()[k].body.mono@);
                    assert(all@.contains_key(k));
                    let j = find_name(es, k)->0;
                    lemma_find_name_bounds(es, k);
                    assert(occurs_in(y, es[j].1.body.mono@));
                }
            }
        }
        let free = qt.mono.free_vars();
        let mut gen_vars: Vec<String> = Vec::new();
        let mut i: usize = 0;
        while i < free.len()
            invariant
                i <= free@.len(),
                names_strictly_sorted(free@),
                forall|y: Seq<char>| has_name(env_vars@, y) <==> self.free_in_env(y),
                names_strictly_sorted(gen_vars@),
                gen_vars@.len() > 0 ==> exists|j: int| 0 <= j < i && gen_vars@.last()@ == #[trigger] free@[j]@,
                forall|y: Seq<char>| #[trigger] has_name(gen_vars@, y) <==> has_name(free@.take(i as int), y)
                    && !self.free_in_env(y),
            decreases free.len() - i,
        {
            let name = &free[i];
            let seen = contains_name(&env_vars, name.as_str());
            let ghost g0 = gen_vars@;
            let ghost f0 = free@.take(i as int);
            let ghost f1 = free@.take(i + 1);
            proof {
                assert(f1 =~= f0.push(free@[i as int]));
                assert forall|y: Seq<char>| has_name(f1, y) <==> (has_name(f0, y) || y == name@) by {
                    if has_name(f1, y) {
                        let a = choose|a: int| 0 <= a < f1.len() && #[trigger] f1[a]@ == y;
                        if a < f0.len() {
                            assert(f0[a]@ == y);
                        }
                    }
                    if has_name(f0, y) {
                        let a = choose|a: int| 0 <= a < f0.len() && #[trigger] f0[a]@ == y;
                        assert(f1[a]@ == y);
                    }
                    if y == name@ {
                        assert(f1[f0.len() as int]@ == y);
                    }
                }
            }
            if !seen {
                gen_vars.push(name.clone());
                proof {
                    assert forall|y: Seq<char>| has_name(gen_vars@, y) <==> (has_name(g0, y) || y == name@) by {
                        if has_name(gen_vars@, y) {
                            let a = choose|a: int| 0 <= a < gen_vars@.len() && #[trigger] gen_vars@[a]@ == y;
                            if a < g0.len() {
                                assert(g0[a]@ == y);
                            }
                        }
                        if has_name(g0, y) {
                            let a = choose|a: int| 0 <= a < g0.len() && #[trigger] g0[a]@ == y;
                            assert(gen_vars@[a]@ == y);
                        }
                        if y == name@ {
                            assert(gen_vars@[g0.len() as int]@ == y);
                        }
                    }
                    if g0.len() > 0 {
                        let j = choose|j: int| 0 <= j < i && g0.last()@ == #[trigger] free@[j]@;
                        assert(crate::text::seq_lt(free@[j]@, free@[i as int]@));
                    }
                    assert forall|a: int, b: int| 0 <= a < b < gen_vars@.len() implies
                        crate::text::seq_lt(#[trigger] gen_vars@[a]@, #[trigger] gen_vars@[b]@) by {
                        if b == gen_vars@.len() - 1 && a < b - 1 {
                            crate::text::lemma_seq_lt_transitive(g0[a]@, g0.last()@, name@);
                        }
                    }
                    assert(gen_vars@.last()@ == free@[i as int]@);
                }
            } else {
                proof {
                    assert(has_name(env_vars@, name@));
                    assert(self.free_in_env(name@));
                }
            }
            proof {
                assert forall|y: Seq<char>| #[trigger] has_name(gen_vars@, y) <==> has_name(f1, y) && !self.free_in_env(y) by {
                    assert(has_name(g0, y) <==> has_name(f0, y) && !self.free_in_env(y));
                }
            }
            i += 1;
        }
        let ghost g = string_views(gen_vars@);
        proof {
            assert(free@.take(i as int) =~= free@);
            lemma_strings_sorted(gen_vars@);
            assert forall|y: Seq<char>| #[trigger] g.contains(y) <==> (occurs_in(y, qt.mono@) && !self.free_in_env(y)) by {
                if g.contains(y) {
                    let a = choose|a: int| 0 <= a < g.len() && g[a] == y;
                    assert(gen_vars@[a]@ == y);
                    assert(has_name(gen_vars@, y));
                }
                if has_name(gen_vars@, y) {
                    let a = choose|a: int| 0 <= a < gen_vars@.len() && #[trigger] gen_vars@[a]@ == y;
                    assert(g[a] == y);
                }
            }
            lemma_generalizable_unique(*self, qt.mono@, g);
        }
        if gen_vars.len() == 0 {
            proof {
                lemma_generalized_none(qt@);
            }
            return PolyType { vars: 0, body: qt.copy() };
        }
        let mut subst = Substitution::new();
        let mut i: usize = 0;
        while i < gen_vars.len()
            invariant
                i <= gen_vars@.len(),
                g == string_views(gen_vars@),
                subst@.vars == gen_map(g.take(i as int)),
                subst@.gens == Map::<usize, SType>::empty(),
            decreases gen_vars.len() - i,
        {
            subst.bind(gen_vars[i].as_str(), MonoType::TGen(i));
            proof {
                assert(g.take(i + 1).drop_last() =~= g.take(i as int));
            }
            i += 1;
        }
        proof {
            assert(g.take(i as int) =~= g);
        }
        let mono = qt.mono.apply_subst(&subst);
        let constraints = subst_constraints(&qt.constraints, &subst);
        let r = PolyType { vars: gen_vars.len(), body: QualType { constraints, mono } };
        assert(r@.body.constraints =~= generalized(qt@, g).body.constraints);
        r
    }
}

/// Whether `y` is one of the names in `v`.
pub fn contains_name(v: &Vec<String>, y: &str) -> (r: bool)
    ensures
        r == has_name(v@, y@),
{
    let mut i: usize = 0;
    while i < v.len()
        invariant
            i <= v@.len(),
            forall|j: int| 0 <= j < i ==> v@[j]@ != y@,
        decreases v.len() - i,
    {
        if crate::text::str_eq(v[i].as_str(), y) {
            assert(v@[i as int]@ == y@);
            return true;
        }
        i += 1;
    }
    false
}

/// Strictly increasing texts.
pub open spec fn chars_strictly_sorted(g: Seq<Seq<char>>) -> bool {
    forall|i: int, j: int| 0 <= i < j < g.len() ==> crate::text::seq_lt(#[trigger] g[i], #[trigger] g[j])
}

/// The substitution taking the `i`-th name of `g` to the generic index `i`.
pub open spec fn gen_map(g: Seq<Seq<char>>) -> Map<Seq<char>, SType>
    decreases g.len(),
{
    if g.len() == 0 {
        Map::empty()
    } else {
        gen_map(g.drop_last()).insert(g.last(), SType::TGen((g.len() - 1) as usize))
    }
}

/// The scheme quantifying `qt` over the names `g`, the `i`-th becoming the
/// generic index `i`.
pub open spec fn generalized(qt: SQual, g: Seq<Seq<char>>) -> SPoly {
    SPoly {
        vars: g.len() as usize,
        body: SQual {
            constraints: Seq::new(
                qt.constraints.len(),
                |i: int| subst_constraint(qt.constraints[i], gen_map(g), Map::empty()),
            ),
            mono: apply(qt.mono, gen_map(g), Map::empty()),
        },
    }
}

proof fn lemma_strings_sorted(v: Seq<String>)
    requires
        names_strictly_sorted(v),
    ensures
        chars_strictly_sorted(string_views(v)),
{
    assert forall|i: int, j: int| 0 <= i < j < string_views(v).len() implies
        crate::text::seq_lt(#[trigger] string_views(v)[i], #[trigger] string_views(v)[j]) by {
        assert(crate::text::seq_lt(v[i]@, v[j]@));
    }
}

/// Two strictly increasing sequences of texts with the same members are
/// equal.
pub proof fn lemma_sorted_unique(a: Seq<Seq<char>>, b: Seq<Seq<char>>)
    requires
        chars_strictly_sorted(a),
        chars_strictly_sorted(b),
        forall|y: Seq<char>| #[trigger] a.contains(y) <==> b.contains(y),
    ensures
        a == b,
    decreases a.len() + b.len(),
{
    if a.len() == 0 {
        if b.len() > 0 {
            assert(b[0] == b[0]);
            assert(b.contains(b[0]));
            assert(a.contains(b[0]));
        }
        assert(a =~= b);
    } else if b.len() == 0 {
        assert(a[0] == a[0]);
        assert(a.contains(a[0]));
        assert(b.contains(a[0]));
    } else {
        assert(a[0] == a[0]);
        assert(b[0] == b[0]);
        assert(a.contains(a[0]));
        assert(b.contains(b[0]));
        assert(b.contains(a[0]));
        assert(a.contains(b[0]));
        let i = choose|i: int| 0 <= i < a.len() && a[i] == b[0];
        let j = choose|j: int| 0 <= j < b.len() && b[j] == a[0];
        if i > 0 && j > 0 {
            assert(crate::text::seq_lt(a[0], a[i]));
            assert(crate::text::seq_lt(b[0], b[j]));
            crate::text::lemma_seq_lt_asymmetric(a[0], b[0]);
        } else if i > 0 {
            assert(crate::text::seq_lt(a[0], a[i]));
            crate::text::lemma_seq_lt_irreflexive(a[0]);
        } else if j > 0 {
            assert(crate::text::seq_lt(b[0], b[j]));
            crate::text::lemma_seq_lt_irreflexive(b[0]);
        }
        assert(a[0] == b[0]);
        let a1 = a.drop_first();
        let b1 = b.drop_first();
        assert forall|y: Seq<char>| #[trigger] a1.contains(y) <==> b1.contains(y) by {
            if a1.contains(y) {
                let k = choose|k: int| 0 <= k < a1.len() && a1[k] == y;
                assert(a[k + 1] == y);
                assert(crate::text::seq_lt(a[0], y));
                assert(a.contains(y));
                assert(b.contains(y));
                let l = choose|l: int| 0 <= l < b.len() && b[l] == y;
                if l == 0 {
                    crate::text::lemma_seq_lt_irreflexive(y);
                }
                assert(b1[l - 1] == y);
            }
            if b1.contains(y) {
                let k = choose|k: int| 0 <= k < b1.len() && b1[k] == y;
                assert(b[k + 1] == y);
                assert(crate::text::seq_lt(b[0], y));
                assert(b.contains(y));
                assert(a.contains(y));
                let l = choose|l: int| 0 <= l < a.len() && a[l] == y;
                if l == 0 {
                    crate::text::lemma_seq_lt_irreflexive(y);
                }
                assert(a1[l - 1] == y);
            }
        }
        assert forall|p: int, q: int| 0 <= p < q < a1.len() implies crate::text::seq_lt(#[trigger] a1[p], #[trigger] a1[q]) by {
            assert(crate::text::seq_lt(a[p + 1], a[q + 1]));
        }
        assert forall|p: int, q: int| 0 <= p < q < b1.len() implies crate::text::seq_lt(#[trigger] b1[p], #[trigger] b1[q]) by {
            assert(crate::text::seq_lt(b[p + 1], b[q + 1]));
        }
        lemma_sorted_unique(a1, b1);
        assert forall|i: int| 0 <= i < a.len() implies a[i] == b[i] by {
            if i > 0 {
                assert(a[i] == a1[i - 1]);
                assert(b[i] == b1[i - 1]);
            }
        }
        assert(a =~= b);
    }
}

/// The generalizable variables of a type are the strictly increasing
/// sequence of the variables free in it and not free in the environment.
pub proof fn lemma_generalizable_unique(env: TypeEnv, t: SType, g: Seq<Seq<char>>)
    requires
        chars_strictly_sorted(g),
        forall|y: Seq<char>| #[trigger] g.contains(y) <==> (occurs_in(y, t) && !env.free_in_env(y)),
    ensures
        env.generalizable(t) == g,
{
    let c = env.generalizable(t);
    assert(chars_strictly_sorted(c) && forall|y: Seq<char>| #[trigger] c.contains(y) <==> (occurs_in(y, t) && !env.free_in_env(y)));
    lemma_sorted_unique(c, g);
}

/// Quantifying over no variables changes nothing.
proof fn lemma_generalized_none(qt: SQual)
    ensures
        generalized(qt, Seq::empty()) == (SPoly { vars: 0, body: qt }),
{
    let e: Seq<Seq<char>> = Seq::empty();
    assert(gen_map(e) == Map::<Seq<char>, SType>::empty());
    super::laws::lemma_apply_empty(qt.mono);
    assert forall|i: int| 0 <= i < qt.constraints.len() implies
        #[trigger] subst_constraint(qt.constraints[i], gen_map(e), Map::empty()) == qt.constraints[i] by {
        let c = qt.constraints[i];
        assert forall|j: int| 0 <= j < c.types.len() implies
            #[trigger] subst_constraint(c, gen_map(e), Map::empty()).types[j] == c.types[j] by {
            super::laws::lemma_apply_empty(c.types[j]);
        }
        assert(subst_constraint(c, gen_map(e), Map::empty()).types =~= c.types);
    }
    assert(generalized(qt, e).body.constraints =~= qt.constraints);
}

/// A scheme with no quantified variables and no constraints.
pub open spec fn mono_scheme(t: SType) -> SPoly {
    SPoly { vars: 0, body: SQual { constraints: Seq::empty(), mono: t } }
}

/// The function type `(ps) -> r`.
pub open spec fn fn_type(ps: Seq<SType>, r: SType) -> SType {
    SType::Func(ps, Box::new(r))
}

/// The schemes of the built-in operators.
pub open spec fn builtin_schemes() -> Map<Seq<char>, SPoly> {
    let int_binop = mono_scheme(fn_type(seq![SType::Int, SType::Int], SType::Int));
    let long_binop = mono_scheme(fn_type(seq![SType::Long, SType::Long], SType::Long));
    let double_binop = mono_scheme(fn_type(seq![SType::Double, SType::Double], SType::Double));
    let int_cmp = mono_scheme(fn_type(seq![SType::Int, SType::Int], SType::Bool));
    let bool_binop = mono_scheme(fn_type(seq![SType::Bool, SType::Bool], SType::Bool));
    let bool_unop = mono_scheme(fn_type(seq![SType::Bool], SType::Bool));
    let str_len = mono_scheme(fn_type(seq![SType::Str], SType::Long));
    Map::empty()
        .insert("+"@, int_binop).insert("-"@, int_binop).insert("*"@, int_binop)
        .insert("/"@, int_binop).insert("%"@, int_binop)
        .insert("+l"@, long_binop).insert("-l"@, long_binop).insert("*l"@, long_binop)
        .insert("/l"@, long_binop)
        .insert("+d"@, double_binop).insert("-d"@, double_binop).insert("*d"@, double_binop)
        .insert("/d"@, double_binop)
        .insert("=="@, int_cmp).insert("!="@, int_cmp).insert("<"@, int_cmp).insert(">"@, int_cmp)
        .insert("<="@, int_cmp).insert(">="@, int_cmp)
        .insert("&&"@, bool_binop).insert("||"@, bool_binop).insert("!"@, bool_unop)
        .insert("strlen"@, str_len)
}

/// A member type with no constraints.
pub open spec fn plain(t: SType) -> SQual {
    SQual { constraints: Seq::empty(), mono: t }
}

/// The class parameter `a`.
pub open spec fn param_a() -> SType {
    SType::TVar("a"@)
}

/// A class over the single parameter `a`.
pub open spec fn class_over_a(name: Seq<char>, supers: Seq<super::SConstraint>, members: Map<Seq<char>, SQual>) -> SClass {
    SClass { name, params: seq!["a"@], supers, members }
}

/// The built-in type classes, by name.
pub open spec fn builtin_classes() -> Map<Seq<char>, SClass> {
    let binary_a = plain(fn_type(seq![param_a(), param_a()], param_a()));
    Map::empty()
        .insert("Show"@, class_over_a("Show"@, seq![],
            Map::empty().insert("show"@, plain(fn_type(seq![param_a()], SType::Str)))))
        .insert("Eq"@, class_over_a("Eq"@, seq![],
            Map::empty().insert("eq"@, plain(fn_type(seq![param_a(), param_a()], SType::Bool)))))
        .insert("Ord"@, class_over_a("Ord"@,
            seq![super::SConstraint { name: "Eq"@, types: seq![param_a()] }],
            Map::empty().insert("compare"@, plain(fn_type(seq![param_a(), param_a()], SType::Int)))))
        .insert("Num"@, class_over_a("Num"@, seq![],
            Map::empty().insert("add"@, binary_a).insert("sub"@, binary_a).insert("mul"@, binary_a)))
}

/// The scheme `(ps) -> r` with nothing quantified.
fn fn_scheme(ps: Vec<MonoType>, r: MonoType) -> (p: PolyType)
    ensures
        p@ == mono_scheme(fn_type(views(ps@), r@)),
{
    let ghost pv = views(ps@);
    let ghost rv = r@;
    let p = PolyType::mono(MonoType::Func(ps, Box::new(r)));
    assert(p@.body.constraints =~= Seq::<super::SConstraint>::empty());
    assert(p@.body.mono->Func_0 =~= pv);
    p
}

/// The class parameter `a` as a type.
fn type_a() -> (t: MonoType)
    ensures
        t@ == param_a(),
{
    MonoType::TVar(crate::text::owned("a"))
}

/// `(a, a) -> r`.
fn binary_over_a(r: MonoType) -> (q: QualType)
    ensures
        q@ == plain(fn_type(seq![param_a(), param_a()], r@)),
{
    let q = QualType::unqualified(MonoType::Func(vec![type_a(), type_a()], Box::new(r)));
    assert(q@.constraints =~= Seq::<super::SConstraint>::empty());
    assert(q@.mono->Func_0 =~= seq![param_a(), param_a()]);
    q
}

/// `a -> r`.
fn unary_over_a(r: MonoType) -> (q: QualType)
    ensures
        q@ == plain(fn_type(seq![param_a()], r@)),
{
    let q = QualType::unqualified(MonoType::Func(vec![type_a()], Box::new(r)));
    assert(q@.constraints =~= Seq::<super::SConstraint>::empty());
    assert(q@.mono->Func_0 =~= seq![param_a()]);
    q
}

/// A class over the single parameter `a`, with the given super-classes and
/// members.
fn new_class_over_a(name: &str, supers: Vec<Constraint>, members: NameMap<QualType>) -> (c: TypeClass)
    ensures
        c@ == class_over_a(name@, constraint_views(supers@), members@.map_values(|q: QualType| q@)),
{
    let c = TypeClass { name: crate::text::owned(name), params: vec![crate::text::owned("a")], supers, members };
    assert(c@.params =~= seq!["a"@]);
    c
}

/// A member map with one entry.
fn one_member(name: &str, q: QualType) -> (m: NameMap<QualType>)
    ensures
        m@.map_values(|x: QualType| x@) == Map::<Seq<char>, SQual>::empty().insert(name@, q@),
{
    let ghost qv = q@;
    let mut m = NameMap::new();
    m.insert(crate::text::owned(name), q);
    proof {
        assert(m@ == Map::<Seq<char>, QualType>::empty().insert(name@, q));
        assert(m@.map_values(|x: QualType| x@) =~= Map::<Seq<char>, SQual>::empty().insert(name@, qv));
    }
    m
}

/// An environment holding the built-in operators and type classes.
pub fn default_type_env() -> (env: TypeEnv)
    ensures
        env.scope_bindings().dom() == builtin_schemes().dom(),
        forall|k: Seq<char>| #[trigger] env.scope_bindings().contains_key(k) ==> env.scope_bindings()[k]@ == builtin_schemes()[k],
        env.scope_classes().dom() == builtin_classes().dom(),
        forall|k: Seq<char>| #[trigger] env.scope_classes().contains_key(k) ==> env.scope_classes()[k]@ == builtin_classes()[k],
        env.scope_aliases() == Map::<Seq<char>, MonoType>::empty(),
        env.scope_instances() == Seq::<TypeClassInstance>::empty(),
        env.outer_bindings() == Map::<Seq<char>, PolyType>::empty(),
{
    let mut env = TypeEnv::new();

    let int_binop = fn_scheme(vec![MonoType::Int, MonoType::Int], MonoType::Int);
    let long_binop = fn_scheme(vec![MonoType::Long, MonoType::Long], MonoType::Long);
    let double_binop = fn_scheme(vec![MonoType::Double, MonoType::Double], MonoType::Double);
    let int_cmp = fn_scheme(vec![MonoType::Int, MonoType::Int], MonoType::Bool);
    let bool_binop = fn_scheme(vec![MonoType::Bool, MonoType::Bool], MonoType::Bool);
    let bool_unop = fn_scheme(vec![MonoType::Bool], MonoType::Bool);
    let str_len = fn_scheme(vec![MonoType::Str], MonoType::Long);
    proof {
        assert(int_binop@.body.mono->Func_0 =~= seq![SType::Int, SType::Int]);
        assert(long_binop@.body.mono->Func_0 =~= seq![SType::Long, SType::Long]);
        assert(double_binop@.body.mono->Func_0 =~= seq![SType::Double, SType::Double]);
        assert(int_cmp@.body.mono->Func_0 =~= seq![SType::Int, SType::Int]);
        assert(bool_binop@.body.mono->Func_0 =~= seq![SType::Bool, SType::Bool]);
        assert(bool_unop@.body.mono->Func_0 =~= seq![SType::Bool]);
        assert(str_len@.body.mono->Func_0 =~= seq![SType::Str]);
    }

    env.bind("+", int_binop.copy());
    env.bind("-", int_binop.copy());
    env.bind("*", int_binop.copy());
    env.bind("/", int_binop.copy());
    env.bind("%", int_binop);

    env.bind("+l", long_binop.copy());
    env.bind("-l", long_binop.copy());
    env.bind("*l", long_binop.copy());
    env.bind("/l", long_binop);

    env.bind("+d", double_binop.copy());
    env.bind("-d", double_binop.copy());
    env.bind("*d", double_binop.copy());
    env.bind("/d", double_binop);

    env.bind("==", int_cmp.copy());
    env.bind("!=", int_cmp.copy());
    env.bind("<", int_cmp.copy());
    env.bind(">", int_cmp.copy());
    env.bind("<=", int_cmp.copy());
    env.bind(">=", int_cmp);

    env.bind("&&", bool_binop.copy());
    env.bind("||", bool_binop);
    env.bind("!", bool_unop);

    env.bind("strlen", str_len);

    // Show: show :: a -> Str
    let show_member = unary_over_a(MonoType::Str);
    let no_supers: Vec<Constraint> = Vec::new();
    assert(constraint_views(no_supers@) =~= Seq::<super::SConstraint>::empty());
    let show_class = new_class_over_a("Show", no_supers, one_member("show", show_member));
    let ghost show_v = show_class@;
    assert(show_v == class_over_a("Show"@, seq![],
        Map::empty().insert("show"@, plain(fn_type(seq![param_a()], SType::Str)))));
    env.define_class(show_class);

    // Eq: eq :: (a, a) -> Bool
    let no_supers: Vec<Constraint> = Vec::new();
    assert(constraint_views(no_supers@) =~= Seq::<super::SConstraint>::empty());
    let eq_class = new_class_over_a("Eq", no_supers, one_member("eq", binary_over_a(MonoType::Bool)));
    let ghost eq_v = eq_class@;
    assert(eq_v == class_over_a("Eq"@, seq![],
        Map::empty().insert("eq"@, plain(fn_type(seq![param_a(), param_a()], SType::Bool)))));
    env.define_class(eq_class);

    // Ord, with super-class Eq: compare :: (a, a) -> Int
    let eq_a = Constraint { name: crate::text::owned("Eq"), types: vec![type_a()] };
    let supers = vec![eq_a];
    proof {
        assert(supers@[0]@.types =~= seq![param_a()]);
        assert(constraint_views(supers@) =~= seq![super::SConstraint { name: "Eq"@, types: seq![param_a()] }]);
    }
    let ord_class = new_class_over_a("Ord", supers, one_member("compare", binary_over_a(MonoType::Int)));
    let ghost ord_v = ord_class@;
    assert(ord_v == class_over_a("Ord"@,
        seq![super::SConstraint { name: "Eq"@, types: seq![param_a()] }],
        Map::empty().insert("compare"@, plain(fn_type(seq![param_a(), param_a()], SType::Int)))));
    env.define_class(ord_class);

    // Num: add, sub, mul :: (a, a) -> a
    let mut num_members = NameMap::new();
    let add_q = binary_over_a(type_a());
    let sub_q = binary_over_a(type_a());
    let mul_q = binary_over_a(type_a());
    let ghost (av, sv, mv) = (add_q, sub_q, mul_q);
    num_members.insert(crate::text::owned("add"), add_q);
    num_members.insert(crate::text::owned("sub"), sub_q);
    num_members.insert(crate::text::owned("mul"), mul_q);
    proof {
        assert(num_members@ == Map::<Seq<char>, QualType>::empty().insert("add"@, av).insert("sub"@, sv).insert("mul"@, mv));
        assert(num_members@.map_values(|x: QualType| x@) =~= Map::<Seq<char>, SQual>::empty()
            .insert("add"@, av@).insert("sub"@, sv@).insert("mul"@, mv@));
    }
    let no_supers: Vec<Constraint> = Vec::new();
    assert(constraint_views(no_supers@) =~= Seq::<super::SConstraint>::empty());
    let num_class = new_class_over_a("Num", no_supers, num_members);
    let ghost num_v = num_class@;
    let ghost binary_a = plain(fn_type(seq![param_a(), param_a()], param_a()));
    assert(num_v == class_over_a("Num"@, seq![],
        Map::empty().insert("add"@, binary_a).insert("sub"@, binary_a).insert("mul"@, binary_a)));
    env.define_class(num_class);

    proof {
        assert(env.scope_bindings().dom() =~= builtin_schemes().dom());
        assert(env.scope_classes().dom() =~= builtin_classes().dom());
    }
    env
}

impl Default for TypeEnv {
    fn default() -> (r: Self)
        ensures
            r.scope_bindings() == Map::<Seq<char>, PolyType>::empty(),
            r.scope_aliases() == Map::<Seq<char>, MonoType>::empty(),
            r.scope_classes() == Map::<Seq<char>, TypeClass>::empty(),
            r.scope_instances() == Seq::<TypeClassInstance>::empty(),
    {
        Self::new()
    }
}

/// After binding `name` to `ty` in a scope, looking `name` up gives `ty`,
/// and every other name is looked up as before.
pub proof fn law_lookup_after_bind(before: TypeEnv, after: TypeEnv, name: Seq<char>, ty: PolyType)
    requires
        after.scope_bindings() == before.scope_bindings().insert(name, ty),
    ensures
        after.scope_bindings().contains_key(name),
        after.scope_bindings()[name] == ty,
        forall|other: Seq<char>| other != name ==> {
            &&& after.scope_bindings().contains_key(other) == before.scope_bindings().contains_key(other)
            &&& before.scope_bindings().contains_key(other) ==> after.scope_bindings()[other]
                == before.scope_bindings()[other]
        },
{
}

/// A scope inside `parent` whose only binding of its own is `name` to
/// `ty` sees `ty` for `name` (shadowing `parent`) and, for every other
/// name, what `parent` sees.
pub proof fn law_child_shadows_and_inherits(parent: TypeEnv, child: TypeEnv, name: Seq<char>, ty: PolyType)
    requires
        child.outer_bindings() == parent.scope_bindings(),
        child.own_bindings() == Map::<Seq<char>, PolyType>::empty().insert(name, ty),
    ensures
        child.scope_bindings().contains_key(name),
        child.scope_bindings()[name] == ty,
        forall|other: Seq<char>| other != name ==> {
            &&& child.scope_bindings().contains_key(other) == parent.scope_bindings().contains_key(other)
            &&& parent.scope_bindings().contains_key(other) ==> child.scope_bindings()[other]
                == parent.scope_bindings()[other]
        },
{
    child.lemma_scopes();
}

/// Removing a binding from the scope it was made in, where the name had
/// no binding of its own before, gives back what the scope saw before.
pub proof fn law_unbind_undoes_bind(env: TypeEnv, name: Seq<char>, ty: PolyType)
    requires
        !env.own_bindings().contains_key(name),
    ensures
        env.outer_bindings().union_prefer_right(env.own_bindings().insert(name, ty).remove(name))
            == env.scope_bindings(),
{
    env.lemma_scopes();
    assert(env.own_bindings().insert(name, ty).remove(name) =~= env.own_bindings());
}

/// After registering `name` as an alias of `ty`, resolving `name` gives
/// `ty`, and every other alias resolves as before.
pub proof fn law_unalias_after_alias(before: TypeEnv, after: TypeEnv, name: Seq<char>, ty: MonoType)
    requires
        after.scope_aliases() == before.scope_aliases().insert(name, ty),
    ensures
        after.scope_aliases().contains_key(name),
        after.scope_aliases()[name] == ty,
        forall|other: Seq<char>| other != name ==> {
            &&& after.scope_aliases().contains_key(other) == before.scope_aliases().contains_key(other)
            &&& before.scope_aliases().contains_key(other) ==> after.scope_aliases()[other]
                == before.scope_aliases()[other]
        },
{
}

/// The names `all_bindings` lists are those of `bound_variables`, in the
/// same order, and each comes with the scheme `lookup` finds for it (the
/// innermost scope's binding over its parents').
pub proof fn law_all_bindings_in_bound_order(env: TypeEnv, m: NameMap<PolyType>, vars: Seq<String>)
    requires
        m.wf(),
        m@.dom() == env.scope_bindings().dom(),
        forall|k: Seq<char>| #[trigger] m@.contains_key(k) ==> m@[k]@ == env.scope_bindings()[k]@,
        names_strictly_sorted(vars),
        forall|y: Seq<char>| has_name(vars, y) <==> env.scope_bindings().contains_key(y),
    ensures
        entry_names(m.entries@) == string_views(vars),
        forall|i: int| 0 <= i < m.entries@.len() ==> env.scope_bindings().contains_key(
            (#[trigger] m.entries@[i]).0@,
        ) && m.entries@[i].1@ == env.scope_bindings()[m.entries@[i].0@]@,
{
    assert forall|i: int| 0 <= i < m.entries@.len() implies env.scope_bindings().contains_key(
        (#[trigger] m.entries@[i]).0@,
    ) && m.entries@[i].1@ == env.scope_bindings()[m.entries@[i].0@]@ by {
        crate::name_map::lemma_sorted_find(m.entries@, i);
    }
    let a = entry_names(m.entries@);
    let b = string_views(vars);
    let es = m.entries@;
    assert forall|i: int, j: int| 0 <= i < j < a.len() implies crate::text::seq_lt(#[trigger] a[i], #[trigger] a[j]) by {
        assert(crate::text::seq_lt(es[i].0@, es[j].0@));
    }
    assert forall|i: int, j: int| 0 <= i < j < b.len() implies crate::text::seq_lt(#[trigger] b[i], #[trigger] b[j]) by {
        assert(crate::text::seq_lt(vars[i]@, vars[j]@));
    }
    assert forall|y: Seq<char>| #[trigger] a.contains(y) <==> b.contains(y) by {
        lemma_find_name_bounds(es, y);
        if a.contains(y) {
            let i = choose|i: int| 0 <= i < a.len() && a[i] == y;
            assert(es[i].0@ == y);
            assert(m@.contains_key(y));
            assert(has_name(vars, y));
            let k = choose|k: int| 0 <= k < vars.len() && #[trigger] vars[k]@ == y;
            assert(b[k] == y);
        }
        if b.contains(y) {
            let k = choose|k: int| 0 <= k < b.len() && b[k] == y;
            assert(vars[k]@ == y);
            assert(has_name(vars, y));
            assert(m@.contains_key(y));
            let i = find_name(es, y)->0;
            assert(a[i] == y);
        }
    }
    lemma_sorted_unique(a, b);
}

} // verus!
