//! Copies of syntax trees, with the same models.

use vstd::prelude::*;
use super::{Expr, Spanned, MatchArm, Pattern, ComprehensionExpr, Qualifier, SNode, SArm, SPattern,
    SQualifier, names_of};
use super::render::{node_models, named_models, lemma_expr_views};
use crate::name_map::NameMap;

verus! {

/// The models of match arms.
pub open spec fn arms_model(v: Seq<MatchArm>) -> Seq<SArm> {
    Seq::new(v.len(), |i: int| v[i].arm_model())
}

/// The models of patterns.
pub open spec fn patterns_model(v: Seq<Pattern>) -> Seq<SPattern> {
    Seq::new(v.len(), |i: int| v[i].model())
}

/// The models of named patterns.
pub open spec fn named_patterns_model(v: Seq<(String, Pattern)>) -> Seq<(Seq<char>, SPattern)> {
    Seq::new(v.len(), |i: int| (v[i].0@, v[i].1.model()))
}

/// The models of qualifiers.
pub open spec fn qualifiers_model(v: Seq<Qualifier>) -> Seq<SQualifier> {
    Seq::new(v.len(), |i: int| v[i].qualifier_model())
}

proof fn lemma_other_views(e: Expr)
    ensures
        e matches Expr::Match(x, arms) ==> e.model() == super::SExpr::Match(Box::new(x@), arms_model(arms@)),
        e matches Expr::Comprehension(c) ==> e.model() == super::SExpr::Comprehension(
            Box::new(c.body@),
            qualifiers_model(c.qualifiers@),
        ),
{
    match e {
        Expr::Match(x, arms) => {
            assert(e.model()->Match_1 =~= arms_model(arms@));
        }
        Expr::Comprehension(c) => {
            assert(e.model()->Comprehension_1 =~= qualifiers_model(c.qualifiers@));
        }
        _ => {}
    }
}

proof fn lemma_pattern_views(p: Pattern)
    ensures
        p matches Pattern::Record(m) ==> p.model() == SPattern::Record(named_patterns_model(m.entries@)),
        p matches Pattern::Array(ps) ==> p.model() == SPattern::Array(patterns_model(ps@)),
        p matches Pattern::Tuple(ps) ==> p.model() == SPattern::Tuple(patterns_model(ps@)),
        p matches Pattern::Constructor(c, ps) ==> p.model() == SPattern::Constructor(c@, patterns_model(ps@)),
{
    match p {
        Pattern::Record(m) => {
            assert(p.model()->Record_0 =~= named_patterns_model(m.entries@));
        }
        Pattern::Array(ps) => {
            assert(p.model()->Array_0 =~= patterns_model(ps@));
        }
        Pattern::Tuple(ps) => {
            assert(p.model()->Tuple_0 =~= patterns_model(ps@));
        }
        Pattern::Constructor(c, ps) => {
            assert(p.model()->Constructor_1 =~= patterns_model(ps@));
        }
        _ => {}
    }
}

/// Copies of names.
pub fn copy_names(v: &Vec<String>) -> (r: Vec<String>)
    ensures
        names_of(r@) == names_of(v@),
{
    let mut r: Vec<String> = Vec::new();
    let mut i: usize = 0;
    while i < v.len()
        invariant
            i <= v@.len(),
            r@.len() == i,
            forall|j: int| 0 <= j < i ==> #[trigger] r@[j]@ == v@[j]@,
        decreases v.len() - i,
    {
        r.push(v[i].clone());
        i += 1;
    }
    assert(names_of(r@) =~= names_of(v@));
    r
}

/// A copy of an expression and its span.
pub fn copy_node(n: &Spanned<Expr>) -> (r: Spanned<Expr>)
    ensures
        r@ == n@,
    decreases n,
{
    Spanned { node: n.node.copy(), span: n.span }
}

/// Copies of expressions and their spans.
fn copy_nodes(v: &Vec<Spanned<Expr>>) -> (r: Vec<Spanned<Expr>>)
    ensures
        node_models(r@) == node_models(v@),
    decreases v,
{
    let mut r: Vec<Spanned<Expr>> = Vec::new();
    let mut i: usize = 0;
    while i < v.len()
        invariant
            i <= v@.len(),
            r@.len() == i,
            forall|j: int| 0 <= j < i ==> #[trigger] r@[j]@ == v@[j]@,
        decreases v.len() - i,
    {
        proof {
            assert(decreases_to!(v => v@));
        }
        r.push(copy_node(&v[i]));
        i += 1;
    }
    assert(node_models(r@) =~= node_models(v@));
    r
}

/// Copies of named expressions.
fn copy_named(v: &Vec<(String, Spanned<Expr>)>) -> (r: Vec<(String, Spanned<Expr>)>)
    ensures
        named_models(r@) == named_models(v@),
    decreases v,
{
    let mut r: Vec<(String, Spanned<Expr>)> = Vec::new();
    let mut i: usize = 0;
    while i < v.len()
        invariant
            i <= v@.len(),
            r@.len() == i,
            forall|j: int| 0 <= j < i ==> #[trigger] r@[j].0@ == v@[j].0@ && r@[j].1@ == v@[j].1@,
        decreases v.len() - i,
    {
        proof {
            assert(decreases_to!(v => v@));
        }
        let n = v[i].0.clone();
        let e = copy_node(&v[i].1);
        r.push((n, e));
        i += 1;
    }
    assert(named_models(r@) =~= named_models(v@));
    r
}

/// Copies of match arms.
fn copy_arms(v: &Vec<MatchArm>) -> (r: Vec<MatchArm>)
    ensures
        arms_model(r@) == arms_model(v@),
    decreases v,
{
    let mut r: Vec<MatchArm> = Vec::new();
    let mut i: usize = 0;
    while i < v.len()
        invariant
            i <= v@.len(),
            r@.len() == i,
            forall|j: int| 0 <= j < i ==> #[trigger] r@[j].arm_model() == v@[j].arm_model(),
        decreases v.len() - i,
    {
        proof {
            assert(decreases_to!(v => v@));
        }
        r.push(v[i].copy());
        i += 1;
    }
    assert(arms_model(r@) =~= arms_model(v@));
    r
}

/// Copies of patterns.
fn copy_patterns(v: &Vec<Pattern>) -> (r: Vec<Pattern>)
    ensures
        patterns_model(r@) == patterns_model(v@),
    decreases v,
{
    let mut r: Vec<Pattern> = Vec::new();
    let mut i: usize = 0;
    while i < v.len()
        invariant
            i <= v@.len(),
            r@.len() == i,
            forall|j: int| 0 <= j < i ==> #[trigger] r@[j].model() == v@[j].model(),
        decreases v.len() - i,
    {
        proof {
            assert(decreases_to!(v => v@));
        }
        r.push(v[i].copy());
        i += 1;
    }
    assert(patterns_model(r@) =~= patterns_model(v@));
    r
}

/// Copies of named patterns.
fn copy_named_patterns(v: &Vec<(String, Pattern)>) -> (r: Vec<(String, Pattern)>)
    ensures
        named_patterns_model(r@) == named_patterns_model(v@),
    decreases v,
{
    let mut r: Vec<(String, Pattern)> = Vec::new();
    let mut i: usize = 0;
    while i < v.len()
        invariant
            i <= v@.len(),
            r@.len() == i,
            forall|j: int| 0 <= j < i ==> #[trigger] r@[j].0@ == v@[j].0@ && r@[j].1.model() == v@[j].1.model(),
        decreases v.len() - i,
    {
        proof {
            assert(decreases_to!(v => v@));
        }
        let n = v[i].0.clone();
        let p = v[i].1.copy();
        r.push((n, p));
        i += 1;
    }
    assert(named_patterns_model(r@) =~= named_patterns_model(v@));
    r
}

/// Copies of qualifiers.
fn copy_qualifiers(v: &Vec<Qualifier>) -> (r: Vec<Qualifier>)
    ensures
        qualifiers_model(r@) == qualifiers_model(v@),
    decreases v,
{
    let mut r: Vec<Qualifier> = Vec::new();
    let mut i: usize = 0;
    while i < v.len()
        invariant
            i <= v@.len(),
            r@.len() == i,
            forall|j: int| 0 <= j < i ==> #[trigger] r@[j].qualifier_model() == v@[j].qualifier_model(),
        decreases v.len() - i,
    {
        proof {
            assert(decreases_to!(v => v@));
        }
        r.push(v[i].copy());
        i += 1;
    }
    assert(qualifiers_model(r@) =~= qualifiers_model(v@));
    r
}

impl Expr {
    /// A copy with the same model.
    #[verifier::spinoff_prover]
    #[verifier::rlimit(50)]
    pub fn copy(&self) -> (r: Expr)
        ensures
            r.model() == self.model(),
        decreases self,
    {
        let r = match self {
            Expr::Lit(l) => Expr::Lit(l.copy()),
            Expr::Var(n) => Expr::Var(n.clone()),
            Expr::Let(n, v, b) => Expr::Let(n.clone(), Box::new(copy_node(v)), Box::new(copy_node(b))),
            Expr::LetRec(bs, b) => Expr::LetRec(copy_named(bs), Box::new(copy_node(b))),
            Expr::App(f, args) => Expr::App(Box::new(copy_node(f)), copy_nodes(args)),
            Expr::Lambda(ps, b) => Expr::Lambda(copy_names(ps), Box::new(copy_node(b))),
            Expr::If(c, t, e) => Expr::If(Box::new(copy_node(c)), Box::new(copy_node(t)), Box::new(copy_node(e))),
            Expr::Match(x, arms) => Expr::Match(Box::new(copy_node(x)), copy_arms(arms)),
            Expr::MkRecord(m) => Expr::MkRecord(NameMap { entries: copy_named(&m.entries) }),
            Expr::Project(e, f) => Expr::Project(Box::new(copy_node(e)), f.clone()),
            Expr::MkVariant(c, e) => Expr::MkVariant(c.clone(), Box::new(copy_node(e))),
            Expr::MkArray(es) => Expr::MkArray(copy_nodes(es)),
            Expr::Comprehension(c) => Expr::Comprehension(Box::new(c.copy())),
            Expr::Annotate(e, t) => Expr::Annotate(Box::new(copy_node(e)), t.copy()),
            Expr::BinOp(op, l, r) => Expr::BinOp(op.clone(), Box::new(copy_node(l)), Box::new(copy_node(r))),
            Expr::UnaryOp(op, e) => Expr::UnaryOp(op.clone(), Box::new(copy_node(e))),
            Expr::Do(es) => Expr::Do(copy_nodes(es)),
            Expr::Pack(e, t) => Expr::Pack(Box::new(copy_node(e)), t.copy()),
            Expr::Unpack(a, b, p, e) => Expr::Unpack(a.clone(), b.clone(), Box::new(copy_node(p)), Box::new(copy_node(e))),
        };
        proof {
            lemma_expr_views(*self);
            lemma_expr_views(r);
            lemma_other_views(*self);
            lemma_other_views(r);
        }
        r
    }
}

impl MatchArm {
    /// A copy with the same model.
    pub fn copy(&self) -> (r: MatchArm)
        ensures
            r.arm_model() == self.arm_model(),
        decreases self,
    {
        let guard = match &self.guard {
            Some(g) => Some(copy_node(g)),
            None => None,
        };
        MatchArm { pattern: self.pattern.copy(), guard, body: copy_node(&self.body) }
    }
}

impl Pattern {
    /// A copy with the same model.
    pub fn copy(&self) -> (r: Pattern)
        ensures
            r.model() == self.model(),
        decreases self,
    {
        let r = match self {
            Pattern::Wildcard => Pattern::Wildcard,
            Pattern::Var(n) => Pattern::Var(n.clone()),
            Pattern::Lit(l) => Pattern::Lit(l.copy()),
            Pattern::Record(m) => Pattern::Record(NameMap { entries: copy_named_patterns(&m.entries) }),
            Pattern::Variant(c, p) => Pattern::Variant(c.clone(), Box::new(p.copy())),
            Pattern::Array(ps) => Pattern::Array(copy_patterns(ps)),
            Pattern::Tuple(ps) => Pattern::Tuple(copy_patterns(ps)),
            Pattern::Constructor(c, ps) => Pattern::Constructor(c.clone(), copy_patterns(ps)),
            Pattern::Guard(p, e) => Pattern::Guard(Box::new(p.copy()), Box::new(copy_node(e))),
            Pattern::As(p, n) => Pattern::As(Box::new(p.copy()), n.clone()),
        };
        proof {
            lemma_pattern_views(*self);
            lemma_pattern_views(r);
        }
        r
    }
}

impl Qualifier {
    /// A copy with the same model.
    pub fn copy(&self) -> (r: Qualifier)
        ensures
            r.qualifier_model() == self.qualifier_model(),
        decreases self,
    {
        match self {
            Qualifier::Generator(p, e) => Qualifier::Generator(p.copy(), copy_node(e)),
            Qualifier::Filter(e) => Qualifier::Filter(copy_node(e)),
            Qualifier::Let(n, e) => Qualifier::Let(n.clone(), copy_node(e)),
        }
    }
}

impl ComprehensionExpr {
    /// A copy with the same body and qualifiers.
    pub fn copy(&self) -> (r: ComprehensionExpr)
        ensures
            r.body@ == self.body@,
            qualifiers_model(r.qualifiers@) == qualifiers_model(self.qualifiers@),
        decreases self,
    {
        ComprehensionExpr { body: copy_node(&self.body), qualifiers: copy_qualifiers(&self.qualifiers) }
    }
}

impl Clone for Expr {
    fn clone(&self) -> (r: Self)
        ensures
            r.model() == self.model(),
    {
        self.copy()
    }
}

impl Clone for Spanned<Expr> {
    fn clone(&self) -> (r: Self)
        ensures
            r@ == self@,
    {
        copy_node(self)
    }
}

impl Clone for MatchArm {
    fn clone(&self) -> (r: Self)
        ensures
            r.arm_model() == self.arm_model(),
    {
        self.copy()
    }
}

impl Clone for Pattern {
    fn clone(&self) -> (r: Self)
        ensures
            r.model() == self.model(),
    {
        self.copy()
    }
}

impl Clone for Qualifier {
    fn clone(&self) -> (r: Self)
        ensures
            r.qualifier_model() == self.qualifier_model(),
    {
        self.copy()
    }
}

impl Clone for ComprehensionExpr {
    fn clone(&self) -> (r: Self)
        ensures
            r.body@ == self.body@,
            qualifiers_model(r.qualifiers@) == qualifiers_model(self.qualifiers@),
    {
        self.copy()
    }
}

} // verus!
