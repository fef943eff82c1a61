//! The abstract syntax of Calvin: literals, expressions with their source
//! spans, patterns, and module definitions.
//!
//! Floating-point literals keep the text they were written with (without
//! their `f` suffix); turning that text into a number is left to whoever
//! computes with it.

pub mod render;
pub mod copy;

use vstd::prelude::*;
use crate::name_map::NameMap;
use crate::types::{MonoType, Constraint, SConstraint, views, constraint_views};
use crate::types::model::SType;
use crate::text::owned;

verus! {

/// Source location information: a range of character positions.
#[derive(Debug, Clone, Copy, PartialEq, Eq)]
pub struct Span {
    pub start: usize,
    pub end: usize,
}

impl Span {
    /// The span from `start` to `end`.
    pub fn new(start: usize, end: usize) -> (r: Self)
        ensures
            r.start == start,
            r.end == end,
    {
        Span { start, end }
    }

    /// The empty span at the start of the input.
    pub fn dummy() -> (r: Self)
        ensures
            r.start == 0,
            r.end == 0,
    {
        Span { start: 0, end: 0 }
    }
}

/// A node carrying its source location.
#[derive(Debug)]
pub struct Spanned<T> {
    pub node: T,
    pub span: Span,
}

impl<T> Spanned<T> {
    /// `node` at `span`.
    pub fn new(node: T, span: Span) -> (r: Self)
        ensures
            r.node == node,
            r.span == span,
    {
        Spanned { node, span }
    }

    /// `node` at the empty span at the start of the input.
    pub fn dummy(node: T) -> (r: Self)
        ensures
            r.node == node,
            r.span.start == 0,
            r.span.end == 0,
    {
        Spanned { node, span: Span::dummy() }
    }
}

/// A literal value.
#[derive(Debug, Clone, PartialEq)]
pub enum Literal {
    Unit,
    Bool(bool),
    Char(char),
    Byte(u8),
    Short(i16),
    Int(i32),
    Long(i64),
    Int128(i128),
    /// A 32-bit floating-point literal, by its text (without the `f`).
    Float(String),
    /// A 64-bit floating-point literal, by its text.
    Double(String),
    String(String),
}

/// The model of a literal.
pub enum SLit {
    Unit,
    Bool(bool),
    Char(char),
    Byte(u8),
    Short(i16),
    Int(i32),
    Long(i64),
    Int128(i128),
    Float(Seq<char>),
    Double(Seq<char>),
    Str(Seq<char>),
}

impl View for Literal {
    type V = SLit;

    open spec fn view(&self) -> SLit {
        match self {
            Literal::Unit => SLit::Unit,
            Literal::Bool(b) => SLit::Bool(*b),
            Literal::Char(c) => SLit::Char(*c),
            Literal::Byte(b) => SLit::Byte(*b),
            Literal::Short(v) => SLit::Short(*v),
            Literal::Int(v) => SLit::Int(*v),
            Literal::Long(v) => SLit::Long(*v),
            Literal::Int128(v) => SLit::Int128(*v),
            Literal::Float(t) => SLit::Float(t@),
            Literal::Double(t) => SLit::Double(t@),
            Literal::String(s) => SLit::Str(s@),
        }
    }
}

/// The type of a literal.
pub open spec fn literal_type(l: SLit) -> SType {
    match l {
        SLit::Unit => SType::Unit,
        SLit::Bool(_) => SType::Bool,
        SLit::Char(_) => SType::Char,
        SLit::Byte(_) => SType::Byte,
        SLit::Short(_) => SType::Short,
        SLit::Int(_) => SType::Int,
        SLit::Long(_) => SType::Long,
        SLit::Int128(_) => SType::Int128,
        SLit::Float(_) => SType::Float,
        SLit::Double(_) => SType::Double,
        SLit::Str(_) => SType::Str,
    }
}

impl Literal {
    /// The type of this literal.
    pub fn ty(&self) -> (r: MonoType)
        ensures
            r@ == literal_type(self@),
    {
        match self {
            Literal::Unit => MonoType::Unit,
            Literal::Bool(_) => MonoType::Bool,
            Literal::Char(_) => MonoType::Char,
            Literal::Byte(_) => MonoType::Byte,
            Literal::Short(_) => MonoType::Short,
            Literal::Int(_) => MonoType::Int,
            Literal::Long(_) => MonoType::Long,
            Literal::Int128(_) => MonoType::Int128,
            Literal::Float(_) => MonoType::Float,
            Literal::Double(_) => MonoType::Double,
            Literal::String(_) => MonoType::Str,
        }
    }

    /// A copy with the same model.
    pub fn copy(&self) -> (r: Literal)
        ensures
            r@ == self@,
    {
        match self {
            Literal::Unit => Literal::Unit,
            Literal::Bool(b) => Literal::Bool(*b),
            Literal::Char(c) => Literal::Char(*c),
            Literal::Byte(b) => Literal::Byte(*b),
            Literal::Short(v) => Literal::Short(*v),
            Literal::Int(v) => Literal::Int(*v),
            Literal::Long(v) => Literal::Long(*v),
            Literal::Int128(v) => Literal::Int128(*v),
            Literal::Float(t) => Literal::Float(t.clone()),
            Literal::Double(t) => Literal::Double(t.clone()),
            Literal::String(s) => Literal::String(s.clone()),
        }
    }
}

/// An expression.
#[derive(Debug)]
pub enum Expr {
    /// A literal value.
    Lit(Literal),
    /// A variable reference.
    Var(String),
    /// `let x = e1 in e2`.
    Let(String, Box<Spanned<Expr>>, Box<Spanned<Expr>>),
    /// `letrec { x1 = e1, ... } in body`.
    LetRec(Vec<(String, Spanned<Expr>)>, Box<Spanned<Expr>>),
    /// Function application: `f(a1, a2, ...)`.
    App(Box<Spanned<Expr>>, Vec<Spanned<Expr>>),
    /// Lambda abstraction: `\x y -> body`.
    Lambda(Vec<String>, Box<Spanned<Expr>>),
    /// `if c then a else b`.
    If(Box<Spanned<Expr>>, Box<Spanned<Expr>>, Box<Spanned<Expr>>),
    /// `match e { p1 -> e1, ... }`.
    Match(Box<Spanned<Expr>>, Vec<MatchArm>),
    /// Record constructor: `{ x = e1, ... }`, fields by name.
    MkRecord(NameMap<Spanned<Expr>>),
    /// Record field projection: `e.field`.
    Project(Box<Spanned<Expr>>, String),
    /// Variant constructor: `|Ctor e|`.
    MkVariant(String, Box<Spanned<Expr>>),
    /// Array constructor: `[e1, e2, ...]`.
    MkArray(Vec<Spanned<Expr>>),
    /// Array comprehension: `[e | x <- xs, pred]`.
    Comprehension(Box<ComprehensionExpr>),
    /// Type annotation: `e :: T`.
    Annotate(Box<Spanned<Expr>>, MonoType),
    /// Binary operator application.
    BinOp(String, Box<Spanned<Expr>>, Box<Spanned<Expr>>),
    /// Unary operator application.
    UnaryOp(String, Box<Spanned<Expr>>),
    /// A do-block (sequence of expressions).
    Do(Vec<Spanned<Expr>>),
    /// Pack an existential type.
    Pack(Box<Spanned<Expr>>, MonoType),
    /// Unpack an existential type.
    Unpack(String, String, Box<Spanned<Expr>>, Box<Spanned<Expr>>),
}

/// A match arm: a pattern, an optional guard, and the arm's expression.
#[derive(Debug)]
pub struct MatchArm {
    pub pattern: Pattern,
    pub guard: Option<Spanned<Expr>>,
    pub body: Spanned<Expr>,
}

/// A pattern used in match expressions.
#[derive(Debug)]
pub enum Pattern {
    /// `_`.
    Wildcard,
    /// A variable binding pattern.
    Var(String),
    /// A literal pattern.
    Lit(Literal),
    /// `{ x = p1, ... }`, fields by name.
    Record(NameMap<Pattern>),
    /// `|Ctor p|`.
    Variant(String, Box<Pattern>),
    /// `[p1, p2, ...]`.
    Array(Vec<Pattern>),
    /// `(p1, p2, ...)`.
    Tuple(Vec<Pattern>),
    /// A constructor pattern with arguments.
    Constructor(String, Vec<Pattern>),
    /// A pattern with a guard.
    Guard(Box<Pattern>, Box<Spanned<Expr>>),
    /// `p @ name`.
    As(Box<Pattern>, String),
}

/// A comprehension expression.
#[derive(Debug)]
pub struct ComprehensionExpr {
    /// The body expression to evaluate for each element.
    pub body: Spanned<Expr>,
    /// The qualifiers (generators and filters).
    pub qualifiers: Vec<Qualifier>,
}

/// A qualifier in a comprehension.
#[derive(Debug)]
pub enum Qualifier {
    /// `x <- xs`.
    Generator(Pattern, Spanned<Expr>),
    /// A filter.
    Filter(Spanned<Expr>),
    /// A let binding.
    Let(String, Spanned<Expr>),
}

/// A top-level definition in a module.
#[derive(Debug, Clone)]
pub enum Definition {
    /// `let name = expr`.
    Value(String, Spanned<Expr>),
    /// `let name args = expr`.
    Function(String, Vec<String>, Spanned<Expr>),
    /// `type Name = Type`.
    TypeAlias(String, MonoType),
    /// A type class definition.
    Class { name: String, params: Vec<String>, supers: Vec<Constraint>, members: Vec<(String, MonoType)> },
    /// A type class instance.
    Instance {
        class_name: String,
        types: Vec<MonoType>,
        constraints: Vec<Constraint>,
        members: Vec<(String, Spanned<Expr>)>,
    },
    /// A data type definition.
    Data { name: String, params: Vec<String>, constructors: Vec<(String, Vec<MonoType>)> },
    /// `import path`.
    Import(String),
}

/// The model of a definition.
pub enum SDef {
    Value(Seq<char>, SNode),
    Function(Seq<char>, Seq<Seq<char>>, SNode),
    TypeAlias(Seq<char>, SType),
    Class { name: Seq<char>, params: Seq<Seq<char>>, supers: Seq<SConstraint>, members: Seq<(Seq<char>, SType)> },
    Instance {
        class_name: Seq<char>,
        types: Seq<SType>,
        constraints: Seq<SConstraint>,
        members: Seq<(Seq<char>, SNode)>,
    },
    Data { name: Seq<char>, params: Seq<Seq<char>>, constructors: Seq<(Seq<char>, Seq<SType>)> },
    Import(Seq<char>),
}

impl View for Definition {
    type V = SDef;

    open spec fn view(&self) -> SDef {
        match self {
            Definition::Value(n, e) => SDef::Value(n@, e@),
            Definition::Function(n, ps, e) => SDef::Function(n@, names_of(ps@), e@),
            Definition::TypeAlias(n, t) => SDef::TypeAlias(n@, t@),
            Definition::Class { name, params, supers, members } => SDef::Class {
                name: name@,
                params: names_of(params@),
                supers: constraint_views(supers@),
                members: Seq::new(members@.len(), |i: int| (members@[i].0@, members@[i].1@)),
            },
            Definition::Instance { class_name, types, constraints, members } => SDef::Instance {
                class_name: class_name@,
                types: views(types@),
                constraints: constraint_views(constraints@),
                members: Seq::new(members@.len(), |i: int| (members@[i].0@, members@[i].1@)),
            },
            Definition::Data { name, params, constructors } => SDef::Data {
                name: name@,
                params: names_of(params@),
                constructors: Seq::new(constructors@.len(), |i: int| (constructors@[i].0@, views(constructors@[i].1@))),
            },
            Definition::Import(path) => SDef::Import(path@),
        }
    }
}

/// The models of a list of definitions.
pub open spec fn def_models(v: Seq<Definition>) -> Seq<SDef> {
    Seq::new(v.len(), |i: int| v[i]@)
}

/// A module: a name and its definitions, in order.
#[derive(Debug, Clone)]
pub struct Module {
    pub name: String,
    pub definitions: Vec<Definition>,
}

impl Module {
    /// An empty module named `name`.
    pub fn new(name: &str) -> (r: Self)
        ensures
            r.name@ == name@,
            r.definitions@ == Seq::<Definition>::empty(),
    {
        Module { name: owned(name), definitions: Vec::new() }
    }

    /// Appends a definition.
    pub fn add_definition(&mut self, def: Definition)
        ensures
            final(self).name == old(self).name,
            final(self).definitions@ == old(self).definitions@.push(def),
    {
        self.definitions.push(def);
    }
}

/// The model of an expression together with its span.
pub struct SNode {
    pub expr: SExpr,
    pub start: int,
    pub end: int,
}

/// The model of an expression.
pub enum SExpr {
    Lit(SLit),
    Var(Seq<char>),
    Let(Seq<char>, Box<SNode>, Box<SNode>),
    LetRec(Seq<(Seq<char>, SNode)>, Box<SNode>),
    App(Box<SNode>, Seq<SNode>),
    Lambda(Seq<Seq<char>>, Box<SNode>),
    If(Box<SNode>, Box<SNode>, Box<SNode>),
    Match(Box<SNode>, Seq<SArm>),
    MkRecord(Seq<(Seq<char>, SNode)>),
    Project(Box<SNode>, Seq<char>),
    MkVariant(Seq<char>, Box<SNode>),
    MkArray(Seq<SNode>),
    Comprehension(Box<SNode>, Seq<SQualifier>),
    Annotate(Box<SNode>, SType),
    BinOp(Seq<char>, Box<SNode>, Box<SNode>),
    UnaryOp(Seq<char>, Box<SNode>),
    Do(Seq<SNode>),
    Pack(Box<SNode>, SType),
    Unpack(Seq<char>, Seq<char>, Box<SNode>, Box<SNode>),
}

/// The model of a match arm.
pub struct SArm {
    pub pattern: SPattern,
    pub guard: Option<SNode>,
    pub body: SNode,
}

/// The model of a pattern.
pub enum SPattern {
    Wildcard,
    Var(Seq<char>),
    Lit(SLit),
    Record(Seq<(Seq<char>, SPattern)>),
    Variant(Seq<char>, Box<SPattern>),
    Array(Seq<SPattern>),
    Tuple(Seq<SPattern>),
    Constructor(Seq<char>, Seq<SPattern>),
    Guard(Box<SPattern>, Box<SNode>),
    As(Box<SPattern>, Seq<char>),
}

/// The model of a comprehension qualifier.
pub enum SQualifier {
    Generator(SPattern, SNode),
    Filter(SNode),
    Let(Seq<char>, SNode),
}

/// The text of each name in a list.
pub open spec fn names_of(s: Seq<String>) -> Seq<Seq<char>> {
    Seq::new(s.len(), |i: int| s[i]@)
}

impl Expr {
    /// The model of this expression.
    pub open spec fn model(&self) -> SExpr
        decreases self, 0nat,
    {
        match self {
            Expr::Lit(l) => SExpr::Lit(l@),
            Expr::Var(n) => SExpr::Var(n@),
            Expr::Let(n, v, b) => SExpr::Let(n@, Box::new(v.node.node_model(v.span)), Box::new(b.node.node_model(b.span))),
            Expr::LetRec(bs, b) => SExpr::LetRec(
                Seq::new(bs@.len(), |i: int| if 0 <= i < bs@.len() {
                    proof { assert(decreases_to!(bs => bs@)); }
                    (bs@[i].0@, bs@[i].1.node.node_model(bs@[i].1.span))
                } else {
                    (Seq::empty(), SNode { expr: SExpr::Var(Seq::empty()), start: 0, end: 0 })
                }),
                Box::new(b.node.node_model(b.span)),
            ),
            Expr::App(f, args) => SExpr::App(
                Box::new(f.node.node_model(f.span)),
                Seq::new(args@.len(), |i: int| if 0 <= i < args@.len() {
                    proof { assert(decreases_to!(args => args@)); }
                    args@[i].node.node_model(args@[i].span)
                } else {
                    SNode { expr: SExpr::Var(Seq::empty()), start: 0, end: 0 }
                }),
            ),
            Expr::Lambda(ps, b) => SExpr::Lambda(names_of(ps@), Box::new(b.node.node_model(b.span))),
            Expr::If(c, t, e) => SExpr::If(
                Box::new(c.node.node_model(c.span)),
                Box::new(t.node.node_model(t.span)),
                Box::new(e.node.node_model(e.span)),
            ),
            Expr::Match(s, arms) => SExpr::Match(
                Box::new(s.node.node_model(s.span)),
                Seq::new(arms@.len(), |i: int| if 0 <= i < arms@.len() {
                    proof { assert(decreases_to!(arms => arms@)); }
                    arms@[i].arm_model()
                } else {
                    SArm { pattern: SPattern::Wildcard, guard: None, body: SNode { expr: SExpr::Var(Seq::empty()), start: 0, end: 0 } }
                }),
            ),
            Expr::MkRecord(m) => SExpr::MkRecord(
                Seq::new(m.entries@.len(), |i: int| if 0 <= i < m.entries@.len() {
                    proof { assert(decreases_to!(m.entries => m.entries@)); }
                    (m.entries@[i].0@, m.entries@[i].1.node.node_model(m.entries@[i].1.span))
                } else {
                    (Seq::empty(), SNode { expr: SExpr::Var(Seq::empty()), start: 0, end: 0 })
                }),
            ),
            Expr::Project(e, f) => SExpr::Project(Box::new(e.node.node_model(e.span)), f@),
            Expr::MkVariant(c, e) => SExpr::MkVariant(c@, Box::new(e.node.node_model(e.span))),
            Expr::MkArray(es) => SExpr::MkArray(
                Seq::new(es@.len(), |i: int| if 0 <= i < es@.len() {
                    proof { assert(decreases_to!(es => es@)); }
                    es@[i].node.node_model(es@[i].span)
                } else {
                    SNode { expr: SExpr::Var(Seq::empty()), start: 0, end: 0 }
                }),
            ),
            Expr::Comprehension(c) => SExpr::Comprehension(
                Box::new(c.body.node.node_model(c.body.span)),
                Seq::new(c.qualifiers@.len(), |i: int| if 0 <= i < c.qualifiers@.len() {
                    proof { assert(decreases_to!(c.qualifiers => c.qualifiers@)); }
                    c.qualifiers@[i].qualifier_model()
                } else {
                    SQualifier::Filter(SNode { expr: SExpr::Var(Seq::empty()), start: 0, end: 0 })
                }),
            ),
            Expr::Annotate(e, t) => SExpr::Annotate(Box::new(e.node.node_model(e.span)), t@),
            Expr::BinOp(op, l, r) => SExpr::BinOp(op@, Box::new(l.node.node_model(l.span)), Box::new(r.node.node_model(r.span))),
            Expr::UnaryOp(op, e) => SExpr::UnaryOp(op@, Box::new(e.node.node_model(e.span))),
            Expr::Do(es) => SExpr::Do(
                Seq::new(es@.len(), |i: int| if 0 <= i < es@.len() {
                    proof { assert(decreases_to!(es => es@)); }
                    es@[i].node.node_model(es@[i].span)
                } else {
                    SNode { expr: SExpr::Var(Seq::empty()), start: 0, end: 0 }
                }),
            ),
            Expr::Pack(e, t) => SExpr::Pack(Box::new(e.node.node_model(e.span)), t@),
            Expr::Unpack(a, b, p, e) => SExpr::Unpack(a@, b@, Box::new(p.node.node_model(p.span)), Box::new(e.node.node_model(e.span))),
        }
    }

    /// The model of this expression at `span`.
    pub open spec fn node_model(&self, span: Span) -> SNode
        decreases self, 1nat,
    {
        SNode { expr: self.model(), start: span.start as int, end: span.end as int }
    }
}

impl MatchArm {
    /// The model of this arm.
    pub open spec fn arm_model(&self) -> SArm
        decreases self,
    {
        SArm {
            pattern: self.pattern.model(),
            guard: match self.guard {
                Some(g) => Some(g.node.node_model(g.span)),
                None => None,
            },
            body: self.body.node.node_model(self.body.span),
        }
    }
}

impl Qualifier {
    /// The model of this qualifier.
    pub open spec fn qualifier_model(&self) -> SQualifier
        decreases self,
    {
        match self {
            Qualifier::Generator(p, e) => SQualifier::Generator(p.model(), e.node.node_model(e.span)),
            Qualifier::Filter(e) => SQualifier::Filter(e.node.node_model(e.span)),
            Qualifier::Let(n, e) => SQualifier::Let(n@, e.node.node_model(e.span)),
        }
    }
}

impl Pattern {
    /// The model of this pattern.
    pub open spec fn model(&self) -> SPattern
        decreases self,
    {
        match self {
            Pattern::Wildcard => SPattern::Wildcard,
            Pattern::Var(n) => SPattern::Var(n@),
            Pattern::Lit(l) => SPattern::Lit(l@),
            Pattern::Record(m) => SPattern::Record(
                Seq::new(m.entries@.len(), |i: int| if 0 <= i < m.entries@.len() {
                    proof { assert(decreases_to!(m.entries => m.entries@)); }
                    (m.entries@[i].0@, m.entries@[i].1.model())
                } else {
                    (Seq::empty(), SPattern::Wildcard)
                }),
            ),
            Pattern::Variant(c, p) => SPattern::Variant(c@, Box::new(p.model())),
            Pattern::Array(ps) => SPattern::Array(
                Seq::new(ps@.len(), |i: int| if 0 <= i < ps@.len() {
                    proof { assert(decreases_to!(ps => ps@)); }
                    ps@[i].model()
                } else {
                    SPattern::Wildcard
                }),
            ),
            Pattern::Tuple(ps) => SPattern::Tuple(
                Seq::new(ps@.len(), |i: int| if 0 <= i < ps@.len() {
                    proof { assert(decreases_to!(ps => ps@)); }
                    ps@[i].model()
                } else {
                    SPattern::Wildcard
                }),
            ),
            Pattern::Constructor(c, ps) => SPattern::Constructor(
                c@,
                Seq::new(ps@.len(), |i: int| if 0 <= i < ps@.len() {
                    proof { assert(decreases_to!(ps => ps@)); }
                    ps@[i].model()
                } else {
                    SPattern::Wildcard
                }),
            ),
            Pattern::Guard(p, e) => SPattern::Guard(Box::new(p.model()), Box::new(e.node.node_model(e.span))),
            Pattern::As(p, n) => SPattern::As(Box::new(p.model()), n@),
        }
    }
}

impl View for Spanned<Expr> {
    type V = SNode;

    open spec fn view(&self) -> SNode {
        self.node.node_model(self.span)
    }
}

impl View for Pattern {
    type V = SPattern;

    open spec fn view(&self) -> SPattern {
        self.model()
    }
}

} // verus!
