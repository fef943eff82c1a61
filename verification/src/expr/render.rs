//! The textual form of literals and expressions, as the interpreter prints
//! them.

use vstd::prelude::*;
use super::{Literal, Expr, Spanned, SLit, SExpr, SNode, names_of};
use crate::name_map::NameMap;
use crate::text::{push_str, push_char, push_decimal, push_signed_decimal, push_signed_decimal_i128,
    decimal, signed_decimal};
use crate::types::render::render;

verus! {

/// The textual form of a literal. A floating-point literal shows the text
/// it was written with.
pub open spec fn render_lit(l: SLit) -> Seq<char> {
    match l {
        SLit::Unit => "()"@,
        SLit::Bool(b) => if b { "true"@ } else { "false"@ },
        SLit::Char(c) => "'"@ + seq![c] + "'"@,
        SLit::Byte(v) => decimal(v as nat) + "b"@,
        SLit::Short(v) => signed_decimal(v as int) + "s"@,
        SLit::Int(v) => signed_decimal(v as int),
        SLit::Long(v) => signed_decimal(v as int) + "L"@,
        SLit::Int128(v) => signed_decimal(v as int) + "q"@,
        SLit::Float(t) => t + "f"@,
        SLit::Double(t) => t,
        SLit::Str(s) => "\""@ + s + "\""@,
    }
}

/// The textual form of an expression.
pub open spec fn render_expr(e: SExpr) -> Seq<char>
    decreases e, 0nat,
{
    match e {
        SExpr::Lit(l) => render_lit(l),
        SExpr::Var(n) => n,
        SExpr::Let(n, v, b) => "let "@ + n + " = "@ + render_expr(v.expr) + " in "@ + render_expr(b.expr),
        SExpr::LetRec(bs, b) => "letrec {"@ + render_bindings(bs) + " } in "@ + render_expr(b.expr),
        SExpr::App(f, args) => render_expr(f.expr) + "("@ + render_list(args, ", "@) + ")"@,
        SExpr::Lambda(ps, b) => "\\"@ + join_names(ps) + " -> "@ + render_expr(b.expr),
        SExpr::If(c, t, f) => "if "@ + render_expr(c.expr) + " then "@ + render_expr(t.expr) + " else "@ + render_expr(f.expr),
        SExpr::Match(s, _) => "match "@ + render_expr(s.expr) + " { ... }"@,
        SExpr::MkRecord(fs) => "{"@ + render_fields(fs) + "}"@,
        SExpr::Project(x, f) => render_expr(x.expr) + "."@ + f,
        SExpr::MkVariant(c, x) => "|"@ + c + " "@ + render_expr(x.expr) + "|"@,
        SExpr::MkArray(es) => "["@ + render_list(es, ", "@) + "]"@,
        SExpr::Comprehension(b, _) => "["@ + render_expr(b.expr) + " | ...]"@,
        SExpr::Annotate(x, t) => render_expr(x.expr) + " :: "@ + render(t),
        SExpr::BinOp(op, l, r) => "("@ + render_expr(l.expr) + " "@ + op + " "@ + render_expr(r.expr) + ")"@,
        SExpr::UnaryOp(op, x) => "("@ + op + render_expr(x.expr) + ")"@,
        SExpr::Do(es) => "do {"@ + render_stmts(es) + " }"@,
        SExpr::Pack(x, t) => "pack("@ + render_expr(x.expr) + ", "@ + render(t) + ")"@,
        SExpr::Unpack(a, b, p, x) => "unpack ("@ + a + ", "@ + b + ") = "@ + render_expr(p.expr) + " in "@ + render_expr(x.expr),
    }
}

/// The expressions of `ns`, separated by `sep`.
pub open spec fn render_list(ns: Seq<SNode>, sep: Seq<char>) -> Seq<char>
    decreases ns, 1nat,
{
    if ns.len() == 0 {
        Seq::empty()
    } else if ns.len() == 1 {
        render_expr(ns[0].expr)
    } else {
        render_list(ns.drop_last(), sep) + sep + render_expr(ns.last().expr)
    }
}

/// Each expression of `ns` after a space and followed by `;`.
pub open spec fn render_stmts(ns: Seq<SNode>) -> Seq<char>
    decreases ns, 1nat,
{
    if ns.len() == 0 {
        Seq::empty()
    } else {
        render_stmts(ns.drop_last()) + " "@ + render_expr(ns.last().expr) + ";"@
    }
}

/// The fields as `name = expr`, separated by `", "`.
pub open spec fn render_fields(fs: Seq<(Seq<char>, SNode)>) -> Seq<char>
    decreases fs, 1nat,
{
    if fs.len() == 0 {
        Seq::empty()
    } else if fs.len() == 1 {
        fs[0].0 + " = "@ + render_expr(fs[0].1.expr)
    } else {
        render_fields(fs.drop_last()) + ", "@ + (fs.last().0 + " = "@ + render_expr(fs.last().1.expr))
    }
}

/// The bindings as ` name = expr`, separated by `,`.
pub open spec fn render_bindings(bs: Seq<(Seq<char>, SNode)>) -> Seq<char>
    decreases bs, 1nat,
{
    if bs.len() == 0 {
        Seq::empty()
    } else if bs.len() == 1 {
        " "@ + bs[0].0 + " = "@ + render_expr(bs[0].1.expr)
    } else {
        render_bindings(bs.drop_last()) + ","@ + (" "@ + bs.last().0 + " = "@ + render_expr(bs.last().1.expr))
    }
}

/// The names separated by single spaces.
pub open spec fn join_names(ns: Seq<Seq<char>>) -> Seq<char>
    decreases ns.len(),
{
    if ns.len() == 0 {
        Seq::empty()
    } else if ns.len() == 1 {
        ns[0]
    } else {
        join_names(ns.drop_last()) + " "@ + ns.last()
    }
}

impl Literal {
    /// Appends the textual form of this literal.
    pub fn render_into(&self, out: &mut String)
        ensures
            final(out)@ == old(out)@ + render_lit(self@),
    {
        match self {
            Literal::Unit => push_str(out, "()"),
            Literal::Bool(b) => if *b { push_str(out, "true") } else { push_str(out, "false") },
            Literal::Char(c) => {
                push_str(out, "'");
                push_char(out, *c);
                push_str(out, "'");
                assert(final(out)@ =~= old(out)@ + render_lit(self@));
            }
            Literal::Byte(v) => {
                push_decimal(out, *v as u64);
                push_str(out, "b");
            }
            Literal::Short(v) => {
                push_signed_decimal(out, *v as i64);
                push_str(out, "s");
            }
            Literal::Int(v) => push_signed_decimal(out, *v as i64),
            Literal::Long(v) => {
                push_signed_decimal(out, *v);
                push_str(out, "L");
            }
            Literal::Int128(v) => {
                push_signed_decimal_i128(out, *v);
                push_str(out, "q");
            }
            Literal::Float(t) => {
                push_str(out, t.as_str());
                push_str(out, "f");
            }
            Literal::Double(t) => push_str(out, t.as_str()),
            Literal::String(s) => {
                push_str(out, "\"");
                push_str(out, s.as_str());
                push_str(out, "\"");
            }
        }
        assert(final(out)@ =~= old(out)@ + render_lit(self@));
    }

    /// The textual form of this literal (what `{}` prints).
    pub fn to_string(&self) -> (r: String)
        ensures
            r@ == render_lit(self@),
    {
        let mut out = String::new();
        self.render_into(&mut out);
        assert(out@ =~= render_lit(self@));
        out
    }
}

/// The models of a list of spanned expressions.
pub open spec fn node_models(es: Seq<Spanned<Expr>>) -> Seq<SNode> {
    Seq::new(es.len(), |i: int| es[i]@)
}

/// The models of named expressions.
pub open spec fn named_models(fs: Seq<(String, Spanned<Expr>)>) -> Seq<(Seq<char>, SNode)> {
    Seq::new(fs.len(), |i: int| (fs[i].0@, fs[i].1@))
}

pub(crate) proof fn lemma_expr_views(e: Expr)
    ensures
        e matches Expr::App(f, args) ==> e.model() == SExpr::App(Box::new(f@), node_models(args@)),
        e matches Expr::MkArray(es) ==> e.model() == SExpr::MkArray(node_models(es@)),
        e matches Expr::Do(es) ==> e.model() == SExpr::Do(node_models(es@)),
        e matches Expr::MkRecord(m) ==> e.model() == SExpr::MkRecord(named_models(m.entries@)),
        e matches Expr::LetRec(bs, b) ==> e.model() == SExpr::LetRec(named_models(bs@), Box::new(b@)),
{
    match e {
        Expr::App(f, args) => { assert(e.model()->App_1 =~= node_models(args@)); }
        Expr::MkArray(es) => { assert(e.model()->MkArray_0 =~= node_models(es@)); }
        Expr::Do(es) => { assert(e.model()->Do_0 =~= node_models(es@)); }
        Expr::MkRecord(m) => { assert(e.model()->MkRecord_0 =~= named_models(m.entries@)); }
        Expr::LetRec(bs, b) => { assert(e.model()->LetRec_0 =~= named_models(bs@)); }
        _ => {}
    }
}

impl Expr {
    /// Appends the textual form of this expression.
    #[verifier::spinoff_prover]
    #[verifier::rlimit(50)]
    pub fn render_into(&self, out: &mut String)
        ensures
            final(out)@ == old(out)@ + render_expr(self.model()),
        decreases self,
    {
        proof {
            lemma_expr_views(*self);
        }
        let ghost start = out@;
        match self {
            Expr::Lit(l) => {
                l.render_into(out);
            }
            Expr::Var(n) => {
                push_str(out, n.as_str());
            }
            Expr::Let(n, v, b) => {
                push_str(out, "let ");
                push_str(out, n.as_str());
                push_str(out, " = ");
                v.node.render_into(out);
                push_str(out, " in ");
                b.node.render_into(out);
                assert(out@ =~= start + render_expr(self.model()));
            }
            Expr::LetRec(bs, b) => {
                push_str(out, "letrec {");
                render_bindings_into(bs, out);
                push_str(out, " } in ");
                b.node.render_into(out);
                assert(out@ =~= start + render_expr(self.model()));
            }
            Expr::App(f, args) => {
                f.node.render_into(out);
                push_str(out, "(");
                render_list_into(args, ", ", out);
                push_str(out, ")");
                assert(out@ =~= start + render_expr(self.model()));
            }
            Expr::Lambda(ps, b) => {
                push_str(out, "\\");
                join_names_into(ps, out);
                push_str(out, " -> ");
                b.node.render_into(out);
                assert(out@ =~= start + render_expr(self.model()));
            }
            Expr::If(c, t, e) => {
                push_str(out, "if ");
                c.node.render_into(out);
                push_str(out, " then ");
                t.node.render_into(out);
                push_str(out, " else ");
                e.node.render_into(out);
                assert(out@ =~= start + render_expr(self.model()));
            }
            Expr::Match(s, _) => {
                push_str(out, "match ");
                s.node.render_into(out);
                push_str(out, " { ... }");
                assert(out@ =~= start + render_expr(self.model()));
            }
            Expr::MkRecord(m) => {
                push_str(out, "{");
                render_fields_into(m, out);
                push_str(out, "}");
                assert(out@ =~= start + render_expr(self.model()));
            }
            Expr::Project(e, f) => {
                e.node.render_into(out);
                push_str(out, ".");
                push_str(out, f.as_str());
                assert(out@ =~= start + render_expr(self.model()));
            }
            Expr::MkVariant(c, e) => {
                push_str(out, "|");
                push_str(out, c.as_str());
                push_str(out, " ");
                e.node.render_into(out);
                push_str(out, "|");
                assert(out@ =~= start + render_expr(self.model()));
            }
            Expr::MkArray(es) => {
                push_str(out, "[");
                render_list_into(es, ", ", out);
                push_str(out, "]");
                assert(out@ =~= start + render_expr(self.model()));
            }
            Expr::Comprehension(c) => {
                push_str(out, "[");
                c.body.node.render_into(out);
                push_str(out, " | ...]");
                assert(out@ =~= start + render_expr(self.model()));
            }
            Expr::Annotate(e, t) => {
                e.node.render_into(out);
                push_str(out, " :: ");
                t.render_into(out);
                assert(out@ =~= start + render_expr(self.model()));
            }
            Expr::BinOp(op, l, r) => {
                push_str(out, "(");
                l.node.render_into(out);
                push_str(out, " ");
                push_str(out, op.as_str());
                push_str(out, " ");
                r.node.render_into(out);
                push_str(out, ")");
                assert(out@ =~= start + render_expr(self.model()));
            }
            Expr::UnaryOp(op, e) => {
                push_str(out, "(");
                push_str(out, op.as_str());
                e.node.render_into(out);
                push_str(out, ")");
                assert(out@ =~= start + render_expr(self.model()));
            }
            Expr::Do(es) => {
                push_str(out, "do {");
                render_stmts_into(es, out);
                push_str(out, " }");
                assert(out@ =~= start + render_expr(self.model()));
            }
            Expr::Pack(e, t) => {
                push_str(out, "pack(");
                e.node.render_into(out);
                push_str(out, ", ");
                t.render_into(out);
                push_str(out, ")");
                assert(out@ =~= start + render_expr(self.model()));
            }
            Expr::Unpack(a, b, p, e) => {
                push_str(out, "unpack (");
                push_str(out, a.as_str());
                push_str(out, ", ");
                push_str(out, b.as_str());
                push_str(out, ") = ");
                p.node.render_into(out);
                push_str(out, " in ");
                e.node.render_into(out);
                assert(out@ =~= start + render_expr(self.model()));
            }
        }
    }

    /// The textual form of this expression (what `{}` prints).
    pub fn to_string(&self) -> (r: String)
        ensures
            r@ == render_expr(self.model()),
    {
        let mut out = String::new();
        self.render_into(&mut out);
        assert(out@ =~= render_expr(self.model()));
        out
    }
}

/// Appends the expressions of `es`, separated by `sep`.
fn render_list_into(es: &Vec<Spanned<Expr>>, sep: &str, out: &mut String)
    ensures
        final(out)@ == old(out)@ + render_list(node_models(es@), sep@),
    decreases es,
{
    let ghost start = out@;
    let ghost v = node_models(es@);
    let mut i: usize = 0;
    assert(v.take(0) =~= Seq::<SNode>::empty());
    while i < es.len()
        invariant
            i <= es@.len(),
            v == node_models(es@),
            out@ == start + render_list(v.take(i as int), sep@),
        decreases es.len() - i,
    {
        proof {
            assert(decreases_to!(es => es@));
            assert(v.take(i + 1).drop_last() =~= v.take(i as int));
            assert(v.take(i + 1).last() == es@[i as int]@);
            assert(v.take(i + 1)[0] == v[0]);
        }
        if i > 0 {
            push_str(out, sep);
        }
        es[i].node.render_into(out);
        proof {
            assert(out@ =~= start + render_list(v.take(i + 1), sep@));
        }
        i += 1;
    }
    assert(v.take(i as int) =~= v);
}

/// Appends each expression of `es` after a space and followed by `;`.
fn render_stmts_into(es: &Vec<Spanned<Expr>>, out: &mut String)
    ensures
        final(out)@ == old(out)@ + render_stmts(node_models(es@)),
    decreases es,
{
    let ghost start = out@;
    let ghost v = node_models(es@);
    let mut i: usize = 0;
    assert(v.take(0) =~= Seq::<SNode>::empty());
    while i < es.len()
        invariant
            i <= es@.len(),
            v == node_models(es@),
            out@ == start + render_stmts(v.take(i as int)),
        decreases es.len() - i,
    {
        proof {
            assert(decreases_to!(es => es@));
            assert(v.take(i + 1).drop_last() =~= v.take(i as int));
            assert(v.take(i + 1).last() == es@[i as int]@);
        }
        push_str(out, " ");
        es[i].node.render_into(out);
        push_str(out, ";");
        proof {
            assert(out@ =~= start + render_stmts(v.take(i + 1)));
        }
        i += 1;
    }
    assert(v.take(i as int) =~= v);
}

/// Appends the fields of `m` as `name = expr`, separated by `", "`.
fn render_fields_into(m: &NameMap<Spanned<Expr>>, out: &mut String)
    ensures
        final(out)@ == old(out)@ + render_fields(named_models(m.entries@)),
    decreases m,
{
    let ghost start = out@;
    let ghost v = named_models(m.entries@);
    let mut i: usize = 0;
    assert(v.take(0) =~= Seq::<(Seq<char>, SNode)>::empty());
    while i < m.entries.len()
        invariant
            i <= m.entries@.len(),
            v == named_models(m.entries@),
            out@ == start + render_fields(v.take(i as int)),
        decreases m.entries.len() - i,
    {
        proof {
            assert(decreases_to!(m => m.entries));
            assert(decreases_to!(m.entries => m.entries@));
            assert(v.take(i + 1).drop_last() =~= v.take(i as int));
            assert(v.take(i + 1).last() == (m.entries@[i as int].0@, m.entries@[i as int].1@));
            assert(v.take(i + 1)[0] == v[0]);
        }
        if i > 0 {
            push_str(out, ", ");
        }
        push_str(out, m.entries[i].0.as_str());
        push_str(out, " = ");
        m.entries[i].1.node.render_into(out);
        proof {
            assert(out@ =~= start + render_fields(v.take(i + 1)));
        }
        i += 1;
    }
    assert(v.take(i as int) =~= v);
}

/// Appends the bindings of `bs` as ` name = expr`, separated by `,`.
fn render_bindings_into(bs: &Vec<(String, Spanned<Expr>)>, out: &mut String)
    ensures
        final(out)@ == old(out)@ + render_bindings(named_models(bs@)),
    decreases bs,
{
    let ghost start = out@;
    let ghost v = named_models(bs@);
    let mut i: usize = 0;
    assert(v.take(0) =~= Seq::<(Seq<char>, SNode)>::empty());
    while i < bs.len()
        invariant
            i <= bs@.len(),
            v == named_models(bs@),
            out@ == start + render_bindings(v.take(i as int)),
        decreases bs.len() - i,
    {
        proof {
            assert(decreases_to!(bs => bs@));
            assert(v.take(i + 1).drop_last() =~= v.take(i as int));
            assert(v.take(i + 1).last() == (bs@[i as int].0@, bs@[i as int].1@));
            assert(v.take(i + 1)[0] == v[0]);
        }
        if i > 0 {
            push_str(out, ",");
        }
        push_str(out, " ");
        push_str(out, bs[i].0.as_str());
        push_str(out, " = ");
        bs[i].1.node.render_into(out);
        proof {
            assert(out@ =~= start + render_bindings(v.take(i + 1)));
        }
        i += 1;
    }
    assert(v.take(i as int) =~= v);
}

/// Appends the names separated by single spaces.
fn join_names_into(ns: &Vec<String>, out: &mut String)
    ensures
        final(out)@ == old(out)@ + join_names(names_of(ns@)),
{
    let ghost start = out@;
    let ghost v = names_of(ns@);
    let mut i: usize = 0;
    assert(v.take(0) =~= Seq::<Seq<char>>::empty());
    while i < ns.len()
        invariant
            i <= ns@.len(),
            v == names_of(ns@),
            out@ == start + join_names(v.take(i as int)),
        decreases ns.len() - i,
    {
        proof {
            assert(v.take(i + 1).drop_last() =~= v.take(i as int));
            assert(v.take(i + 1).last() == ns@[i as int]@);
            assert(v.take(i + 1)[0] == v[0]);
        }
        if i > 0 {
            push_str(out, " ");
        }
        push_str(out, ns[i].as_str());
        proof {
            assert(out@ =~= start + join_names(v.take(i + 1)));
        }
        i += 1;
    }
    assert(v.take(i as int) =~= v);
}

} // verus!
