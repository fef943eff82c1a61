//! The grammar of expressions.
//!
//! From loosest to tightest: a type annotation `e :: T`; `||`; `&&`; one
//! comparison (`==`, `!=`, `<=`, `>=`, `<`, `>`); `+` and `-`; `*`, `/`
//! and `%`; prefix `!` and `-`; application `f(a, ...)`; projection
//! `e.field`; and the atoms: `let`, `if`, `match`, lambdas, variants,
//! records, arrays, literals, parentheses and variables. Binary operators
//! group to the left. Compound nodes take the span of their first part;
//! atoms span what they read.

use vstd::prelude::*;
use super::lexical::{agrees, fits, skip_ws, skip_ws_at, lit_at, char_at, is_char_at, match_text,
    ident, ident_at, upper_ident, upper_ident_at, literal, literal_at};
use super::types::{ty, ty_at, name_map_from};
use super::patterns::{pat, pat_at};
use crate::name_map::{fields_from, model_entries};
use crate::expr::{Expr, Spanned, Span, Literal, MatchArm, SExpr, SNode, SArm, SLit, names_of};
use crate::expr::render::node_models;
use crate::text::{owned, string_from_chars};

verus! {

/// A node for `op l r`, at the span of `l`.
pub open spec fn binop_node(op: Seq<char>, l: SNode, r: SNode) -> SNode {
    SNode { expr: SExpr::BinOp(op, Box::new(l), Box::new(r)), start: l.start, end: l.end }
}

/// A node for `e` at `start..end`.
pub open spec fn node(e: SExpr, start: int, end: int) -> SNode {
    SNode { expr: e, start, end }
}

/// The models of match arms.
pub open spec fn arm_models(v: Seq<MatchArm>) -> Seq<SArm> {
    Seq::new(v.len(), |i: int| v[i].arm_model())
}

/// An expression: an `||`-expression, optionally annotated with `:: T`.
pub open spec fn expr(s: Seq<char>, p: int, f: nat) -> Option<(SNode, int)>
    decreases f,
{
    if f == 0 {
        None
    } else {
        match or_expr(s, p, (f - 1) as nat) {
            None => None,
            Some((e, q)) => {
                let a = skip_ws(s, q);
                let t = if lit_at(s, a, "::"@) { ty(s, skip_ws(s, a + "::"@.len()), (f - 1) as nat) } else { None };
                match t {
                    Some((t, e2)) => Some((node(SExpr::Annotate(Box::new(e), t), e.start, e.end), e2)),
                    None => Some((e, q)),
                }
            },
        }
    }
}

/// `&&`-expressions joined by `||`.
pub open spec fn or_expr(s: Seq<char>, p: int, f: nat) -> Option<(SNode, int)>
    decreases f,
{
    if f == 0 {
        None
    } else {
        match and_expr(s, p, (f - 1) as nat) {
            None => None,
            Some((l, q)) => Some(or_rest(s, q, (f - 1) as nat, l)),
        }
    }
}

/// The `|| operand` parts after the first operand.
pub open spec fn or_rest(s: Seq<char>, p: int, f: nat, acc: SNode) -> (SNode, int)
    decreases f,
{
    if f == 0 {
        (acc, p)
    } else {
        let a = skip_ws(s, p);
        if lit_at(s, a, "||"@) {
            match and_expr(s, skip_ws(s, a + "||"@.len()), (f - 1) as nat) {
                Some((r, e)) => or_rest(s, e, (f - 1) as nat, binop_node("||"@, acc, r)),
                None => (acc, p),
            }
        } else {
            (acc, p)
        }
    }
}

/// Comparisons joined by `&&`.
pub open spec fn and_expr(s: Seq<char>, p: int, f: nat) -> Option<(SNode, int)>
    decreases f,
{
    if f == 0 {
        None
    } else {
        match compare_expr(s, p, (f - 1) as nat) {
            None => None,
            Some((l, q)) => Some(and_rest(s, q, (f - 1) as nat, l)),
        }
    }
}

/// The `&& operand` parts after the first operand.
pub open spec fn and_rest(s: Seq<char>, p: int, f: nat, acc: SNode) -> (SNode, int)
    decreases f,
{
    if f == 0 {
        (acc, p)
    } else {
        let a = skip_ws(s, p);
        if lit_at(s, a, "&&"@) {
            match compare_expr(s, skip_ws(s, a + "&&"@.len()), (f - 1) as nat) {
                Some((r, e)) => and_rest(s, e, (f - 1) as nat, binop_node("&&"@, acc, r)),
                None => (acc, p),
            }
        } else {
            (acc, p)
        }
    }
}

/// The comparison operator at `a`, if any, and where it ends.
pub open spec fn compare_op(s: Seq<char>, a: int) -> Option<(Seq<char>, int)> {
    if lit_at(s, a, "=="@) {
        Some(("=="@, a + 2))
    } else if lit_at(s, a, "!="@) {
        Some(("!="@, a + 2))
    } else if lit_at(s, a, "<="@) {
        Some(("<="@, a + 2))
    } else if lit_at(s, a, ">="@) {
        Some((">="@, a + 2))
    } else if char_at(s, a, '<') {
        Some(("<"@, a + 1))
    } else if char_at(s, a, '>') {
        Some((">"@, a + 1))
    } else {
        None
    }
}

/// A sum, optionally compared with another.
pub open spec fn compare_expr(s: Seq<char>, p: int, f: nat) -> Option<(SNode, int)>
    decreases f,
{
    if f == 0 {
        None
    } else {
        match add_expr(s, p, (f - 1) as nat) {
            None => None,
            Some((l, q)) => {
                match compare_op(s, skip_ws(s, q)) {
                    Some((op, oe)) => match add_expr(s, skip_ws(s, oe), (f - 1) as nat) {
                        Some((r, e)) => Some((binop_node(op, l, r), e)),
                        None => Some((l, q)),
                    },
                    None => Some((l, q)),
                }
            },
        }
    }
}

/// Products joined by `+` and `-`.
pub open spec fn add_expr(s: Seq<char>, p: int, f: nat) -> Option<(SNode, int)>
    decreases f,
{
    if f == 0 {
        None
    } else {
        match mul_expr(s, p, (f - 1) as nat) {
            None => None,
            Some((l, q)) => Some(add_rest(s, q, (f - 1) as nat, l)),
        }
    }
}

/// The `+ operand` and `- operand` parts after the first operand.
pub open spec fn add_rest(s: Seq<char>, p: int, f: nat, acc: SNode) -> (SNode, int)
    decreases f,
{
    if f == 0 {
        (acc, p)
    } else {
        let a = skip_ws(s, p);
        if char_at(s, a, '+') || char_at(s, a, '-') {
            match mul_expr(s, skip_ws(s, a + 1), (f - 1) as nat) {
                Some((r, e)) => add_rest(s, e, (f - 1) as nat, binop_node(seq![s[a]], acc, r)),
                None => (acc, p),
            }
        } else {
            (acc, p)
        }
    }
}

/// Unary expressions joined by `*`, `/` and `%`.
pub open spec fn mul_expr(s: Seq<char>, p: int, f: nat) -> Option<(SNode, int)>
    decreases f,
{
    if f == 0 {
        None
    } else {
        match unary_expr(s, p, (f - 1) as nat) {
            None => None,
            Some((l, q)) => Some(mul_rest(s, q, (f - 1) as nat, l)),
        }
    }
}

/// The `* operand`, `/ operand` and `% operand` parts after the first.
pub open spec fn mul_rest(s: Seq<char>, p: int, f: nat, acc: SNode) -> (SNode, int)
    decreases f,
{
    if f == 0 {
        (acc, p)
    } else {
        let a = skip_ws(s, p);
        if char_at(s, a, '*') || char_at(s, a, '/') || char_at(s, a, '%') {
            match unary_expr(s, skip_ws(s, a + 1), (f - 1) as nat) {
                Some((r, e)) => mul_rest(s, e, (f - 1) as nat, binop_node(seq![s[a]], acc, r)),
                None => (acc, p),
            }
        } else {
            (acc, p)
        }
    }
}

/// Prefix `!` and `-` operators, then an application.
pub open spec fn unary_expr(s: Seq<char>, p: int, f: nat) -> Option<(SNode, int)>
    decreases f,
{
    if f == 0 {
        None
    } else {
        let a = skip_ws(s, p);
        if char_at(s, a, '!') || char_at(s, a, '-') {
            match unary_expr(s, skip_ws(s, a + 1), (f - 1) as nat) {
                Some((x, e)) => Some((node(SExpr::UnaryOp(seq![s[a]], Box::new(x)), x.start, x.end), e)),
                None => None,
            }
        } else {
            app_expr(s, p, (f - 1) as nat)
        }
    }
}

/// A projection followed by argument lists.
pub open spec fn app_expr(s: Seq<char>, p: int, f: nat) -> Option<(SNode, int)>
    decreases f,
{
    if f == 0 {
        None
    } else {
        match proj_expr(s, p, (f - 1) as nat) {
            None => None,
            Some((x, q)) => Some(app_rest(s, q, (f - 1) as nat, x)),
        }
    }
}

/// The argument lists after the function; an empty list applies nothing.
pub open spec fn app_rest(s: Seq<char>, p: int, f: nat, acc: SNode) -> (SNode, int)
    decreases f,
{
    if f == 0 {
        (acc, p)
    } else {
        let a = skip_ws(s, p);
        if char_at(s, a, '(') {
            let args = expr_list(s, skip_ws(s, a + 1), (f - 1) as nat);
            let c = skip_ws(s, args.1);
            if char_at(s, c, ')') {
                let next = if args.0.len() == 0 { acc } else { node(SExpr::App(Box::new(acc), args.0), acc.start, acc.end) };
                app_rest(s, skip_ws(s, c + 1), (f - 1) as nat, next)
            } else {
                (acc, p)
            }
        } else {
            (acc, p)
        }
    }
}

/// An atom followed by `.field` projections.
pub open spec fn proj_expr(s: Seq<char>, p: int, f: nat) -> Option<(SNode, int)>
    decreases f,
{
    if f == 0 {
        None
    } else {
        match atom(s, p, (f - 1) as nat) {
            None => None,
            Some((x, q)) => Some(proj_rest(s, q, (f - 1) as nat, x)),
        }
    }
}

/// The `.field` parts after an atom.
pub open spec fn proj_rest(s: Seq<char>, p: int, f: nat, acc: SNode) -> (SNode, int)
    decreases f,
{
    if f == 0 {
        (acc, p)
    } else if char_at(s, p, '.') {
        match ident(s, p + 1) {
            Some((n, e)) => proj_rest(s, e, (f - 1) as nat, node(SExpr::Project(Box::new(acc), n), acc.start, acc.end)),
            None => (acc, p),
        }
    } else {
        (acc, p)
    }
}

/// An atom, with white space around it.
pub open spec fn atom(s: Seq<char>, p: int, f: nat) -> Option<(SNode, int)>
    decreases f,
{
    if f == 0 {
        None
    } else {
        match atom_choice(s, skip_ws(s, p), (f - 1) as nat) {
            Some((x, e)) => Some((x, skip_ws(s, e))),
            None => None,
        }
    }
}

/// The first of `let`, `if`, `match`, lambda, variant, record, array,
/// literal, parenthesized and variable expressions that reads at `p`.
pub open spec fn atom_choice(s: Seq<char>, p: int, f: nat) -> Option<(SNode, int)>
    decreases f,
{
    if f == 0 {
        None
    } else if let_expr(s, p, (f - 1) as nat) is Some {
        let_expr(s, p, (f - 1) as nat)
    } else if if_expr(s, p, (f - 1) as nat) is Some {
        if_expr(s, p, (f - 1) as nat)
    } else if match_expr(s, p, (f - 1) as nat) is Some {
        match_expr(s, p, (f - 1) as nat)
    } else if lambda_expr(s, p, (f - 1) as nat) is Some {
        lambda_expr(s, p, (f - 1) as nat)
    } else if variant_expr(s, p, (f - 1) as nat) is Some {
        variant_expr(s, p, (f - 1) as nat)
    } else if record_expr(s, p, (f - 1) as nat) is Some {
        record_expr(s, p, (f - 1) as nat)
    } else if array_expr(s, p, (f - 1) as nat) is Some {
        array_expr(s, p, (f - 1) as nat)
    } else if literal(s, p) is Some {
        match literal(s, p) {
            Some((l, e)) => Some((node(SExpr::Lit(l), p, e), e)),
            None => None,
        }
    } else if paren_expr(s, p, (f - 1) as nat) is Some {
        paren_expr(s, p, (f - 1) as nat)
    } else {
        match ident(s, p) {
            Some((n, e)) => Some((node(SExpr::Var(n), p, e), e)),
            None => None,
        }
    }
}

/// `let name = e in body`.
pub open spec fn let_expr(s: Seq<char>, p: int, f: nat) -> Option<(SNode, int)>
    decreases f,
{
    if f == 0 {
        None
    } else {
        let a = skip_ws(s, p);
        if !lit_at(s, a, "let"@) {
            None
        } else {
            match ident(s, skip_ws(s, skip_ws(s, a + "let"@.len()))) {
                None => None,
                Some((n, e)) => {
                    let c = skip_ws(s, skip_ws(s, e));
                    if !char_at(s, c, '=') {
                        None
                    } else {
                        match expr(s, skip_ws(s, c + 1), (f - 1) as nat) {
                            None => None,
                            Some((v, e2)) => {
                                let d = skip_ws(s, e2);
                                if !lit_at(s, d, "in"@) {
                                    None
                                } else {
                                    match expr(s, skip_ws(s, d + "in"@.len()), (f - 1) as nat) {
                                        None => None,
                                        Some((b, e3)) => Some((node(SExpr::Let(n, Box::new(v), Box::new(b)), p, e3), e3)),
                                    }
                                }
                            },
                        }
                    }
                },
            }
        }
    }
}

/// `if c then a else b`.
pub open spec fn if_expr(s: Seq<char>, p: int, f: nat) -> Option<(SNode, int)>
    decreases f,
{
    if f == 0 {
        None
    } else {
        let a = skip_ws(s, p);
        if !lit_at(s, a, "if"@) {
            None
        } else {
            match expr(s, skip_ws(s, a + "if"@.len()), (f - 1) as nat) {
                None => None,
                Some((c, e1)) => {
                    let t = skip_ws(s, e1);
                    if !lit_at(s, t, "then"@) {
                        None
                    } else {
                        match expr(s, skip_ws(s, t + "then"@.len()), (f - 1) as nat) {
                            None => None,
                            Some((x, e2)) => {
                                let u = skip_ws(s, e2);
                                if !lit_at(s, u, "else"@) {
                                    None
                                } else {
                                    match expr(s, skip_ws(s, u + "else"@.len()), (f - 1) as nat) {
                                        None => None,
                                        Some((y, e3)) => Some((node(SExpr::If(Box::new(c), Box::new(x), Box::new(y)), p, e3), e3)),
                                    }
                                }
                            },
                        }
                    }
                },
            }
        }
    }
}

/// A match arm: `pattern -> e`.
pub open spec fn arm(s: Seq<char>, p: int, f: nat) -> Option<(SArm, int)>
    decreases f,
{
    if f == 0 {
        None
    } else {
        match pat(s, skip_ws(s, p), (f - 1) as nat) {
            None => None,
            Some((pt, e)) => {
                let c = skip_ws(s, skip_ws(s, e));
                if !lit_at(s, c, "->"@) {
                    None
                } else {
                    match expr(s, skip_ws(s, c + "->"@.len()), (f - 1) as nat) {
                        None => None,
                        Some((b, e2)) => Some((SArm { pattern: pt, guard: None, body: b }, e2)),
                    }
                }
            },
        }
    }
}

/// The match arms after the first, each after a `,`.
pub open spec fn arms_rest(s: Seq<char>, p: int, f: nat, acc: Seq<SArm>) -> (Seq<SArm>, int)
    decreases f,
{
    if f == 0 {
        (acc, p)
    } else {
        let a = skip_ws(s, p);
        if char_at(s, a, ',') {
            let b = skip_ws(s, a + 1);
            match arm(s, b, (f - 1) as nat) {
                Some((x, e)) => arms_rest(s, e, (f - 1) as nat, acc.push(x)),
                None => (acc, b),
            }
        } else {
            (acc, p)
        }
    }
}

/// A comma-separated list of match arms, possibly empty.
pub open spec fn arms(s: Seq<char>, p: int, f: nat) -> (Seq<SArm>, int)
    decreases f,
{
    if f == 0 {
        (Seq::empty(), p)
    } else {
        match arm(s, p, (f - 1) as nat) {
            None => (Seq::empty(), p),
            Some((x, e)) => arms_rest(s, e, (f - 1) as nat, seq![x]),
        }
    }
}

/// `match e { arms }`.
pub open spec fn match_expr(s: Seq<char>, p: int, f: nat) -> Option<(SNode, int)>
    decreases f,
{
    if f == 0 {
        None
    } else {
        let a = skip_ws(s, p);
        if !lit_at(s, a, "match"@) {
            None
        } else {
            match expr(s, skip_ws(s, a + "match"@.len()), (f - 1) as nat) {
                None => None,
                Some((x, e1)) => {
                    let b = skip_ws(s, e1);
                    if !char_at(s, b, '{') {
                        None
                    } else {
                        let ar = arms(s, skip_ws(s, b + 1), (f - 1) as nat);
                        let c = skip_ws(s, ar.1);
                        if char_at(s, c, '}') {
                            let e = skip_ws(s, c + 1);
                            Some((node(SExpr::Match(Box::new(x), ar.0), p, e), e))
                        } else {
                            None
                        }
                    }
                },
            }
        }
    }
}

/// The lambda parameters after the first: names with white space around.
pub open spec fn params_rest(s: Seq<char>, p: int, f: nat, acc: Seq<Seq<char>>) -> (Seq<Seq<char>>, int)
    decreases f,
{
    if f == 0 {
        (acc, p)
    } else {
        match ident(s, skip_ws(s, p)) {
            Some((n, e)) => params_rest(s, skip_ws(s, e), (f - 1) as nat, acc.push(n)),
            None => (acc, p),
        }
    }
}

/// `\ names -> body`, with at least one name.
pub open spec fn lambda_expr(s: Seq<char>, p: int, f: nat) -> Option<(SNode, int)>
    decreases f,
{
    if f == 0 {
        None
    } else {
        let a = skip_ws(s, p);
        if !char_at(s, a, '\\') {
            None
        } else {
            match ident(s, skip_ws(s, skip_ws(s, a + 1))) {
                None => None,
                Some((n, e)) => {
                    let ps = params_rest(s, skip_ws(s, e), (f - 1) as nat, seq![n]);
                    let c = skip_ws(s, ps.1);
                    if !lit_at(s, c, "->"@) {
                        None
                    } else {
                        match expr(s, skip_ws(s, c + "->"@.len()), (f - 1) as nat) {
                            None => None,
                            Some((b, e2)) => Some((node(SExpr::Lambda(ps.0, Box::new(b)), p, e2), e2)),
                        }
                    }
                },
            }
        }
    }
}

/// `| Ctor e |`, the expression optional (unit at the start of the input
/// when missing).
pub open spec fn variant_expr(s: Seq<char>, p: int, f: nat) -> Option<(SNode, int)>
    decreases f,
{
    if f == 0 {
        None
    } else {
        let a = skip_ws(s, p);
        if !char_at(s, a, '|') {
            None
        } else {
            match upper_ident(s, skip_ws(s, a + 1)) {
                None => None,
                Some((n, e)) => {
                    let b = skip_ws(s, e);
                    let inner = expr(s, b, (f - 1) as nat);
                    let after = match inner {
                        Some((_, e2)) => e2,
                        None => b,
                    };
                    let c = skip_ws(s, after);
                    if char_at(s, c, '|') {
                        let x = match inner {
                            Some((x, _)) => x,
                            None => node(SExpr::Lit(SLit::Unit), 0, 0),
                        };
                        let end = skip_ws(s, c + 1);
                        Some((node(SExpr::MkVariant(n, Box::new(x)), p, end), end))
                    } else {
                        None
                    }
                },
            }
        }
    }
}

/// A record field: `name = e`.
pub open spec fn rec_field(s: Seq<char>, p: int, f: nat) -> Option<((Seq<char>, SNode), int)>
    decreases f,
{
    if f == 0 {
        None
    } else {
        match ident(s, skip_ws(s, p)) {
            None => None,
            Some((n, e)) => {
                let c = skip_ws(s, skip_ws(s, e));
                if char_at(s, c, '=') {
                    match expr(s, skip_ws(s, c + 1), (f - 1) as nat) {
                        Some((x, e2)) => Some(((n, x), e2)),
                        None => None,
                    }
                } else {
                    None
                }
            },
        }
    }
}

/// The record fields after the first, each after a `,`.
pub open spec fn rec_fields_rest(s: Seq<char>, p: int, f: nat, acc: Seq<(Seq<char>, SNode)>) -> (Seq<(Seq<char>, SNode)>, int)
    decreases f,
{
    if f == 0 {
        (acc, p)
    } else {
        let a = skip_ws(s, p);
        if char_at(s, a, ',') {
            let b = skip_ws(s, a + 1);
            match rec_field(s, b, (f - 1) as nat) {
                Some((x, e)) => rec_fields_rest(s, e, (f - 1) as nat, acc.push(x)),
                None => (acc, b),
            }
        } else {
            (acc, p)
        }
    }
}

/// A comma-separated list of record fields, possibly empty.
pub open spec fn rec_fields(s: Seq<char>, p: int, f: nat) -> (Seq<(Seq<char>, SNode)>, int)
    decreases f,
{
    if f == 0 {
        (Seq::empty(), p)
    } else {
        match rec_field(s, p, (f - 1) as nat) {
            None => (Seq::empty(), p),
            Some((x, e)) => rec_fields_rest(s, e, (f - 1) as nat, seq![x]),
        }
    }
}

/// `{ fields }`; a field named twice keeps its last expression.
pub open spec fn record_expr(s: Seq<char>, p: int, f: nat) -> Option<(SNode, int)>
    decreases f,
{
    if f == 0 {
        None
    } else {
        let a = skip_ws(s, p);
        if char_at(s, a, '{') {
            let fs = rec_fields(s, skip_ws(s, a + 1), (f - 1) as nat);
            let c = skip_ws(s, fs.1);
            if char_at(s, c, '}') {
                let e = skip_ws(s, c + 1);
                Some((node(SExpr::MkRecord(fields_from(fs.0)), p, e), e))
            } else {
                None
            }
        } else {
            None
        }
    }
}

/// The expressions of a list after the first, each after a `,`.
pub open spec fn expr_list_rest(s: Seq<char>, p: int, f: nat, acc: Seq<SNode>) -> (Seq<SNode>, int)
    decreases f,
{
    if f == 0 {
        (acc, p)
    } else {
        let a = skip_ws(s, p);
        if char_at(s, a, ',') {
            let b = skip_ws(s, a + 1);
            match expr(s, b, (f - 1) as nat) {
                Some((x, e)) => expr_list_rest(s, e, (f - 1) as nat, acc.push(x)),
                None => (acc, b),
            }
        } else {
            (acc, p)
        }
    }
}

/// A comma-separated list of expressions, possibly empty.
pub open spec fn expr_list(s: Seq<char>, p: int, f: nat) -> (Seq<SNode>, int)
    decreases f,
{
    if f == 0 {
        (Seq::empty(), p)
    } else {
        match expr(s, p, (f - 1) as nat) {
            None => (Seq::empty(), p),
            Some((x, e)) => expr_list_rest(s, e, (f - 1) as nat, seq![x]),
        }
    }
}

/// `[ expressions ]`.
pub open spec fn array_expr(s: Seq<char>, p: int, f: nat) -> Option<(SNode, int)>
    decreases f,
{
    if f == 0 {
        None
    } else {
        let a = skip_ws(s, p);
        if char_at(s, a, '[') {
            let es = expr_list(s, skip_ws(s, a + 1), (f - 1) as nat);
            let c = skip_ws(s, es.1);
            if char_at(s, c, ']') {
                let e = skip_ws(s, c + 1);
                Some((node(SExpr::MkArray(es.0), p, e), e))
            } else {
                None
            }
        } else {
            None
        }
    }
}

/// `( e )`: the inner expression itself.
pub open spec fn paren_expr(s: Seq<char>, p: int, f: nat) -> Option<(SNode, int)>
    decreases f,
{
    if f == 0 {
        None
    } else {
        let a = skip_ws(s, p);
        if char_at(s, a, '(') {
            match expr(s, skip_ws(s, a + 1), (f - 1) as nat) {
                None => None,
                Some((x, e)) => {
                    let c = skip_ws(s, e);
                    if char_at(s, c, ')') {
                        Some((x, skip_ws(s, c + 1)))
                    } else {
                        None
                    }
                },
            }
        } else {
            None
        }
    }
}

/// The node for `op l r`, at the span of `l`.
fn binop(op: String, l: Spanned<Expr>, r: Spanned<Expr>) -> (n: Spanned<Expr>)
    ensures
        n@ == binop_node(op@, l@, r@),
{
    let span = l.span;
    Spanned::new(Expr::BinOp(op, Box::new(l), Box::new(r)), span)
}

/// The one-character text at `a`.
fn char_text(cs: &Vec<char>, a: usize) -> (r: String)
    requires
        a < cs@.len(),
        fits(cs),
    ensures
        r@ == seq![cs@[a as int]],
{
    let r = string_from_chars(cs, a, a + 1);
    assert(r@ =~= seq![cs@[a as int]]);
    r
}

/// An expression at `p` (see `expr`).
pub fn expr_at(cs: &Vec<char>, p: usize, fuel: usize) -> (r: Option<(Spanned<Expr>, usize)>)
    requires
        p <= cs@.len(),
        fits(cs),
    ensures
        agrees(r, expr(cs@, p as int, fuel as nat)),
        r matches Some((_, e)) ==> p <= e <= cs@.len(),
    decreases fuel,
{
    if fuel == 0 {
        return None;
    }
    match or_expr_at(cs, p, fuel - 1) {
        None => None,
        Some((e, q)) => {
            let a = skip_ws_at(cs, q);
            let t = match match_text(cs, a, "::") {
                Some(a2) => ty_at(cs, skip_ws_at(cs, a2), fuel - 1),
                None => None,
            };
            match t {
                Some((t, e2)) => {
                    let span = e.span;
                    Some((Spanned::new(Expr::Annotate(Box::new(e), t), span), e2))
                }
                None => Some((e, q)),
            }
        }
    }
}

/// An `||`-expression at `p` (see `or_expr`).
fn or_expr_at(cs: &Vec<char>, p: usize, fuel: usize) -> (r: Option<(Spanned<Expr>, usize)>)
    requires
        p <= cs@.len(),
        fits(cs),
    ensures
        agrees(r, or_expr(cs@, p as int, fuel as nat)),
        r matches Some((_, e)) ==> p <= e <= cs@.len(),
    decreases fuel,
{
    if fuel == 0 {
        return None;
    }
    match and_expr_at(cs, p, fuel - 1) {
        None => None,
        Some((l, q)) => Some(or_rest_at(cs, q, fuel - 1, l)),
    }
}

/// The `|| operand` parts at `p` (see `or_rest`).
#[verifier::loop_isolation(false)]
fn or_rest_at(cs: &Vec<char>, p: usize, fuel: usize, acc: Spanned<Expr>) -> (r: (Spanned<Expr>, usize))
    requires
        p <= cs@.len(),
        fits(cs),
    ensures
        or_rest(cs@, p as int, fuel as nat, acc@) == (r.0@, r.1 as int),
        p <= r.1 <= cs@.len(),
    decreases fuel,
{
    let ghost p0 = p;
    let ghost a0 = acc@;
    let mut acc = acc;
    let mut p = p;
    let mut f = fuel;
    while f > 0
        invariant
            p0 <= p <= cs@.len(),
            fits(cs),
            f <= fuel,
            or_rest(cs@, p0 as int, fuel as nat, a0) == or_rest(cs@, p as int, f as nat, acc@),
        decreases f,
    {
        let a = skip_ws_at(cs, p);
        let a2 = match match_text(cs, a, "||") {
            Some(x) => x,
            None => {
                return (acc, p);
            }
        };
        match and_expr_at(cs, skip_ws_at(cs, a2), f - 1) {
            Some((r, e)) => {
                acc = binop(owned("||"), acc, r);
                p = e;
                f = f - 1;
            }
            None => {
                return (acc, p);
            }
        }
    }
    (acc, p)
}

/// An `&&`-expression at `p` (see `and_expr`).
fn and_expr_at(cs: &Vec<char>, p: usize, fuel: usize) -> (r: Option<(Spanned<Expr>, usize)>)
    requires
        p <= cs@.len(),
        fits(cs),
    ensures
        agrees(r, and_expr(cs@, p as int, fuel as nat)),
        r matches Some((_, e)) ==> p <= e <= cs@.len(),
    decreases fuel,
{
    if fuel == 0 {
        return None;
    }
    match compare_expr_at(cs, p, fuel - 1) {
        None => None,
        Some((l, q)) => Some(and_rest_at(cs, q, fuel - 1, l)),
    }
}

/// The `&& operand` parts at `p` (see `and_rest`).
#[verifier::loop_isolation(false)]
fn and_rest_at(cs: &Vec<char>, p: usize, fuel: usize, acc: Spanned<Expr>) -> (r: (Spanned<Expr>, usize))
    requires
        p <= cs@.len(),
        fits(cs),
    ensures
        and_rest(cs@, p as int, fuel as nat, acc@) == (r.0@, r.1 as int),
        p <= r.1 <= cs@.len(),
    decreases fuel,
{
    let ghost p0 = p;
    let ghost a0 = acc@;
    let mut acc = acc;
    let mut p = p;
    let mut f = fuel;
    while f > 0
        invariant
            p0 <= p <= cs@.len(),
            fits(cs),
            f <= fuel,
            and_rest(cs@, p0 as int, fuel as nat, a0) == and_rest(cs@, p as int, f as nat, acc@),
        decreases f,
    {
        let a = skip_ws_at(cs, p);
        let a2 = match match_text(cs, a, "&&") {
            Some(x) => x,
            None => {
                return (acc, p);
            }
        };
        match compare_expr_at(cs, skip_ws_at(cs, a2), f - 1) {
            Some((r, e)) => {
                acc = binop(owned("&&"), acc, r);
                p = e;
                f = f - 1;
            }
            None => {
                return (acc, p);
            }
        }
    }
    (acc, p)
}

/// The comparison operator at `a` (see `compare_op`).
fn compare_op_at(cs: &Vec<char>, a: usize) -> (r: Option<(String, usize)>)
    requires
        a <= cs@.len(),
        fits(cs),
    ensures
        match compare_op(cs@, a as int) {
            Some((op, q)) => r matches Some((o, e)) && o@ == op && e as int == q,
            None => r is None,
        },
        r matches Some((_, e)) ==> a <= e <= cs@.len(),
{
    proof {
        reveal_strlit("==");
        reveal_strlit("!=");
        reveal_strlit("<=");
        reveal_strlit(">=");
    }
    if let Some(e) = match_text(cs, a, "==") {
        return Some((owned("=="), e));
    }
    if let Some(e) = match_text(cs, a, "!=") {
        return Some((owned("!="), e));
    }
    if let Some(e) = match_text(cs, a, "<=") {
        return Some((owned("<="), e));
    }
    if let Some(e) = match_text(cs, a, ">=") {
        return Some((owned(">="), e));
    }
    if is_char_at(cs, a, '<') {
        return Some((owned("<"), a + 1));
    }
    if is_char_at(cs, a, '>') {
        return Some((owned(">"), a + 1));
    }
    None
}

/// A comparison at `p` (see `compare_expr`).
fn compare_expr_at(cs: &Vec<char>, p: usize, fuel: usize) -> (r: Option<(Spanned<Expr>, usize)>)
    requires
        p <= cs@.len(),
        fits(cs),
    ensures
        agrees(r, compare_expr(cs@, p as int, fuel as nat)),
        r matches Some((_, e)) ==> p <= e <= cs@.len(),
    decreases fuel,
{
    if fuel == 0 {
        return None;
    }
    match add_expr_at(cs, p, fuel - 1) {
        None => None,
        Some((l, q)) => match compare_op_at(cs, skip_ws_at(cs, q)) {
            Some((op, oe)) => match add_expr_at(cs, skip_ws_at(cs, oe), fuel - 1) {
                Some((r, e)) => Some((binop(op, l, r), e)),
                None => Some((l, q)),
            },
            None => Some((l, q)),
        },
    }
}

/// A sum at `p` (see `add_expr`).
fn add_expr_at(cs: &Vec<char>, p: usize, fuel: usize) -> (r: Option<(Spanned<Expr>, usize)>)
    requires
        p <= cs@.len(),
        fits(cs),
    ensures
        agrees(r, add_expr(cs@, p as int, fuel as nat)),
        r matches Some((_, e)) ==> p <= e <= cs@.len(),
    decreases fuel,
{
    if fuel == 0 {
        return None;
    }
    match mul_expr_at(cs, p, fuel - 1) {
        None => None,
        Some((l, q)) => Some(add_rest_at(cs, q, fuel - 1, l)),
    }
}

/// The `+ operand` and `- operand` parts at `p` (see `add_rest`).
#[verifier::loop_isolation(false)]
fn add_rest_at(cs: &Vec<char>, p: usize, fuel: usize, acc: Spanned<Expr>) -> (r: (Spanned<Expr>, usize))
    requires
        p <= cs@.len(),
        fits(cs),
    ensures
        add_rest(cs@, p as int, fuel as nat, acc@) == (r.0@, r.1 as int),
        p <= r.1 <= cs@.len(),
    decreases fuel,
{
    let ghost p0 = p;
    let ghost a0 = acc@;
    let mut acc = acc;
    let mut p = p;
    let mut f = fuel;
    while f > 0
        invariant
            p0 <= p <= cs@.len(),
            fits(cs),
            f <= fuel,
            add_rest(cs@, p0 as int, fuel as nat, a0) == add_rest(cs@, p as int, f as nat, acc@),
        decreases f,
    {
        let a = skip_ws_at(cs, p);
        if !(is_char_at(cs, a, '+') || is_char_at(cs, a, '-')) {
            return (acc, p);
        }
        match mul_expr_at(cs, skip_ws_at(cs, a + 1), f - 1) {
            Some((r, e)) => {
                acc = binop(char_text(cs, a), acc, r);
                p = e;
                f = f - 1;
            }
            None => {
                return (acc, p);
            }
        }
    }
    (acc, p)
}

/// A product at `p` (see `mul_expr`).
fn mul_expr_at(cs: &Vec<char>, p: usize, fuel: usize) -> (r: Option<(Spanned<Expr>, usize)>)
    requires
        p <= cs@.len(),
        fits(cs),
    ensures
        agrees(r, mul_expr(cs@, p as int, fuel as nat)),
        r matches Some((_, e)) ==> p <= e <= cs@.len(),
    decreases fuel,
{
    if fuel == 0 {
        return None;
    }
    match unary_expr_at(cs, p, fuel - 1) {
        None => None,
        Some((l, q)) => Some(mul_rest_at(cs, q, fuel - 1, l)),
    }
}

/// The `*`, `/` and `%` parts at `p` (see `mul_rest`).
#[verifier::loop_isolation(false)]
fn mul_rest_at(cs: &Vec<char>, p: usize, fuel: usize, acc: Spanned<Expr>) -> (r: (Spanned<Expr>, usize))
    requires
        p <= cs@.len(),
        fits(cs),
    ensures
        mul_rest(cs@, p as int, fuel as nat, acc@) == (r.0@, r.1 as int),
        p <= r.1 <= cs@.len(),
    decreases fuel,
{
    let ghost p0 = p;
    let ghost a0 = acc@;
    let mut acc = acc;
    let mut p = p;
    let mut f = fuel;
    while f > 0
        invariant
            p0 <= p <= cs@.len(),
            fits(cs),
            f <= fuel,
            mul_rest(cs@, p0 as int, fuel as nat, a0) == mul_rest(cs@, p as int, f as nat, acc@),
        decreases f,
    {
        let a = skip_ws_at(cs, p);
        if !(is_char_at(cs, a, '*') || is_char_at(cs, a, '/') || is_char_at(cs, a, '%')) {
            return (acc, p);
        }
        match unary_expr_at(cs, skip_ws_at(cs, a + 1), f - 1) {
            Some((r, e)) => {
                acc = binop(char_text(cs, a), acc, r);
                p = e;
                f = f - 1;
            }
            None => {
                return (acc, p);
            }
        }
    }
    (acc, p)
}

/// A unary expression at `p` (see `unary_expr`).
fn unary_expr_at(cs: &Vec<char>, p: usize, fuel: usize) -> (r: Option<(Spanned<Expr>, usize)>)
    requires
        p <= cs@.len(),
        fits(cs),
    ensures
        agrees(r, unary_expr(cs@, p as int, fuel as nat)),
        r matches Some((_, e)) ==> p <= e <= cs@.len(),
    decreases fuel,
{
    if fuel == 0 {
        return None;
    }
    let a = skip_ws_at(cs, p);
    if is_char_at(cs, a, '!') || is_char_at(cs, a, '-') {
        match unary_expr_at(cs, skip_ws_at(cs, a + 1), fuel - 1) {
            Some((x, e)) => {
                let op = char_text(cs, a);
                let span = x.span;
                Some((Spanned::new(Expr::UnaryOp(op, Box::new(x)), span), e))
            }
            None => None,
        }
    } else {
        app_expr_at(cs, p, fuel - 1)
    }
}

/// An application at `p` (see `app_expr`).
fn app_expr_at(cs: &Vec<char>, p: usize, fuel: usize) -> (r: Option<(Spanned<Expr>, usize)>)
    requires
        p <= cs@.len(),
        fits(cs),
    ensures
        agrees(r, app_expr(cs@, p as int, fuel as nat)),
        r matches Some((_, e)) ==> p <= e <= cs@.len(),
    decreases fuel,
{
    if fuel == 0 {
        return None;
    }
    match proj_expr_at(cs, p, fuel - 1) {
        None => None,
        Some((x, q)) => Some(app_rest_at(cs, q, fuel - 1, x)),
    }
}

/// The argument lists at `p` (see `app_rest`).
#[verifier::loop_isolation(false)]
fn app_rest_at(cs: &Vec<char>, p: usize, fuel: usize, acc: Spanned<Expr>) -> (r: (Spanned<Expr>, usize))
    requires
        p <= cs@.len(),
        fits(cs),
    ensures
        app_rest(cs@, p as int, fuel as nat, acc@) == (r.0@, r.1 as int),
        p <= r.1 <= cs@.len(),
    decreases fuel,
{
    let ghost p0 = p;
    let ghost a0 = acc@;
    let mut acc = acc;
    let mut p = p;
    let mut f = fuel;
    while f > 0
        invariant
            p0 <= p <= cs@.len(),
            fits(cs),
            f <= fuel,
            app_rest(cs@, p0 as int, fuel as nat, a0) == app_rest(cs@, p as int, f as nat, acc@),
        decreases f,
    {
        let a = skip_ws_at(cs, p);
        if !is_char_at(cs, a, '(') {
            return (acc, p);
        }
        let (args, ae) = expr_list_at(cs, skip_ws_at(cs, a + 1), f - 1);
        let c = skip_ws_at(cs, ae);
        if !is_char_at(cs, c, ')') {
            return (acc, p);
        }
        acc = if args.len() == 0 {
            acc
        } else {
            let span = acc.span;
            let n = Spanned::new(Expr::App(Box::new(acc), args), span);
            assert(n@.expr->App_1 =~= node_models(args@));
            n
        };
        p = skip_ws_at(cs, c + 1);
        f = f - 1;
    }
    (acc, p)
}

/// A projection at `p` (see `proj_expr`).
fn proj_expr_at(cs: &Vec<char>, p: usize, fuel: usize) -> (r: Option<(Spanned<Expr>, usize)>)
    requires
        p <= cs@.len(),
        fits(cs),
    ensures
        agrees(r, proj_expr(cs@, p as int, fuel as nat)),
        r matches Some((_, e)) ==> p <= e <= cs@.len(),
    decreases fuel,
{
    if fuel == 0 {
        return None;
    }
    match atom_at(cs, p, fuel - 1) {
        None => None,
        Some((x, q)) => Some(proj_rest_at(cs, q, fuel - 1, x)),
    }
}

/// The `.field` parts at `p` (see `proj_rest`).
#[verifier::loop_isolation(false)]
fn proj_rest_at(cs: &Vec<char>, p: usize, fuel: usize, acc: Spanned<Expr>) -> (r: (Spanned<Expr>, usize))
    requires
        p <= cs@.len(),
        fits(cs),
    ensures
        proj_rest(cs@, p as int, fuel as nat, acc@) == (r.0@, r.1 as int),
        p <= r.1 <= cs@.len(),
{
    let ghost p0 = p;
    let ghost a0 = acc@;
    let mut acc = acc;
    let mut p = p;
    let mut f = fuel;
    while f > 0
        invariant
            p0 <= p <= cs@.len(),
            fits(cs),
            proj_rest(cs@, p0 as int, fuel as nat, a0) == proj_rest(cs@, p as int, f as nat, acc@),
        decreases f,
    {
        if !is_char_at(cs, p, '.') {
            return (acc, p);
        }
        match ident_at(cs, p + 1) {
            Some((n, e)) => {
                let span = acc.span;
                acc = Spanned::new(Expr::Project(Box::new(acc), n), span);
                p = e;
                f = f - 1;
            }
            None => {
                return (acc, p);
            }
        }
    }
    (acc, p)
}

/// An atom at `p` (see `atom`).
fn atom_at(cs: &Vec<char>, p: usize, fuel: usize) -> (r: Option<(Spanned<Expr>, usize)>)
    requires
        p <= cs@.len(),
        fits(cs),
    ensures
        agrees(r, atom(cs@, p as int, fuel as nat)),
        r matches Some((_, e)) ==> p <= e <= cs@.len(),
    decreases fuel,
{
    if fuel == 0 {
        return None;
    }
    match atom_choice_at(cs, skip_ws_at(cs, p), fuel - 1) {
        Some((x, e)) => Some((x, skip_ws_at(cs, e))),
        None => None,
    }
}

/// The first kind of atom that reads at `p` (see `atom_choice`).
fn atom_choice_at(cs: &Vec<char>, p: usize, fuel: usize) -> (r: Option<(Spanned<Expr>, usize)>)
    requires
        p <= cs@.len(),
        fits(cs),
    ensures
        agrees(r, atom_choice(cs@, p as int, fuel as nat)),
        r matches Some((_, e)) ==> p <= e <= cs@.len(),
    decreases fuel,
{
    if fuel == 0 {
        return None;
    }
    if let Some(r) = let_expr_at(cs, p, fuel - 1) {
        return Some(r);
    }
    if let Some(r) = if_expr_at(cs, p, fuel - 1) {
        return Some(r);
    }
    if let Some(r) = match_expr_at(cs, p, fuel - 1) {
        return Some(r);
    }
    if let Some(r) = lambda_expr_at(cs, p, fuel - 1) {
        return Some(r);
    }
    if let Some(r) = variant_expr_at(cs, p, fuel - 1) {
        return Some(r);
    }
    if let Some(r) = record_expr_at(cs, p, fuel - 1) {
        return Some(r);
    }
    if let Some(r) = array_expr_at(cs, p, fuel - 1) {
        return Some(r);
    }
    if let Some((l, e)) = literal_at(cs, p) {
        return Some((Spanned::new(Expr::Lit(l), Span::new(p, e)), e));
    }
    if let Some(r) = paren_expr_at(cs, p, fuel - 1) {
        return Some(r);
    }
    match ident_at(cs, p) {
        Some((n, e)) => Some((Spanned::new(Expr::Var(n), Span::new(p, e)), e)),
        None => None,
    }
}

/// A `let` expression at `p` (see `let_expr`).
fn let_expr_at(cs: &Vec<char>, p: usize, fuel: usize) -> (r: Option<(Spanned<Expr>, usize)>)
    requires
        p <= cs@.len(),
        fits(cs),
    ensures
        agrees(r, let_expr(cs@, p as int, fuel as nat)),
        r matches Some((_, e)) ==> p <= e <= cs@.len(),
    decreases fuel,
{
    if fuel == 0 {
        return None;
    }
    let a = skip_ws_at(cs, p);
    let a2 = match match_text(cs, a, "let") {
        Some(x) => x,
        None => {
            return None;
        }
    };
    let (n, e) = match ident_at(cs, skip_ws_at(cs, skip_ws_at(cs, a2))) {
        Some(x) => x,
        None => {
            return None;
        }
    };
    let c = skip_ws_at(cs, skip_ws_at(cs, e));
    if !is_char_at(cs, c, '=') {
        return None;
    }
    let (v, e2) = match expr_at(cs, skip_ws_at(cs, c + 1), fuel - 1) {
        Some(x) => x,
        None => {
            return None;
        }
    };
    let d = skip_ws_at(cs, e2);
    let d2 = match match_text(cs, d, "in") {
        Some(x) => x,
        None => {
            return None;
        }
    };
    match expr_at(cs, skip_ws_at(cs, d2), fuel - 1) {
        Some((b, e3)) => Some((Spanned::new(Expr::Let(n, Box::new(v), Box::new(b)), Span::new(p, e3)), e3)),
        None => None,
    }
}

/// An `if` expression at `p` (see `if_expr`).
#[verifier::spinoff_prover]
#[verifier::rlimit(40)]
fn if_expr_at(cs: &Vec<char>, p: usize, fuel: usize) -> (r: Option<(Spanned<Expr>, usize)>)
    requires
        p <= cs@.len(),
        fits(cs),
    ensures
        agrees(r, if_expr(cs@, p as int, fuel as nat)),
        r matches Some((_, e)) ==> p <= e <= cs@.len(),
    decreases fuel,
{
    if fuel == 0 {
        return None;
    }
    let a = skip_ws_at(cs, p);
    let a2 = match match_text(cs, a, "if") {
        Some(x) => x,
        None => {
            return None;
        }
    };
    let (c, e1) = match expr_at(cs, skip_ws_at(cs, a2), fuel - 1) {
        Some(x) => x,
        None => {
            return None;
        }
    };
    let t = skip_ws_at(cs, e1);
    let t2 = match match_text(cs, t, "then") {
        Some(x) => x,
        None => {
            return None;
        }
    };
    let (x, e2) = match expr_at(cs, skip_ws_at(cs, t2), fuel - 1) {
        Some(x) => x,
        None => {
            return None;
        }
    };
    let u = skip_ws_at(cs, e2);
    let u2 = match match_text(cs, u, "else") {
        Some(x) => x,
        None => {
            return None;
        }
    };
    match expr_at(cs, skip_ws_at(cs, u2), fuel - 1) {
        Some((y, e3)) => Some((
            Spanned::new(Expr::If(Box::new(c), Box::new(x), Box::new(y)), Span::new(p, e3)),
            e3,
        )),
        None => None,
    }
}

/// A match arm at `p` (see `arm`).
fn arm_at(cs: &Vec<char>, p: usize, fuel: usize) -> (r: Option<(MatchArm, usize)>)
    requires
        p <= cs@.len(),
        fits(cs),
    ensures
        match arm(cs@, p as int, fuel as nat) {
            Some((m, q)) => r matches Some((x, e)) && x.arm_model() == m && e as int == q,
            None => r is None,
        },
        r matches Some((_, e)) ==> p <= e <= cs@.len(),
    decreases fuel,
{
    if fuel == 0 {
        return None;
    }
    let (pt, e) = match pat_at(cs, skip_ws_at(cs, p), fuel - 1) {
        Some(x) => x,
        None => {
            return None;
        }
    };
    let c = skip_ws_at(cs, skip_ws_at(cs, e));
    let c2 = match match_text(cs, c, "->") {
        Some(x) => x,
        None => {
            return None;
        }
    };
    match expr_at(cs, skip_ws_at(cs, c2), fuel - 1) {
        Some((b, e2)) => Some((MatchArm { pattern: pt, guard: None, body: b }, e2)),
        None => None,
    }
}

/// The match arms after the first at `p` (see `arms_rest`).
#[verifier::loop_isolation(false)]
fn arms_rest_at(cs: &Vec<char>, p: usize, fuel: usize, acc: Vec<MatchArm>) -> (r: (Vec<MatchArm>, usize))
    requires
        p <= cs@.len(),
        fits(cs),
    ensures
        arms_rest(cs@, p as int, fuel as nat, arm_models(acc@)) == (arm_models(r.0@), r.1 as int),
        p <= r.1 <= cs@.len(),
    decreases fuel,
{
    let ghost p0 = p;
    let ghost a0 = arm_models(acc@);
    let mut acc = acc;
    let mut p = p;
    let mut f = fuel;
    while f > 0
        invariant
            p0 <= p <= cs@.len(),
            fits(cs),
            f <= fuel,
            arms_rest(cs@, p0 as int, fuel as nat, a0) == arms_rest(cs@, p as int, f as nat, arm_models(acc@)),
        decreases f,
    {
        let a = skip_ws_at(cs, p);
        if !is_char_at(cs, a, ',') {
            return (acc, p);
        }
        let b = skip_ws_at(cs, a + 1);
        match arm_at(cs, b, f - 1) {
            Some((x, e)) => {
                let ghost m0 = arm_models(acc@);
                let ghost xv = x.arm_model();
                acc.push(x);
                assert(arm_models(acc@) =~= m0.push(xv));
                p = e;
                f = f - 1;
            }
            None => {
                return (acc, b);
            }
        }
    }
    (acc, p)
}

/// A list of match arms at `p` (see `arms`).
fn arms_at(cs: &Vec<char>, p: usize, fuel: usize) -> (r: (Vec<MatchArm>, usize))
    requires
        p <= cs@.len(),
        fits(cs),
    ensures
        arms(cs@, p as int, fuel as nat) == (arm_models(r.0@), r.1 as int),
        p <= r.1 <= cs@.len(),
    decreases fuel,
{
    let v: Vec<MatchArm> = Vec::new();
    assert(arm_models(v@) =~= Seq::<SArm>::empty());
    if fuel == 0 {
        return (v, p);
    }
    match arm_at(cs, p, fuel - 1) {
        None => (v, p),
        Some((x, e)) => {
            let ghost xv = x.arm_model();
            let v = vec![x];
            assert(arm_models(v@) =~= seq![xv]);
            arms_rest_at(cs, e, fuel - 1, v)
        }
    }
}

/// A `match` expression at `p` (see `match_expr`).
fn match_expr_at(cs: &Vec<char>, p: usize, fuel: usize) -> (r: Option<(Spanned<Expr>, usize)>)
    requires
        p <= cs@.len(),
        fits(cs),
    ensures
        agrees(r, match_expr(cs@, p as int, fuel as nat)),
        r matches Some((_, e)) ==> p <= e <= cs@.len(),
    decreases fuel,
{
    if fuel == 0 {
        return None;
    }
    let a = skip_ws_at(cs, p);
    let a2 = match match_text(cs, a, "match") {
        Some(x) => x,
        None => {
            return None;
        }
    };
    let (x, e1) = match expr_at(cs, skip_ws_at(cs, a2), fuel - 1) {
        Some(x) => x,
        None => {
            return None;
        }
    };
    let b = skip_ws_at(cs, e1);
    if !is_char_at(cs, b, '{') {
        return None;
    }
    let (ar, ae) = arms_at(cs, skip_ws_at(cs, b + 1), fuel - 1);
    let c = skip_ws_at(cs, ae);
    if !is_char_at(cs, c, '}') {
        return None;
    }
    let e = skip_ws_at(cs, c + 1);
    let n = Spanned::new(Expr::Match(Box::new(x), ar), Span::new(p, e));
    assert(n@.expr->Match_1 =~= arm_models(ar@));
    Some((n, e))
}

/// The lambda parameters after the first at `p` (see `params_rest`).
#[verifier::loop_isolation(false)]
pub(crate) fn params_rest_at(cs: &Vec<char>, p: usize, fuel: usize, acc: Vec<String>) -> (r: (Vec<String>, usize))
    requires
        p <= cs@.len(),
        fits(cs),
    ensures
        params_rest(cs@, p as int, fuel as nat, names_of(acc@)) == (names_of(r.0@), r.1 as int),
        p <= r.1 <= cs@.len(),
{
    let ghost p0 = p;
    let ghost a0 = names_of(acc@);
    let mut acc = acc;
    let mut p = p;
    let mut f = fuel;
    while f > 0
        invariant
            p0 <= p <= cs@.len(),
            fits(cs),
            params_rest(cs@, p0 as int, fuel as nat, a0) == params_rest(cs@, p as int, f as nat, names_of(acc@)),
        decreases f,
    {
        match ident_at(cs, skip_ws_at(cs, p)) {
            Some((n, e)) => {
                let ghost m0 = names_of(acc@);
                let ghost nv = n@;
                acc.push(n);
                assert(names_of(acc@) =~= m0.push(nv));
                p = skip_ws_at(cs, e);
                f = f - 1;
            }
            None => {
                return (acc, p);
            }
        }
    }
    (acc, p)
}

/// A lambda at `p` (see `lambda_expr`).
fn lambda_expr_at(cs: &Vec<char>, p: usize, fuel: usize) -> (r: Option<(Spanned<Expr>, usize)>)
    requires
        p <= cs@.len(),
        fits(cs),
    ensures
        agrees(r, lambda_expr(cs@, p as int, fuel as nat)),
        r matches Some((_, e)) ==> p <= e <= cs@.len(),
    decreases fuel,
{
    if fuel == 0 {
        return None;
    }
    let a = skip_ws_at(cs, p);
    if !is_char_at(cs, a, '\\') {
        return None;
    }
    let (n, e) = match ident_at(cs, skip_ws_at(cs, skip_ws_at(cs, a + 1))) {
        Some(x) => x,
        None => {
            return None;
        }
    };
    let ghost nv = n@;
    let first = vec![n];
    assert(names_of(first@) =~= seq![nv]);
    let (ps, pe) = params_rest_at(cs, skip_ws_at(cs, e), fuel - 1, first);
    let c = skip_ws_at(cs, pe);
    let c2 = match match_text(cs, c, "->") {
        Some(x) => x,
        None => {
            return None;
        }
    };
    match expr_at(cs, skip_ws_at(cs, c2), fuel - 1) {
        Some((b, e2)) => Some((Spanned::new(Expr::Lambda(ps, Box::new(b)), Span::new(p, e2)), e2)),
        None => None,
    }
}

/// A variant at `p` (see `variant_expr`).
fn variant_expr_at(cs: &Vec<char>, p: usize, fuel: usize) -> (r: Option<(Spanned<Expr>, usize)>)
    requires
        p <= cs@.len(),
        fits(cs),
    ensures
        agrees(r, variant_expr(cs@, p as int, fuel as nat)),
        r matches Some((_, e)) ==> p <= e <= cs@.len(),
    decreases fuel,
{
    if fuel == 0 {
        return None;
    }
    let a = skip_ws_at(cs, p);
    if !is_char_at(cs, a, '|') {
        return None;
    }
    let (n, e) = match upper_ident_at(cs, skip_ws_at(cs, a + 1)) {
        Some(x) => x,
        None => {
            return None;
        }
    };
    let b = skip_ws_at(cs, e);
    let inner = expr_at(cs, b, fuel - 1);
    let ghost spec_inner = expr(cs@, b as int, (fuel - 1) as nat);
    let (x, after) = match inner {
        Some((x, e2)) => (x, e2),
        None => (Spanned::dummy(Expr::Lit(Literal::Unit)), b),
    };
    assert(after as int == match spec_inner {
        Some((_, e2)) => e2,
        None => b as int,
    });
    assert(x@ == match spec_inner {
        Some((x, _)) => x,
        None => node(SExpr::Lit(SLit::Unit), 0, 0),
    });
    let c = skip_ws_at(cs, after);
    if !is_char_at(cs, c, '|') {
        return None;
    }
    let end = skip_ws_at(cs, c + 1);
    Some((Spanned::new(Expr::MkVariant(n, Box::new(x)), Span::new(p, end)), end))
}

/// A record field at `p` (see `rec_field`).
fn rec_field_at(cs: &Vec<char>, p: usize, fuel: usize) -> (r: Option<((String, Spanned<Expr>), usize)>)
    requires
        p <= cs@.len(),
        fits(cs),
    ensures
        match rec_field(cs@, p as int, fuel as nat) {
            Some((f, q)) => r matches Some((x, e)) && x.0@ == f.0 && x.1@ == f.1 && e as int == q,
            None => r is None,
        },
        r matches Some((_, e)) ==> p <= e <= cs@.len(),
    decreases fuel,
{
    if fuel == 0 {
        return None;
    }
    let (n, e) = match ident_at(cs, skip_ws_at(cs, p)) {
        Some(x) => x,
        None => {
            return None;
        }
    };
    let c = skip_ws_at(cs, skip_ws_at(cs, e));
    if !is_char_at(cs, c, '=') {
        return None;
    }
    match expr_at(cs, skip_ws_at(cs, c + 1), fuel - 1) {
        Some((x, e2)) => Some(((n, x), e2)),
        None => None,
    }
}

/// The record fields after the first at `p` (see `rec_fields_rest`).
#[verifier::loop_isolation(false)]
fn rec_fields_rest_at(cs: &Vec<char>, p: usize, fuel: usize, acc: Vec<(String, Spanned<Expr>)>) -> (r: (Vec<(String, Spanned<Expr>)>, usize))
    requires
        p <= cs@.len(),
        fits(cs),
    ensures
        rec_fields_rest(cs@, p as int, fuel as nat, model_entries(acc@)) == (model_entries(r.0@), r.1 as int),
        p <= r.1 <= cs@.len(),
    decreases fuel,
{
    let ghost p0 = p;
    let ghost a0 = model_entries(acc@);
    let mut acc = acc;
    let mut p = p;
    let mut f = fuel;
    while f > 0
        invariant
            p0 <= p <= cs@.len(),
            fits(cs),
            f <= fuel,
            rec_fields_rest(cs@, p0 as int, fuel as nat, a0) == rec_fields_rest(cs@, p as int, f as nat, model_entries(acc@)),
        decreases f,
    {
        let a = skip_ws_at(cs, p);
        if !is_char_at(cs, a, ',') {
            return (acc, p);
        }
        let b = skip_ws_at(cs, a + 1);
        match rec_field_at(cs, b, f - 1) {
            Some((x, e)) => {
                let ghost m0 = model_entries(acc@);
                let ghost xv = (x.0@, x.1@);
                acc.push(x);
                assert(model_entries(acc@) =~= m0.push(xv));
                p = e;
                f = f - 1;
            }
            None => {
                return (acc, b);
            }
        }
    }
    (acc, p)
}

/// A list of record fields at `p` (see `rec_fields`).
fn rec_fields_at(cs: &Vec<char>, p: usize, fuel: usize) -> (r: (Vec<(String, Spanned<Expr>)>, usize))
    requires
        p <= cs@.len(),
        fits(cs),
    ensures
        rec_fields(cs@, p as int, fuel as nat) == (model_entries(r.0@), r.1 as int),
        p <= r.1 <= cs@.len(),
    decreases fuel,
{
    let v: Vec<(String, Spanned<Expr>)> = Vec::new();
    assert(model_entries(v@) =~= Seq::<(Seq<char>, SNode)>::empty());
    if fuel == 0 {
        return (v, p);
    }
    match rec_field_at(cs, p, fuel - 1) {
        None => (v, p),
        Some((f, e)) => {
            let ghost fv = (f.0@, f.1@);
            let v = vec![f];
            assert(model_entries(v@) =~= seq![fv]);
            rec_fields_rest_at(cs, e, fuel - 1, v)
        }
    }
}

/// A record at `p` (see `record_expr`).
fn record_expr_at(cs: &Vec<char>, p: usize, fuel: usize) -> (r: Option<(Spanned<Expr>, usize)>)
    requires
        p <= cs@.len(),
        fits(cs),
    ensures
        agrees(r, record_expr(cs@, p as int, fuel as nat)),
        r matches Some((_, e)) ==> p <= e <= cs@.len(),
    decreases fuel,
{
    if fuel == 0 {
        return None;
    }
    let a = skip_ws_at(cs, p);
    if !is_char_at(cs, a, '{') {
        return None;
    }
    let (fields, fe) = rec_fields_at(cs, skip_ws_at(cs, a + 1), fuel - 1);
    let c = skip_ws_at(cs, fe);
    if !is_char_at(cs, c, '}') {
        return None;
    }
    let e = skip_ws_at(cs, c + 1);
    let m = name_map_from(fields);
    let n = Spanned::new(Expr::MkRecord(m), Span::new(p, e));
    assert(n@.expr->MkRecord_0 =~= model_entries(m.entries@));
    Some((n, e))
}

/// The expressions of a list after the first at `p` (see
/// `expr_list_rest`).
#[verifier::loop_isolation(false)]
fn expr_list_rest_at(cs: &Vec<char>, p: usize, fuel: usize, acc: Vec<Spanned<Expr>>) -> (r: (Vec<Spanned<Expr>>, usize))
    requires
        p <= cs@.len(),
        fits(cs),
    ensures
        expr_list_rest(cs@, p as int, fuel as nat, node_models(acc@)) == (node_models(r.0@), r.1 as int),
        p <= r.1 <= cs@.len(),
    decreases fuel,
{
    let ghost p0 = p;
    let ghost a0 = node_models(acc@);
    let mut acc = acc;
    let mut p = p;
    let mut f = fuel;
    while f > 0
        invariant
            p0 <= p <= cs@.len(),
            fits(cs),
            f <= fuel,
            expr_list_rest(cs@, p0 as int, fuel as nat, a0) == expr_list_rest(cs@, p as int, f as nat, node_models(acc@)),
        decreases f,
    {
        let a = skip_ws_at(cs, p);
        if !is_char_at(cs, a, ',') {
            return (acc, p);
        }
        let b = skip_ws_at(cs, a + 1);
        match expr_at(cs, b, f - 1) {
            Some((x, e)) => {
                let ghost m0 = node_models(acc@);
                let ghost xv = x@;
                acc.push(x);
                assert(node_models(acc@) =~= m0.push(xv));
                p = e;
                f = f - 1;
            }
            None => {
                return (acc, b);
            }
        }
    }
    (acc, p)
}

/// A list of expressions at `p` (see `expr_list`).
fn expr_list_at(cs: &Vec<char>, p: usize, fuel: usize) -> (r: (Vec<Spanned<Expr>>, usize))
    requires
        p <= cs@.len(),
        fits(cs),
    ensures
        expr_list(cs@, p as int, fuel as nat) == (node_models(r.0@), r.1 as int),
        p <= r.1 <= cs@.len(),
    decreases fuel,
{
    let v: Vec<Spanned<Expr>> = Vec::new();
    assert(node_models(v@) =~= Seq::<SNode>::empty());
    if fuel == 0 {
        return (v, p);
    }
    match expr_at(cs, p, fuel - 1) {
        None => (v, p),
        Some((x, e)) => {
            let ghost xv = x@;
            let v = vec![x];
            assert(node_models(v@) =~= seq![xv]);
            expr_list_rest_at(cs, e, fuel - 1, v)
        }
    }
}

/// An array at `p` (see `array_expr`).
fn array_expr_at(cs: &Vec<char>, p: usize, fuel: usize) -> (r: Option<(Spanned<Expr>, usize)>)
    requires
        p <= cs@.len(),
        fits(cs),
    ensures
        agrees(r, array_expr(cs@, p as int, fuel as nat)),
        r matches Some((_, e)) ==> p <= e <= cs@.len(),
    decreases fuel,
{
    if fuel == 0 {
        return None;
    }
    let a = skip_ws_at(cs, p);
    if !is_char_at(cs, a, '[') {
        return None;
    }
    let (es, ee) = expr_list_at(cs, skip_ws_at(cs, a + 1), fuel - 1);
    let c = skip_ws_at(cs, ee);
    if !is_char_at(cs, c, ']') {
        return None;
    }
    let e = skip_ws_at(cs, c + 1);
    let n = Spanned::new(Expr::MkArray(es), Span::new(p, e));
    assert(n@.expr->MkArray_0 =~= node_models(es@));
    Some((n, e))
}

/// A parenthesized expression at `p` (see `paren_expr`).
fn paren_expr_at(cs: &Vec<char>, p: usize, fuel: usize) -> (r: Option<(Spanned<Expr>, usize)>)
    requires
        p <= cs@.len(),
        fits(cs),
    ensures
        agrees(r, paren_expr(cs@, p as int, fuel as nat)),
        r matches Some((_, e)) ==> p <= e <= cs@.len(),
    decreases fuel,
{
    if fuel == 0 {
        return None;
    }
    let a = skip_ws_at(cs, p);
    if !is_char_at(cs, a, '(') {
        return None;
    }
    let (x, e) = match expr_at(cs, skip_ws_at(cs, a + 1), fuel - 1) {
        Some(x) => x,
        None => {
            return None;
        }
    };
    let c = skip_ws_at(cs, e);
    if !is_char_at(cs, c, ')') {
        return None;
    }
    Some((x, skip_ws_at(cs, c + 1)))
}

} // verus!
