//! The Calvin grammar: types, patterns, expressions and module
//! definitions, read from text.
//!
//! `parse_expr` and `parse_type` read from the start of the input and
//! leave what follows unread; `parse_module` reads definitions up to the
//! end of the input.

pub mod lexical;
pub mod types;
pub mod patterns;
pub mod exprs;
pub mod defs;
pub mod lexer;

use vstd::prelude::*;
use crate::expr::{Expr, Spanned, SNode, SDef, Module, def_models};
use crate::types::MonoType;
use crate::types::model::SType;
use crate::text::{chars_of, owned, push_str, push_decimal};
use self::exprs::{expr, expr_at};
use self::types::{ty, ty_at};
use self::defs::{defs, defs_at};

verus! {

/// Why a text did not parse: the position (in characters) where the
/// unread part begins.
#[derive(Debug, Clone, Copy, PartialEq, Eq)]
pub struct ParseError {
    pub position: usize,
}

impl ParseError {
    /// The message for this error: `parse error at position N`.
    pub fn to_string(&self) -> (r: String)
        ensures
            r@ == "parse error at position "@ + crate::text::decimal(self.position as nat),
    {
        let mut r = owned("parse error at position ");
        push_decimal(&mut r, self.position as u64);
        r
    }
}

/// The expression read from the start of `s`, and where it ends.
pub open spec fn expr_of(s: Seq<char>) -> Option<(SNode, int)> {
    expr(s, 0, usize::MAX as nat)
}

/// The type read from the start of `s`, and where it ends.
pub open spec fn type_of(s: Seq<char>) -> Option<(SType, int)> {
    ty(s, 0, usize::MAX as nat)
}

/// The definitions read from the start of `s`, and where they stop.
pub open spec fn module_of(s: Seq<char>) -> (Seq<SDef>, int) {
    defs(s, 0, usize::MAX as nat, Seq::empty())
}

/// Parses an expression from the start of `input`.
pub fn parse_expr(input: &str) -> (r: Result<Spanned<Expr>, ParseError>)
    requires
        input@.len() + 8 <= usize::MAX,
    ensures
        match expr_of(input@) {
            Some((n, _)) => r matches Ok(x) && x@ == n,
            None => r matches Err(e) && e.position == 0,
        },
{
    let cs = chars_of(input);
    match expr_at(&cs, 0, usize::MAX) {
        Some((x, _)) => Ok(x),
        None => Err(ParseError { position: 0 }),
    }
}

/// Parses a type from the start of `input`.
pub fn parse_type(input: &str) -> (r: Result<MonoType, ParseError>)
    requires
        input@.len() + 8 <= usize::MAX,
    ensures
        match type_of(input@) {
            Some((t, _)) => r matches Ok(x) && x@ == t,
            None => r matches Err(e) && e.position == 0,
        },
{
    let cs = chars_of(input);
    match ty_at(&cs, 0, usize::MAX) {
        Some((t, _)) => Ok(t),
        None => Err(ParseError { position: 0 }),
    }
}

/// Parses a module named `name`: definitions up to the end of `input`.
pub fn parse_module(name: &str, input: &str) -> (r: Result<Module, ParseError>)
    requires
        input@.len() + 8 <= usize::MAX,
    ensures
        module_of(input@).1 == input@.len() <==> r is Ok,
        r matches Ok(m) ==> m.name@ == name@ && def_models(m.definitions@) == module_of(input@).0,
        r matches Err(e) ==> e.position == module_of(input@).1,
{
    let cs = chars_of(input);
    let (ds, e) = defs_at(&cs, usize::MAX);
    if e == cs.len() {
        Ok(Module { name: owned(name), definitions: ds })
    } else {
        Err(ParseError { position: e })
    }
}

} // verus!
