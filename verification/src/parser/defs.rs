//! The grammar of module definitions: `let name params = e`,
//! `type Name = T` and `import path`, each with white space around it.

use vstd::prelude::*;
use super::lexical::{agrees, fits, skip_ws, skip_ws_at, lit_at, char_at, is_char_at, match_text, is_alnum,
    char_is_alphanumeric, ident, ident_at, upper_ident, upper_ident_at};
use super::types::{ty, ty_at};
use super::exprs::{expr, expr_at, params_rest, params_rest_at};
use crate::expr::{Definition, SDef, names_of, def_models};
use crate::text::string_from_chars;

verus! {

/// Whether `c` may stand in an import path.
pub open spec fn path_char(c: char) -> bool {
    is_alnum(c) || c == '.' || c == '_'
}

/// The end of the run of path characters from `p`.
pub open spec fn path_end(s: Seq<char>, p: int) -> int
    decreases s.len() - p,
{
    if 0 <= p < s.len() && path_char(s[p]) {
        path_end(s, p + 1)
    } else {
        p
    }
}

/// `let name params = e`: a value when there are no parameters, else a
/// function.
pub open spec fn value_def(s: Seq<char>, p: int, f: nat) -> Option<(SDef, int)> {
    let a = skip_ws(s, p);
    if !lit_at(s, a, "let"@) {
        None
    } else {
        match ident(s, skip_ws(s, skip_ws(s, a + "let"@.len()))) {
            None => None,
            Some((n, e)) => {
                let ps = params_rest(s, skip_ws(s, e), f, Seq::empty());
                let c = skip_ws(s, ps.1);
                if !char_at(s, c, '=') {
                    None
                } else {
                    match expr(s, skip_ws(s, c + 1), f) {
                        None => None,
                        Some((b, e2)) => Some((
                            if ps.0.len() == 0 { SDef::Value(n, b) } else { SDef::Function(n, ps.0, b) },
                            e2,
                        )),
                    }
                }
            },
        }
    }
}

/// `type Name = T`.
pub open spec fn type_alias(s: Seq<char>, p: int, f: nat) -> Option<(SDef, int)> {
    let a = skip_ws(s, p);
    if !lit_at(s, a, "type"@) {
        None
    } else {
        match upper_ident(s, skip_ws(s, skip_ws(s, a + "type"@.len()))) {
            None => None,
            Some((n, e)) => {
                let c = skip_ws(s, skip_ws(s, e));
                if !char_at(s, c, '=') {
                    None
                } else {
                    match ty(s, skip_ws(s, c + 1), f) {
                        None => None,
                        Some((t, e2)) => Some((SDef::TypeAlias(n, t), e2)),
                    }
                }
            },
        }
    }
}

/// `import path`, the path one or more letters, digits, `.` or `_`.
pub open spec fn import_def(s: Seq<char>, p: int) -> Option<(SDef, int)> {
    let a = skip_ws(s, p);
    if !lit_at(s, a, "import"@) {
        None
    } else {
        let b = skip_ws(s, a + "import"@.len());
        let e = path_end(s, b);
        if e > b {
            Some((SDef::Import(s.subrange(b, e)), e))
        } else {
            None
        }
    }
}

/// The first of a value or function, a type alias and an import that
/// reads at `p`.
pub open spec fn definition(s: Seq<char>, p: int, f: nat) -> Option<(SDef, int)> {
    if value_def(s, p, f) is Some {
        value_def(s, p, f)
    } else if type_alias(s, p, f) is Some {
        type_alias(s, p, f)
    } else {
        import_def(s, p)
    }
}

/// The definitions read one after another from `p`, each with white space
/// around it, after those in `acc`; and the position where the first one
/// that does not read would have started.
pub open spec fn defs(s: Seq<char>, p: int, f: nat, acc: Seq<SDef>) -> (Seq<SDef>, int)
    decreases f,
{
    if f == 0 {
        (acc, p)
    } else {
        match definition(s, skip_ws(s, p), (f - 1) as nat) {
            Some((d, e)) => defs(s, skip_ws(s, e), (f - 1) as nat, acc.push(d)),
            None => (acc, p),
        }
    }
}

/// The end of the run of path characters from `p` (see `path_end`).
fn path_end_at(cs: &Vec<char>, p: usize) -> (r: usize)
    requires
        p <= cs@.len(),
    ensures
        r as int == path_end(cs@, p as int),
        p <= r <= cs@.len(),
{
    let mut q = p;
    while q < cs.len() && (char_is_alphanumeric(cs[q]) || cs[q] == '.' || cs[q] == '_')
        invariant
            p <= q <= cs@.len(),
            path_end(cs@, p as int) == path_end(cs@, q as int),
        decreases cs.len() - q,
    {
        q += 1;
    }
    q
}

/// A value or function definition at `p` (see `value_def`).
fn value_def_at(cs: &Vec<char>, p: usize, fuel: usize) -> (r: Option<(Definition, usize)>)
    requires
        p <= cs@.len(),
        fits(cs),
    ensures
        agrees(r, value_def(cs@, p as int, fuel as nat)),
        r matches Some((_, e)) ==> p <= e <= cs@.len(),
{
    let a = skip_ws_at(cs, p);
    let a2 = match match_text(cs, a, "let") {
        Some(x) => x,
        None => {
            return None;
        }
    };
    let (n, e) = match ident_at(cs, skip_ws_at(cs, skip_ws_at(cs, a2))) {
        Some(x) => x,
        None => {
            return None;
        }
    };
    let none: Vec<String> = Vec::new();
    assert(names_of(none@) =~= Seq::<Seq<char>>::empty());
    let (ps, pe) = params_rest_at(cs, skip_ws_at(cs, e), fuel, none);
    let c = skip_ws_at(cs, pe);
    if !is_char_at(cs, c, '=') {
        return None;
    }
    match expr_at(cs, skip_ws_at(cs, c + 1), fuel) {
        None => None,
        Some((b, e2)) => {
            if ps.len() == 0 {
                Some((Definition::Value(n, b), e2))
            } else {
                Some((Definition::Function(n, ps, b), e2))
            }
        }
    }
}

/// A type alias at `p` (see `type_alias`).
fn type_alias_at(cs: &Vec<char>, p: usize, fuel: usize) -> (r: Option<(Definition, usize)>)
    requires
        p <= cs@.len(),
        fits(cs),
    ensures
        agrees(r, type_alias(cs@, p as int, fuel as nat)),
        r matches Some((_, e)) ==> p <= e <= cs@.len(),
{
    let a = skip_ws_at(cs, p);
    let a2 = match match_text(cs, a, "type") {
        Some(x) => x,
        None => {
            return None;
        }
    };
    let (n, e) = match upper_ident_at(cs, skip_ws_at(cs, skip_ws_at(cs, a2))) {
        Some(x) => x,
        None => {
            return None;
        }
    };
    let c = skip_ws_at(cs, skip_ws_at(cs, e));
    if !is_char_at(cs, c, '=') {
        return None;
    }
    match ty_at(cs, skip_ws_at(cs, c + 1), fuel) {
        None => None,
        Some((t, e2)) => Some((Definition::TypeAlias(n, t), e2)),
    }
}

/// An import at `p` (see `import_def`).
fn import_def_at(cs: &Vec<char>, p: usize) -> (r: Option<(Definition, usize)>)
    requires
        p <= cs@.len(),
        fits(cs),
    ensures
        agrees(r, import_def(cs@, p as int)),
        r matches Some((_, e)) ==> p <= e <= cs@.len(),
{
    let a = skip_ws_at(cs, p);
    let a2 = match match_text(cs, a, "import") {
        Some(x) => x,
        None => {
            return None;
        }
    };
    let b = skip_ws_at(cs, a2);
    let e = path_end_at(cs, b);
    if e > b {
        Some((Definition::Import(string_from_chars(cs, b, e)), e))
    } else {
        None
    }
}

/// A definition at `p` (see `definition`).
fn definition_at(cs: &Vec<char>, p: usize, fuel: usize) -> (r: Option<(Definition, usize)>)
    requires
        p <= cs@.len(),
        fits(cs),
    ensures
        agrees(r, definition(cs@, p as int, fuel as nat)),
        r matches Some((_, e)) ==> p <= e <= cs@.len(),
{
    if let Some(r) = value_def_at(cs, p, fuel) {
        return Some(r);
    }
    if let Some(r) = type_alias_at(cs, p, fuel) {
        return Some(r);
    }
    import_def_at(cs, p)
}

/// The definitions read from the start of `cs` (see `defs`).
pub fn defs_at(cs: &Vec<char>, fuel: usize) -> (r: (Vec<Definition>, usize))
    requires
        fits(cs),
    ensures
        defs(cs@, 0, fuel as nat, Seq::empty()) == (def_models(r.0@), r.1 as int),
        r.1 <= cs@.len(),
{
    let mut acc: Vec<Definition> = Vec::new();
    let mut p: usize = 0;
    let mut f: usize = fuel;
    assert(def_models(acc@) =~= Seq::<SDef>::empty());
    while f > 0
        invariant
            p <= cs@.len(),
            fits(cs),
            defs(cs@, 0, fuel as nat, Seq::empty()) == defs(cs@, p as int, f as nat, def_models(acc@)),
        decreases f,
    {
        match definition_at(cs, skip_ws_at(cs, p), f - 1) {
            Some((d, e)) => {
                let ghost m0 = def_models(acc@);
                let ghost dv = d@;
                acc.push(d);
                assert(def_models(acc@) =~= m0.push(dv));
                p = skip_ws_at(cs, e);
                f -= 1;
            }
            None => {
                return (acc, p);
            }
        }
    }
    (acc, p)
}

} // verus!
