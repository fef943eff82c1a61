//! The grammar of patterns: `_`, literals, variants `|C p|`, records
//! `{x = p, ...}`, arrays `[p, ...]`, parenthesized patterns and tuples,
//! variables, and `p @ name`.

use vstd::prelude::*;
use super::lexical::{agrees, fits, skip_ws, skip_ws_at, char_at, is_char_at, ident, ident_at,
    upper_ident, upper_ident_at, literal, literal_at};
use super::types::name_map_from;
use crate::name_map::{fields_from, model_entries};
use crate::expr::{Pattern, SPattern};

verus! {

/// The models of a list of patterns.
pub open spec fn pattern_models(v: Seq<Pattern>) -> Seq<SPattern> {
    Seq::new(v.len(), |i: int| v[i]@)
}

/// A pattern: a base pattern, optionally followed by `@` and a name.
pub open spec fn pat(s: Seq<char>, p: int, fuel: nat) -> Option<(SPattern, int)>
    decreases fuel, 0nat,
{
    if fuel == 0 {
        None
    } else {
        match base_pat(s, p, (fuel - 1) as nat) {
            None => None,
            Some((b, e)) => {
                let a = skip_ws(s, e);
                if char_at(s, a, '@') {
                    match ident(s, skip_ws(s, a + 1)) {
                        Some((n, e2)) => Some((SPattern::As(Box::new(b), n), e2)),
                        None => Some((b, e)),
                    }
                } else {
                    Some((b, e))
                }
            },
        }
    }
}

/// A base pattern: `_`, a literal, a variant, record, array or
/// parenthesized pattern, or a variable, tried in that order.
pub open spec fn base_pat(s: Seq<char>, p: int, fuel: nat) -> Option<(SPattern, int)>
    decreases fuel, 1nat,
{
    if fuel == 0 {
        None
    } else if char_at(s, p, '_') {
        Some((SPattern::Wildcard, p + 1))
    } else if literal(s, p) is Some {
        match literal(s, p) {
            Some((l, e)) => Some((SPattern::Lit(l), e)),
            None => None,
        }
    } else if variant_pat(s, p, (fuel - 1) as nat) is Some {
        variant_pat(s, p, (fuel - 1) as nat)
    } else if record_pat(s, p, (fuel - 1) as nat) is Some {
        record_pat(s, p, (fuel - 1) as nat)
    } else if array_pat(s, p, (fuel - 1) as nat) is Some {
        array_pat(s, p, (fuel - 1) as nat)
    } else if paren_pat(s, p, (fuel - 1) as nat) is Some {
        paren_pat(s, p, (fuel - 1) as nat)
    } else {
        match ident(s, p) {
            Some((n, e)) => Some((SPattern::Var(n), e)),
            None => None,
        }
    }
}

/// `| Ctor p |`, the inner pattern optional (a wildcard when missing).
pub open spec fn variant_pat(s: Seq<char>, p: int, fuel: nat) -> Option<(SPattern, int)>
    decreases fuel, 2nat,
{
    if fuel == 0 {
        None
    } else {
        let a = skip_ws(s, p);
        if !char_at(s, a, '|') {
            None
        } else {
            match upper_ident(s, skip_ws(s, a + 1)) {
                None => None,
                Some((n, e)) => {
                    let b = skip_ws(s, e);
                    let inner = pat(s, b, (fuel - 1) as nat);
                    let after = match inner {
                        Some((_, e2)) => e2,
                        None => b,
                    };
                    let c = skip_ws(s, after);
                    if char_at(s, c, '|') {
                        let ip = match inner {
                            Some((ip, _)) => ip,
                            None => SPattern::Wildcard,
                        };
                        Some((SPattern::Variant(n, Box::new(ip)), skip_ws(s, c + 1)))
                    } else {
                        None
                    }
                },
            }
        }
    }
}

/// A record pattern field: `name = p`.
pub open spec fn pat_field(s: Seq<char>, p: int, fuel: nat) -> Option<((Seq<char>, SPattern), int)>
    decreases fuel, 2nat,
{
    if fuel == 0 {
        None
    } else {
        match ident(s, skip_ws(s, p)) {
            None => None,
            Some((n, e)) => {
                let c = skip_ws(s, skip_ws(s, e));
                if char_at(s, c, '=') {
                    match pat(s, skip_ws(s, c + 1), (fuel - 1) as nat) {
                        Some((pt, e2)) => Some(((n, pt), e2)),
                        None => None,
                    }
                } else {
                    None
                }
            },
        }
    }
}

/// The record pattern fields after the first, each after a `,`.
pub open spec fn pat_fields_rest(s: Seq<char>, p: int, fuel: nat, acc: Seq<(Seq<char>, SPattern)>) -> (Seq<(Seq<char>, SPattern)>, int)
    decreases fuel, 3nat,
{
    if fuel == 0 {
        (acc, p)
    } else {
        let a = skip_ws(s, p);
        if char_at(s, a, ',') {
            let b = skip_ws(s, a + 1);
            match pat_field(s, b, (fuel - 1) as nat) {
                Some((f, e)) => pat_fields_rest(s, e, (fuel - 1) as nat, acc.push(f)),
                None => (acc, b),
            }
        } else {
            (acc, p)
        }
    }
}

/// A comma-separated list of record pattern fields, possibly empty.
pub open spec fn pat_fields(s: Seq<char>, p: int, fuel: nat) -> (Seq<(Seq<char>, SPattern)>, int)
    decreases fuel, 4nat,
{
    if fuel == 0 {
        (Seq::empty(), p)
    } else {
        match pat_field(s, p, (fuel - 1) as nat) {
            None => (Seq::empty(), p),
            Some((f, e)) => pat_fields_rest(s, e, (fuel - 1) as nat, seq![f]),
        }
    }
}

/// The patterns of a list after the first, each after a `,`.
pub open spec fn pat_list_rest(s: Seq<char>, p: int, fuel: nat, acc: Seq<SPattern>) -> (Seq<SPattern>, int)
    decreases fuel, 3nat,
{
    if fuel == 0 {
        (acc, p)
    } else {
        let a = skip_ws(s, p);
        if char_at(s, a, ',') {
            let b = skip_ws(s, a + 1);
            match pat(s, b, (fuel - 1) as nat) {
                Some((x, e)) => pat_list_rest(s, e, (fuel - 1) as nat, acc.push(x)),
                None => (acc, b),
            }
        } else {
            (acc, p)
        }
    }
}

/// A comma-separated list of patterns, possibly empty.
pub open spec fn pat_list(s: Seq<char>, p: int, fuel: nat) -> (Seq<SPattern>, int)
    decreases fuel, 4nat,
{
    if fuel == 0 {
        (Seq::empty(), p)
    } else {
        match pat(s, p, (fuel - 1) as nat) {
            None => (Seq::empty(), p),
            Some((x, e)) => pat_list_rest(s, e, (fuel - 1) as nat, seq![x]),
        }
    }
}

/// `{ fields }`; a field named twice keeps its last pattern.
pub open spec fn record_pat(s: Seq<char>, p: int, fuel: nat) -> Option<(SPattern, int)>
    decreases fuel, 5nat,
{
    if fuel == 0 {
        None
    } else {
        let a = skip_ws(s, p);
        if char_at(s, a, '{') {
            let fs = pat_fields(s, skip_ws(s, a + 1), (fuel - 1) as nat);
            let c = skip_ws(s, fs.1);
            if char_at(s, c, '}') {
                Some((SPattern::Record(fields_from(fs.0)), skip_ws(s, c + 1)))
            } else {
                None
            }
        } else {
            None
        }
    }
}

/// `[ patterns ]`.
pub open spec fn array_pat(s: Seq<char>, p: int, fuel: nat) -> Option<(SPattern, int)>
    decreases fuel, 5nat,
{
    if fuel == 0 {
        None
    } else {
        let a = skip_ws(s, p);
        if char_at(s, a, '[') {
            let ps = pat_list(s, skip_ws(s, a + 1), (fuel - 1) as nat);
            let c = skip_ws(s, ps.1);
            if char_at(s, c, ']') {
                Some((SPattern::Array(ps.0), skip_ws(s, c + 1)))
            } else {
                None
            }
        } else {
            None
        }
    }
}

/// `( patterns )`: the one pattern itself, or a tuple of the others.
pub open spec fn paren_pat(s: Seq<char>, p: int, fuel: nat) -> Option<(SPattern, int)>
    decreases fuel, 5nat,
{
    if fuel == 0 {
        None
    } else {
        let a = skip_ws(s, p);
        if char_at(s, a, '(') {
            let ps = pat_list(s, skip_ws(s, a + 1), (fuel - 1) as nat);
            let c = skip_ws(s, ps.1);
            if char_at(s, c, ')') {
                let x = if ps.0.len() == 1 { ps.0[0] } else { SPattern::Tuple(ps.0) };
                Some((x, skip_ws(s, c + 1)))
            } else {
                None
            }
        } else {
            None
        }
    }
}

/// A pattern at `p` (see `pat`).
pub fn pat_at(cs: &Vec<char>, p: usize, fuel: usize) -> (r: Option<(Pattern, usize)>)
    requires
        p <= cs@.len(),
        fits(cs),
    ensures
        agrees(r, pat(cs@, p as int, fuel as nat)),
        r matches Some((_, e)) ==> p <= e <= cs@.len(),
    decreases fuel, 0nat,
{
    if fuel == 0 {
        return None;
    }
    match base_pat_at(cs, p, fuel - 1) {
        None => None,
        Some((b, e)) => {
            let a = skip_ws_at(cs, e);
            if is_char_at(cs, a, '@') {
                match ident_at(cs, skip_ws_at(cs, a + 1)) {
                    Some((n, e2)) => Some((Pattern::As(Box::new(b), n), e2)),
                    None => Some((b, e)),
                }
            } else {
                Some((b, e))
            }
        }
    }
}

/// A base pattern at `p` (see `base_pat`).
fn base_pat_at(cs: &Vec<char>, p: usize, fuel: usize) -> (r: Option<(Pattern, usize)>)
    requires
        p <= cs@.len(),
        fits(cs),
    ensures
        agrees(r, base_pat(cs@, p as int, fuel as nat)),
        r matches Some((_, e)) ==> p <= e <= cs@.len(),
    decreases fuel, 1nat,
{
    if fuel == 0 {
        return None;
    }
    if is_char_at(cs, p, '_') {
        return Some((Pattern::Wildcard, p + 1));
    }
    if let Some((l, e)) = literal_at(cs, p) {
        return Some((Pattern::Lit(l), e));
    }
    if let Some(r) = variant_pat_at(cs, p, fuel - 1) {
        return Some(r);
    }
    if let Some(r) = record_pat_at(cs, p, fuel - 1) {
        return Some(r);
    }
    if let Some(r) = array_pat_at(cs, p, fuel - 1) {
        return Some(r);
    }
    if let Some(r) = paren_pat_at(cs, p, fuel - 1) {
        return Some(r);
    }
    match ident_at(cs, p) {
        Some((n, e)) => Some((Pattern::Var(n), e)),
        None => None,
    }
}

/// A variant pattern at `p` (see `variant_pat`).
fn variant_pat_at(cs: &Vec<char>, p: usize, fuel: usize) -> (r: Option<(Pattern, usize)>)
    requires
        p <= cs@.len(),
        fits(cs),
    ensures
        agrees(r, variant_pat(cs@, p as int, fuel as nat)),
        r matches Some((_, e)) ==> p <= e <= cs@.len(),
    decreases fuel, 2nat,
{
    if fuel == 0 {
        return None;
    }
    let a = skip_ws_at(cs, p);
    if !is_char_at(cs, a, '|') {
        return None;
    }
    match upper_ident_at(cs, skip_ws_at(cs, a + 1)) {
        None => None,
        Some((n, e)) => {
            let b = skip_ws_at(cs, e);
            let inner = pat_at(cs, b, fuel - 1);
            let ghost spec_inner = pat(cs@, b as int, (fuel - 1) as nat);
            let (ip, after) = match inner {
                Some((ip, e2)) => (ip, e2),
                None => (Pattern::Wildcard, b),
            };
            assert(after as int == match spec_inner { Some((_, e2)) => e2, None => b as int });
            assert(ip@ == match spec_inner { Some((x, _)) => x, None => SPattern::Wildcard });
            let c = skip_ws_at(cs, after);
            if is_char_at(cs, c, '|') {
                Some((Pattern::Variant(n, Box::new(ip)), skip_ws_at(cs, c + 1)))
            } else {
                None
            }
        }
    }
}

/// A record pattern field at `p` (see `pat_field`).
fn pat_field_at(cs: &Vec<char>, p: usize, fuel: usize) -> (r: Option<((String, Pattern), usize)>)
    requires
        p <= cs@.len(),
        fits(cs),
    ensures
        match pat_field(cs@, p as int, fuel as nat) {
            Some((f, q)) => r matches Some((x, e)) && x.0@ == f.0 && x.1@ == f.1 && e as int == q,
            None => r is None,
        },
        r matches Some((_, e)) ==> p <= e <= cs@.len(),
    decreases fuel, 2nat,
{
    if fuel == 0 {
        return None;
    }
    match ident_at(cs, skip_ws_at(cs, p)) {
        None => None,
        Some((n, e)) => {
            let c = skip_ws_at(cs, skip_ws_at(cs, e));
            if is_char_at(cs, c, '=') {
                match pat_at(cs, skip_ws_at(cs, c + 1), fuel - 1) {
                    Some((pt, e2)) => Some(((n, pt), e2)),
                    None => None,
                }
            } else {
                None
            }
        }
    }
}

/// The record pattern fields after the first at `p` (see
/// `pat_fields_rest`).
#[verifier::loop_isolation(false)]
fn pat_fields_rest_at(cs: &Vec<char>, p: usize, fuel: usize, acc: Vec<(String, Pattern)>) -> (r: (Vec<(String, Pattern)>, usize))
    requires
        p <= cs@.len(),
        fits(cs),
    ensures
        pat_fields_rest(cs@, p as int, fuel as nat, model_entries(acc@)) == (model_entries(r.0@), r.1 as int),
        p <= r.1 <= cs@.len(),
    decreases fuel, 3nat,
{
    let ghost p0 = p;
    let ghost a0 = model_entries(acc@);
    let mut acc = acc;
    let mut p = p;
    let mut f = fuel;
    while f > 0
        invariant
            p0 <= p <= cs@.len(),
            fits(cs),
            f <= fuel,
            pat_fields_rest(cs@, p0 as int, fuel as nat, a0) == pat_fields_rest(cs@, p as int, f as nat, model_entries(acc@)),
        decreases f,
    {
        let a = skip_ws_at(cs, p);
        if !is_char_at(cs, a, ',') {
            return (acc, p);
        }
        let b = skip_ws_at(cs, a + 1);
        match pat_field_at(cs, b, f - 1) {
            Some((x, e)) => {
                let ghost m0 = model_entries(acc@);
                let ghost xv = (x.0@, x.1@);
                acc.push(x);
                assert(model_entries(acc@) =~= m0.push(xv));
                p = e;
                f = f - 1;
            }
            None => {
                return (acc, b);
            }
        }
    }
    (acc, p)
}

/// A list of record pattern fields at `p` (see `pat_fields`).
fn pat_fields_at(cs: &Vec<char>, p: usize, fuel: usize) -> (r: (Vec<(String, Pattern)>, usize))
    requires
        p <= cs@.len(),
        fits(cs),
    ensures
        pat_fields(cs@, p as int, fuel as nat) == (model_entries(r.0@), r.1 as int),
        p <= r.1 <= cs@.len(),
    decreases fuel, 4nat,
{
    if fuel == 0 {
        let v: Vec<(String, Pattern)> = Vec::new();
        assert(model_entries(v@) =~= Seq::<(Seq<char>, SPattern)>::empty());
        return (v, p);
    }
    match pat_field_at(cs, p, fuel - 1) {
        None => {
            let v: Vec<(String, Pattern)> = Vec::new();
            assert(model_entries(v@) =~= Seq::<(Seq<char>, SPattern)>::empty());
            (v, p)
        }
        Some((f, e)) => {
            let ghost fv = (f.0@, f.1@);
            let v = vec![f];
            assert(model_entries(v@) =~= seq![fv]);
            pat_fields_rest_at(cs, e, fuel - 1, v)
        }
    }
}

/// The patterns of a list after the first at `p` (see `pat_list_rest`).
#[verifier::loop_isolation(false)]
fn pat_list_rest_at(cs: &Vec<char>, p: usize, fuel: usize, acc: Vec<Pattern>) -> (r: (Vec<Pattern>, usize))
    requires
        p <= cs@.len(),
        fits(cs),
    ensures
        pat_list_rest(cs@, p as int, fuel as nat, pattern_models(acc@)) == (pattern_models(r.0@), r.1 as int),
        p <= r.1 <= cs@.len(),
    decreases fuel, 3nat,
{
    let ghost p0 = p;
    let ghost a0 = pattern_models(acc@);
    let mut acc = acc;
    let mut p = p;
    let mut f = fuel;
    while f > 0
        invariant
            p0 <= p <= cs@.len(),
            fits(cs),
            f <= fuel,
            pat_list_rest(cs@, p0 as int, fuel as nat, a0) == pat_list_rest(cs@, p as int, f as nat, pattern_models(acc@)),
        decreases f,
    {
        let a = skip_ws_at(cs, p);
        if !is_char_at(cs, a, ',') {
            return (acc, p);
        }
        let b = skip_ws_at(cs, a + 1);
        match pat_at(cs, b, f - 1) {
            Some((x, e)) => {
                let ghost m0 = pattern_models(acc@);
                let ghost xv = x@;
                acc.push(x);
                assert(pattern_models(acc@) =~= m0.push(xv));
                p = e;
                f = f - 1;
            }
            None => {
                return (acc, b);
            }
        }
    }
    (acc, p)
}

/// A list of patterns at `p` (see `pat_list`).
fn pat_list_at(cs: &Vec<char>, p: usize, fuel: usize) -> (r: (Vec<Pattern>, usize))
    requires
        p <= cs@.len(),
        fits(cs),
    ensures
        pat_list(cs@, p as int, fuel as nat) == (pattern_models(r.0@), r.1 as int),
        p <= r.1 <= cs@.len(),
    decreases fuel, 4nat,
{
    if fuel == 0 {
        let v: Vec<Pattern> = Vec::new();
        assert(pattern_models(v@) =~= Seq::<SPattern>::empty());
        return (v, p);
    }
    match pat_at(cs, p, fuel - 1) {
        None => {
            let v: Vec<Pattern> = Vec::new();
            assert(pattern_models(v@) =~= Seq::<SPattern>::empty());
            (v, p)
        }
        Some((x, e)) => {
            let ghost xv = x@;
            let v = vec![x];
            assert(pattern_models(v@) =~= seq![xv]);
            pat_list_rest_at(cs, e, fuel - 1, v)
        }
    }
}

/// A record pattern at `p` (see `record_pat`).
fn record_pat_at(cs: &Vec<char>, p: usize, fuel: usize) -> (r: Option<(Pattern, usize)>)
    requires
        p <= cs@.len(),
        fits(cs),
    ensures
        agrees(r, record_pat(cs@, p as int, fuel as nat)),
        r matches Some((_, e)) ==> p <= e <= cs@.len(),
    decreases fuel, 5nat,
{
    if fuel == 0 {
        return None;
    }
    let a = skip_ws_at(cs, p);
    if !is_char_at(cs, a, '{') {
        return None;
    }
    let (fields, e) = pat_fields_at(cs, skip_ws_at(cs, a + 1), fuel - 1);
    let c = skip_ws_at(cs, e);
    if !is_char_at(cs, c, '}') {
        return None;
    }
    let m = name_map_from(fields);
    let x = Pattern::Record(m);
    proof {
        assert(x@->Record_0 =~= model_entries(m.entries@));
    }
    Some((x, skip_ws_at(cs, c + 1)))
}

/// An array pattern at `p` (see `array_pat`).
fn array_pat_at(cs: &Vec<char>, p: usize, fuel: usize) -> (r: Option<(Pattern, usize)>)
    requires
        p <= cs@.len(),
        fits(cs),
    ensures
        agrees(r, array_pat(cs@, p as int, fuel as nat)),
        r matches Some((_, e)) ==> p <= e <= cs@.len(),
    decreases fuel, 5nat,
{
    if fuel == 0 {
        return None;
    }
    let a = skip_ws_at(cs, p);
    if !is_char_at(cs, a, '[') {
        return None;
    }
    let (ps, e) = pat_list_at(cs, skip_ws_at(cs, a + 1), fuel - 1);
    let c = skip_ws_at(cs, e);
    if !is_char_at(cs, c, ']') {
        return None;
    }
    let x = Pattern::Array(ps);
    proof {
        assert(x@->Array_0 =~= pattern_models(ps@));
    }
    Some((x, skip_ws_at(cs, c + 1)))
}

/// A parenthesized pattern or tuple at `p` (see `paren_pat`).
fn paren_pat_at(cs: &Vec<char>, p: usize, fuel: usize) -> (r: Option<(Pattern, usize)>)
    requires
        p <= cs@.len(),
        fits(cs),
    ensures
        agrees(r, paren_pat(cs@, p as int, fuel as nat)),
        r matches Some((_, e)) ==> p <= e <= cs@.len(),
    decreases fuel, 5nat,
{
    if fuel == 0 {
        return None;
    }
    let a = skip_ws_at(cs, p);
    if !is_char_at(cs, a, '(') {
        return None;
    }
    let (ps, e) = pat_list_at(cs, skip_ws_at(cs, a + 1), fuel - 1);
    let c = skip_ws_at(cs, e);
    if !is_char_at(cs, c, ')') {
        return None;
    }
    let end = skip_ws_at(cs, c + 1);
    if ps.len() == 1 {
        let mut ps = ps;
        let x = ps.pop().unwrap();
        Some((x, end))
    } else {
        let x = Pattern::Tuple(ps);
        proof {
            assert(x@->Tuple_0 =~= pattern_models(ps@));
        }
        Some((x, end))
    }
}

} // verus!
