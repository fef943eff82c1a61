//! The grammar of types: primitive type names, record types `{x: T, ...}`,
//! array types `[T]` and `[T; n]`, parenthesized types, type variables,
//! and function types `T -> U` (to the right).
//!
//! The grammar functions take a `fuel` bound on their nesting, which every
//! step down (and every further list element) uses one unit of; the parser
//! runs them with `usize::MAX`.

use vstd::prelude::*;
use super::lexical::{agrees, fits, skip_ws, skip_ws_at, lit_at, char_at, ident, ident_at, match_text, is_char_at,
    digits_end, digits_end_at};
use crate::text::{is_digit, digits_value, all_digits, lemma_digits_value_grows};
use crate::name_map::{NameMap, fields_from, insert_field, model_entries, lemma_insert_entry_model};
use crate::types::MonoType;
use crate::types::model::SType;

verus! {

/// A primitive type name at `p` (the first of `()`, `bool`, `char`,
/// `byte`, `short`, `int128`, `int`, `long`, `float`, `double`, `str`
/// that stands there).
pub open spec fn prim_type(s: Seq<char>, p: int) -> Option<(SType, int)> {
    if lit_at(s, p, "()"@) {
        Some((SType::Unit, p + "()"@.len()))
    } else if lit_at(s, p, "bool"@) {
        Some((SType::Bool, p + "bool"@.len()))
    } else if lit_at(s, p, "char"@) {
        Some((SType::Char, p + "char"@.len()))
    } else if lit_at(s, p, "byte"@) {
        Some((SType::Byte, p + "byte"@.len()))
    } else if lit_at(s, p, "short"@) {
        Some((SType::Short, p + "short"@.len()))
    } else if lit_at(s, p, "int128"@) {
        Some((SType::Int128, p + "int128"@.len()))
    } else if lit_at(s, p, "int"@) {
        Some((SType::Int, p + "int"@.len()))
    } else if lit_at(s, p, "long"@) {
        Some((SType::Long, p + "long"@.len()))
    } else if lit_at(s, p, "float"@) {
        Some((SType::Float, p + "float"@.len()))
    } else if lit_at(s, p, "double"@) {
        Some((SType::Double, p + "double"@.len()))
    } else if lit_at(s, p, "str"@) {
        Some((SType::Str, p + "str"@.len()))
    } else {
        None
    }
}

/// A type: an atom (with white space around it), optionally followed by
/// `->` and the result type.
pub open spec fn ty(s: Seq<char>, p: int, fuel: nat) -> Option<(SType, int)>
    decreases fuel, 0nat,
{
    if fuel == 0 {
        None
    } else {
        match atom_type(s, skip_ws(s, p), (fuel - 1) as nat) {
            None => None,
            Some((param, e)) => {
                let q = skip_ws(s, e);
                let a = skip_ws(s, q);
                let ret = if lit_at(s, a, "->"@) {
                    ty(s, skip_ws(s, a + "->"@.len()), (fuel - 1) as nat)
                } else {
                    None
                };
                match ret {
                    Some((r, e2)) => Some((SType::Func(seq![param], Box::new(r)), e2)),
                    None => Some((param, q)),
                }
            },
        }
    }
}

/// An atomic type: a primitive, record, array or parenthesized type, or a
/// type variable, tried in that order.
pub open spec fn atom_type(s: Seq<char>, p: int, fuel: nat) -> Option<(SType, int)>
    decreases fuel, 1nat,
{
    if fuel == 0 {
        None
    } else if prim_type(s, p) is Some {
        prim_type(s, p)
    } else if record_type(s, p, (fuel - 1) as nat) is Some {
        record_type(s, p, (fuel - 1) as nat)
    } else if array_type(s, p, (fuel - 1) as nat) is Some {
        array_type(s, p, (fuel - 1) as nat)
    } else if paren_type(s, p, (fuel - 1) as nat) is Some {
        paren_type(s, p, (fuel - 1) as nat)
    } else {
        match ident(s, p) {
            Some((n, e)) => Some((SType::TVar(n), e)),
            None => None,
        }
    }
}

/// A record field type: `name : T`, with white space around the name and
/// the colon.
pub open spec fn type_field(s: Seq<char>, p: int, fuel: nat) -> Option<((Seq<char>, SType), int)>
    decreases fuel, 2nat,
{
    if fuel == 0 {
        None
    } else {
        match ident(s, skip_ws(s, p)) {
            None => None,
            Some((n, e)) => {
                let c = skip_ws(s, skip_ws(s, e));
                if char_at(s, c, ':') {
                    match ty(s, skip_ws(s, c + 1), (fuel - 1) as nat) {
                        Some((t, e2)) => Some(((n, t), e2)),
                        None => None,
                    }
                } else {
                    None
                }
            },
        }
    }
}

/// The record fields after the first: each after a `,`; a `,` with no
/// field after it ends the list.
pub open spec fn type_fields_rest(s: Seq<char>, p: int, fuel: nat, acc: Seq<(Seq<char>, SType)>) -> (Seq<(Seq<char>, SType)>, int)
    decreases fuel, 3nat,
{
    if fuel == 0 {
        (acc, p)
    } else {
        let a = skip_ws(s, p);
        if char_at(s, a, ',') {
            let b = skip_ws(s, a + 1);
            match type_field(s, b, (fuel - 1) as nat) {
                Some((f, e)) => type_fields_rest(s, e, (fuel - 1) as nat, acc.push(f)),
                None => (acc, b),
            }
        } else {
            (acc, p)
        }
    }
}

/// A comma-separated list of record fields, possibly empty.
pub open spec fn type_fields(s: Seq<char>, p: int, fuel: nat) -> (Seq<(Seq<char>, SType)>, int)
    decreases fuel, 4nat,
{
    if fuel == 0 {
        (Seq::empty(), p)
    } else {
        match type_field(s, p, (fuel - 1) as nat) {
            None => (Seq::empty(), p),
            Some((f, e)) => type_fields_rest(s, e, (fuel - 1) as nat, seq![f]),
        }
    }
}

/// A record type `{ fields }`; a field named twice keeps its last type.
pub open spec fn record_type(s: Seq<char>, p: int, fuel: nat) -> Option<(SType, int)>
    decreases fuel, 5nat,
{
    if fuel == 0 {
        None
    } else {
        let a = skip_ws(s, p);
        if char_at(s, a, '{') {
            let fs = type_fields(s, skip_ws(s, a + 1), (fuel - 1) as nat);
            let c = skip_ws(s, fs.1);
            if char_at(s, c, '}') {
                Some((SType::Record(fields_from(fs.0)), skip_ws(s, c + 1)))
            } else {
                None
            }
        } else {
            None
        }
    }
}

/// The length of a fixed-size array type: `;` and digits that fit a
/// `usize`.
pub open spec fn array_size(s: Seq<char>, e: int) -> Option<(usize, int)> {
    let c = skip_ws(s, e);
    if char_at(s, c, ';') {
        let d = skip_ws(s, c + 1);
        let de = digits_end(s, d);
        if de > d && digits_value(s.subrange(d, de)) <= usize::MAX {
            Some((digits_value(s.subrange(d, de)) as usize, de))
        } else {
            None
        }
    } else {
        None
    }
}

/// An array type `[T]`, or `[T; n]` for a fixed size.
pub open spec fn array_type(s: Seq<char>, p: int, fuel: nat) -> Option<(SType, int)>
    decreases fuel, 5nat,
{
    if fuel == 0 {
        None
    } else {
        let a = skip_ws(s, p);
        if char_at(s, a, '[') {
            match ty(s, skip_ws(s, a + 1), (fuel - 1) as nat) {
                None => None,
                Some((elem, e)) => {
                    let after = match array_size(s, e) {
                        Some((_, de)) => de,
                        None => e,
                    };
                    let f = skip_ws(s, after);
                    if char_at(s, f, ']') {
                        let t = match array_size(s, e) {
                            Some((n, _)) => SType::FixedArray(Box::new(elem), n),
                            None => SType::Array(Box::new(elem)),
                        };
                        Some((t, skip_ws(s, f + 1)))
                    } else {
                        None
                    }
                },
            }
        } else {
            None
        }
    }
}

/// A parenthesized type.
pub open spec fn paren_type(s: Seq<char>, p: int, fuel: nat) -> Option<(SType, int)>
    decreases fuel, 5nat,
{
    if fuel == 0 {
        None
    } else {
        let a = skip_ws(s, p);
        if char_at(s, a, '(') {
            match ty(s, skip_ws(s, a + 1), (fuel - 1) as nat) {
                None => None,
                Some((t, e)) => {
                    let c = skip_ws(s, e);
                    if char_at(s, c, ')') {
                        Some((t, skip_ws(s, c + 1)))
                    } else {
                        None
                    }
                },
            }
        } else {
            None
        }
    }
}

/// A primitive type name at `p`.
fn prim_type_at(cs: &Vec<char>, p: usize) -> (r: Option<(MonoType, usize)>)
    requires
        p <= cs@.len(),
        fits(cs),
    ensures
        agrees(r, prim_type(cs@, p as int)),
        r matches Some((_, e)) ==> p <= e <= cs@.len(),
{
    if let Some(e) = match_text(cs, p, "()") { return Some((MonoType::Unit, e)); }
    if let Some(e) = match_text(cs, p, "bool") { return Some((MonoType::Bool, e)); }
    if let Some(e) = match_text(cs, p, "char") { return Some((MonoType::Char, e)); }
    if let Some(e) = match_text(cs, p, "byte") { return Some((MonoType::Byte, e)); }
    if let Some(e) = match_text(cs, p, "short") { return Some((MonoType::Short, e)); }
    if let Some(e) = match_text(cs, p, "int128") { return Some((MonoType::Int128, e)); }
    if let Some(e) = match_text(cs, p, "int") { return Some((MonoType::Int, e)); }
    if let Some(e) = match_text(cs, p, "long") { return Some((MonoType::Long, e)); }
    if let Some(e) = match_text(cs, p, "float") { return Some((MonoType::Float, e)); }
    if let Some(e) = match_text(cs, p, "double") { return Some((MonoType::Double, e)); }
    if let Some(e) = match_text(cs, p, "str") { return Some((MonoType::Str, e)); }
    None
}

/// A type at `p` (see `ty`).
pub fn ty_at(cs: &Vec<char>, p: usize, fuel: usize) -> (r: Option<(MonoType, usize)>)
    requires
        p <= cs@.len(),
        fits(cs),
    ensures
        agrees(r, ty(cs@, p as int, fuel as nat)),
        r matches Some((_, e)) ==> p <= e <= cs@.len(),
    decreases fuel, 0nat,
{
    if fuel == 0 {
        return None;
    }
    let p1 = skip_ws_at(cs, p);
    match atom_type_at(cs, p1, fuel - 1) {
        None => None,
        Some((param, e)) => {
            let q = skip_ws_at(cs, e);
            let a = skip_ws_at(cs, q);
            let ret = match match_text(cs, a, "->") {
                Some(a2) => ty_at(cs, skip_ws_at(cs, a2), fuel - 1),
                None => None,
            };
            match ret {
                Some((r, e2)) => {
                    let ghost pv = param@;
                    let f = MonoType::Func(vec![param], Box::new(r));
                    proof {
                        assert(f@->Func_0 =~= seq![pv]);
                    }
                    Some((f, e2))
                }
                None => Some((param, q)),
            }
        }
    }
}

/// An atomic type at `p` (see `atom_type`).
fn atom_type_at(cs: &Vec<char>, p: usize, fuel: usize) -> (r: Option<(MonoType, usize)>)
    requires
        p <= cs@.len(),
        fits(cs),
    ensures
        agrees(r, atom_type(cs@, p as int, fuel as nat)),
        r matches Some((_, e)) ==> p <= e <= cs@.len(),
    decreases fuel, 1nat,
{
    if fuel == 0 {
        return None;
    }
    if let Some(r) = prim_type_at(cs, p) {
        return Some(r);
    }
    if let Some(r) = record_type_at(cs, p, fuel - 1) {
        return Some(r);
    }
    if let Some(r) = array_type_at(cs, p, fuel - 1) {
        return Some(r);
    }
    if let Some(r) = paren_type_at(cs, p, fuel - 1) {
        return Some(r);
    }
    match ident_at(cs, p) {
        Some((n, e)) => Some((MonoType::TVar(n), e)),
        None => None,
    }
}

/// A record field type at `p` (see `type_field`).
fn type_field_at(cs: &Vec<char>, p: usize, fuel: usize) -> (r: Option<((String, MonoType), usize)>)
    requires
        p <= cs@.len(),
        fits(cs),
    ensures
        match type_field(cs@, p as int, fuel as nat) {
            Some((f, q)) => r matches Some((x, e)) && x.0@ == f.0 && x.1@ == f.1 && e as int == q,
            None => r is None,
        },
        r matches Some((_, e)) ==> p <= e <= cs@.len(),
    decreases fuel, 2nat,
{
    if fuel == 0 {
        return None;
    }
    match ident_at(cs, skip_ws_at(cs, p)) {
        None => None,
        Some((n, e)) => {
            let c = skip_ws_at(cs, skip_ws_at(cs, e));
            if is_char_at(cs, c, ':') {
                match ty_at(cs, skip_ws_at(cs, c + 1), fuel - 1) {
                    Some((t, e2)) => Some(((n, t), e2)),
                    None => None,
                }
            } else {
                None
            }
        }
    }
}

/// The record fields after the first at `p` (see `type_fields_rest`).
#[verifier::loop_isolation(false)]
fn type_fields_rest_at(cs: &Vec<char>, p: usize, fuel: usize, acc: Vec<(String, MonoType)>) -> (r: (Vec<(String, MonoType)>, usize))
    requires
        p <= cs@.len(),
        fits(cs),
    ensures
        type_fields_rest(cs@, p as int, fuel as nat, model_entries(acc@)) == (model_entries(r.0@), r.1 as int),
        p <= r.1 <= cs@.len(),
    decreases fuel, 3nat,
{
    let ghost p0 = p;
    let ghost a0 = model_entries(acc@);
    let mut acc = acc;
    let mut p = p;
    let mut f = fuel;
    while f > 0
        invariant
            p0 <= p <= cs@.len(),
            fits(cs),
            f <= fuel,
            type_fields_rest(cs@, p0 as int, fuel as nat, a0) == type_fields_rest(cs@, p as int, f as nat, model_entries(acc@)),
        decreases f,
    {
        let a = skip_ws_at(cs, p);
        if !is_char_at(cs, a, ',') {
            return (acc, p);
        }
        let b = skip_ws_at(cs, a + 1);
        match type_field_at(cs, b, f - 1) {
            Some((x, e)) => {
                let ghost m0 = model_entries(acc@);
                let ghost xv = (x.0@, x.1@);
                acc.push(x);
                assert(model_entries(acc@) =~= m0.push(xv));
                p = e;
                f = f - 1;
            }
            None => {
                return (acc, b);
            }
        }
    }
    (acc, p)
}

/// A list of record fields at `p` (see `type_fields`).
fn type_fields_at(cs: &Vec<char>, p: usize, fuel: usize) -> (r: (Vec<(String, MonoType)>, usize))
    requires
        p <= cs@.len(),
        fits(cs),
    ensures
        type_fields(cs@, p as int, fuel as nat) == (model_entries(r.0@), r.1 as int),
        p <= r.1 <= cs@.len(),
    decreases fuel, 4nat,
{
    if fuel == 0 {
        let v: Vec<(String, MonoType)> = Vec::new();
        assert(model_entries(v@) =~= Seq::<(Seq<char>, SType)>::empty());
        return (v, p);
    }
    match type_field_at(cs, p, fuel - 1) {
        None => {
            let v: Vec<(String, MonoType)> = Vec::new();
            assert(model_entries(v@) =~= Seq::<(Seq<char>, SType)>::empty());
            (v, p)
        }
        Some((f, e)) => {
            let ghost fv = (f.0@, f.1@);
            let v = vec![f];
            assert(model_entries(v@) =~= seq![fv]);
            type_fields_rest_at(cs, e, fuel - 1, v)
        }
    }
}

/// The name map made by setting each pair in turn.
pub fn name_map_from<V: View>(pairs: Vec<(String, V)>) -> (r: NameMap<V>)
    ensures
        r.wf(),
        model_entries(r.entries@) == fields_from(model_entries(pairs@)),
{
    let mut m: NameMap<V> = NameMap::new();
    let mut rest = pairs;
    let ghost all = pairs@;
    let mut i: usize = 0;
    let n = rest.len();
    proof {
        assert(model_entries(all.take(0)) =~= Seq::<(Seq<char>, V::V)>::empty());
        assert(m.entries@ =~= Seq::<(String, V)>::empty());
        assert(model_entries(m.entries@) =~= Seq::<(Seq<char>, V::V)>::empty());
        assert(rest@ =~= all.skip(0));
    }
    while i < n
        invariant
            i <= n,
            n == all.len(),
            rest@ == all.skip(i as int),
            m.wf(),
            model_entries(m.entries@) == fields_from(model_entries(all.take(i as int))),
        decreases n - i,
    {
        let (k, v) = rest.remove(0);
        proof {
            assert(all.skip(i as int)[0] == all[i as int]);
            assert(rest@ =~= all.skip(i + 1));
            lemma_insert_entry_model(m.entries@, k, v);
            assert(model_entries(all.take(i + 1)).drop_last() =~= model_entries(all.take(i as int)));
            assert(model_entries(all.take(i + 1)).last() == (k@, v@));
        }
        m.insert(k, v);
        i += 1;
    }
    proof {
        assert(all.take(i as int) =~= all);
    }
    m
}

/// A record type at `p` (see `record_type`).
fn record_type_at(cs: &Vec<char>, p: usize, fuel: usize) -> (r: Option<(MonoType, usize)>)
    requires
        p <= cs@.len(),
        fits(cs),
    ensures
        agrees(r, record_type(cs@, p as int, fuel as nat)),
        r matches Some((_, e)) ==> p <= e <= cs@.len(),
    decreases fuel, 5nat,
{
    if fuel == 0 {
        return None;
    }
    let a = skip_ws_at(cs, p);
    if !is_char_at(cs, a, '{') {
        return None;
    }
    let (fields, e) = type_fields_at(cs, skip_ws_at(cs, a + 1), fuel - 1);
    let c = skip_ws_at(cs, e);
    if !is_char_at(cs, c, '}') {
        return None;
    }
    let m = name_map_from(fields);
    let t = MonoType::Record(m);
    proof {
        crate::types::infer::lemma_views_record(t);
        assert(crate::types::infer::fields_model(m) =~= model_entries(m.entries@));
    }
    Some((t, skip_ws_at(cs, c + 1)))
}

/// The length of a fixed-size array type at `e` (see `array_size`).
fn array_size_at(cs: &Vec<char>, e: usize) -> (r: Option<(usize, usize)>)
    requires
        e <= cs@.len(),
        fits(cs),
    ensures
        match array_size(cs@, e as int) {
            Some((n, q)) => r matches Some((m, de)) && m == n && de as int == q,
            None => r is None,
        },
        r matches Some((_, de)) ==> e <= de <= cs@.len(),
{
    let c = skip_ws_at(cs, e);
    if !is_char_at(cs, c, ';') {
        return None;
    }
    let d = skip_ws_at(cs, c + 1);
    let de = digits_end_at(cs, d);
    if de == d {
        return None;
    }
    let mut v: usize = 0;
    let mut i = d;
    while i < de
        invariant
            d <= i <= de <= cs@.len(),
            de > d,
            skip_ws(cs@, e as int) == c as int,
            char_at(cs@, c as int, ';'),
            skip_ws(cs@, c + 1) == d as int,
            digits_end(cs@, d as int) == de as int,
            all_digits(cs@.subrange(d as int, de as int)),
            v == digits_value(cs@.subrange(d as int, i as int)),
        decreases de - i,
    {
        let ghost ds = cs@.subrange(d as int, de as int);
        assert(ds[i - d] == cs@[i as int]);
        let ghost pre = cs@.subrange(d as int, i + 1);
        proof {
            assert(pre.drop_last() =~= cs@.subrange(d as int, i as int));
            assert(pre.last() == cs@[i as int]);
        }
        let digit = (cs[i] as u32 - '0' as u32) as usize;
        if v > (usize::MAX - digit) / 10 {
            proof {
                assert(ds.take(i + 1 - d) =~= pre);
                lemma_digits_value_grows(ds, i + 1 - d);
                assert(digits_value(pre) > usize::MAX) by (nonlinear_arith)
                    requires
                        digits_value(pre) == 10 * v + digit,
                        v > (usize::MAX - digit) / 10,
                        digit <= 9;
            }
            return None;
        }
        v = v * 10 + digit;
        i += 1;
    }
    Some((v, de))
}

/// An array type at `p` (see `array_type`).
fn array_type_at(cs: &Vec<char>, p: usize, fuel: usize) -> (r: Option<(MonoType, usize)>)
    requires
        p <= cs@.len(),
        fits(cs),
    ensures
        agrees(r, array_type(cs@, p as int, fuel as nat)),
        r matches Some((_, e)) ==> p <= e <= cs@.len(),
    decreases fuel, 5nat,
{
    if fuel == 0 {
        return None;
    }
    let a = skip_ws_at(cs, p);
    if !is_char_at(cs, a, '[') {
        return None;
    }
    match ty_at(cs, skip_ws_at(cs, a + 1), fuel - 1) {
        None => None,
        Some((elem, e)) => {
            let size = array_size_at(cs, e);
            let after = match size {
                Some((_, de)) => de,
                None => e,
            };
            let f = skip_ws_at(cs, after);
            if is_char_at(cs, f, ']') {
                let t = match size {
                    Some((n, _)) => MonoType::FixedArray(Box::new(elem), n),
                    None => MonoType::Array(Box::new(elem)),
                };
                Some((t, skip_ws_at(cs, f + 1)))
            } else {
                None
            }
        }
    }
}

/// A parenthesized type at `p` (see `paren_type`).
fn paren_type_at(cs: &Vec<char>, p: usize, fuel: usize) -> (r: Option<(MonoType, usize)>)
    requires
        p <= cs@.len(),
        fits(cs),
    ensures
        agrees(r, paren_type(cs@, p as int, fuel as nat)),
        r matches Some((_, e)) ==> p <= e <= cs@.len(),
    decreases fuel, 5nat,
{
    if fuel == 0 {
        return None;
    }
    let a = skip_ws_at(cs, p);
    if !is_char_at(cs, a, '(') {
        return None;
    }
    match ty_at(cs, skip_ws_at(cs, a + 1), fuel - 1) {
        None => None,
        Some((t, e)) => {
            let c = skip_ws_at(cs, e);
            if is_char_at(cs, c, ')') {
                Some((t, skip_ws_at(cs, c + 1)))
            } else {
                None
            }
        }
    }
}

} // verus!
