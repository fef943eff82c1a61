//! The lexical layer of the grammar: white space, fixed text, identifiers
//! and literals.
//!
//! Every parsing function here reads the characters of the input from a
//! position and gives back what it read and the position after it, or
//! nothing when the input there does not match. The `spec` functions state
//! the grammar; each executable function follows the one of the same name.

use vstd::prelude::*;
use crate::text::{is_space, char_is_space, is_digit, digits_value, all_digits, lemma_digits_value_grows,
    chars_of, string_from_chars};
use crate::expr::{Literal, SLit};

verus! {

/// Whether `c` is alphabetic (as `char::is_alphabetic`, by the Unicode
/// tables of the standard library).
pub uninterp spec fn is_alpha(c: char) -> bool;

/// Whether `c` is alphanumeric (as `char::is_alphanumeric`).
pub uninterp spec fn is_alnum(c: char) -> bool;

/// Whether `c` is uppercase (as `char::is_uppercase`).
pub uninterp spec fn is_upper(c: char) -> bool;

/// `char::is_alphabetic`.
#[verifier::external_body]
pub(crate) fn char_is_alphabetic(c: char) -> (r: bool)
    ensures
        r == is_alpha(c),
{
    c.is_alphabetic()
}

/// `char::is_alphanumeric`.
#[verifier::external_body]
pub(crate) fn char_is_alphanumeric(c: char) -> (r: bool)
    ensures
        r == is_alnum(c),
{
    c.is_alphanumeric()
}

/// `char::is_uppercase`.
#[verifier::external_body]
pub(crate) fn char_is_uppercase(c: char) -> (r: bool)
    ensures
        r == is_upper(c),
{
    c.is_uppercase()
}

/// Whether an executable parse result agrees with the grammar's: both
/// fail, or both give the same model and position.
pub open spec fn agrees<X: View>(r: Option<(X, usize)>, g: Option<(X::V, int)>) -> bool {
    match g {
        Some((m, q)) => r matches Some((x, e)) && x@ == m && e as int == q,
        None => r is None,
    }
}

/// The position after the white space from `p`.
pub open spec fn skip_ws(s: Seq<char>, p: int) -> int
    decreases s.len() - p,
{
    if 0 <= p < s.len() && is_space(s[p]) {
        skip_ws(s, p + 1)
    } else {
        p
    }
}

/// Whether the text `t` stands at `p`.
pub open spec fn lit_at(s: Seq<char>, p: int, t: Seq<char>) -> bool {
    0 <= p && p + t.len() <= s.len() && s.subrange(p, p + t.len()) == t
}

/// Whether the character `c` stands at `p`.
pub open spec fn char_at(s: Seq<char>, p: int, c: char) -> bool {
    0 <= p < s.len() && s[p] == c
}

/// The words that are not identifiers.
pub open spec fn is_keyword(n: Seq<char>) -> bool {
    n == "let"@ || n == "in"@ || n == "if"@ || n == "then"@ || n == "else"@ || n == "match"@
        || n == "with"@ || n == "fn"@ || n == "true"@ || n == "false"@ || n == "do"@ || n == "type"@
        || n == "class"@ || n == "instance"@ || n == "data"@ || n == "import"@ || n == "where"@
        || n == "forall"@ || n == "exists"@ || n == "mu"@ || n == "letrec"@ || n == "pack"@
        || n == "unpack"@
}

/// Whether `c` may continue an identifier.
pub open spec fn ident_char(c: char) -> bool {
    is_alnum(c) || c == '_' || c == '\''
}

/// The end of the run of identifier characters from `p`.
pub open spec fn ident_end(s: Seq<char>, p: int) -> int
    decreases s.len() - p,
{
    if 0 <= p < s.len() && ident_char(s[p]) {
        ident_end(s, p + 1)
    } else {
        p
    }
}

/// An identifier: a letter or `_`, then identifier characters; a keyword
/// is not one.
pub open spec fn ident(s: Seq<char>, p: int) -> Option<(Seq<char>, int)> {
    if 0 <= p < s.len() && (is_alpha(s[p]) || s[p] == '_') {
        let e = ident_end(s, p + 1);
        if is_keyword(s.subrange(p, e)) {
            None
        } else {
            Some((s.subrange(p, e), e))
        }
    } else {
        None
    }
}

/// A capitalized identifier: an uppercase letter, then identifier
/// characters.
pub open spec fn upper_ident(s: Seq<char>, p: int) -> Option<(Seq<char>, int)> {
    if 0 <= p < s.len() && is_upper(s[p]) {
        let e = ident_end(s, p + 1);
        Some((s.subrange(p, e), e))
    } else {
        None
    }
}

/// The end of the run of decimal digits from `p`.
pub open spec fn digits_end(s: Seq<char>, p: int) -> int
    decreases s.len() - p,
{
    if 0 <= p < s.len() && is_digit(s[p]) {
        digits_end(s, p + 1)
    } else {
        p
    }
}

/// An integer literal: an optional `-`, digits, and an optional width
/// suffix (`L` long, `s` short, `b` byte, `q` 128-bit; none for a 32-bit
/// int); its value must fit the width (a byte has no sign).
pub open spec fn int_literal(s: Seq<char>, p: int) -> Option<(SLit, int)> {
    let neg = char_at(s, p, '-');
    let q = if neg { p + 1 } else { p };
    let e = digits_end(s, q);
    if e == q {
        None
    } else {
        let m = digits_value(s.subrange(q, e)) as int;
        let v = if neg { -m } else { m };
        if char_at(s, e, 'L') {
            if i64::MIN <= v <= i64::MAX { Some((SLit::Long(v as i64), e + 1)) } else { None }
        } else if char_at(s, e, 's') {
            if i16::MIN <= v <= i16::MAX { Some((SLit::Short(v as i16), e + 1)) } else { None }
        } else if char_at(s, e, 'b') {
            if !neg && v <= 255 { Some((SLit::Byte(v as u8), e + 1)) } else { None }
        } else if char_at(s, e, 'q') {
            if i128::MIN <= v <= i128::MAX { Some((SLit::Int128(v as i128), e + 1)) } else { None }
        } else {
            if i32::MIN <= v <= i32::MAX { Some((SLit::Int(v as i32), e)) } else { None }
        }
    }
}

/// A floating-point literal: an optional `-`, digits, `.`, optional
/// digits, and an optional `f` (32 bits; 64 without); it keeps its text.
pub open spec fn float_literal(s: Seq<char>, p: int) -> Option<(SLit, int)> {
    let q = if char_at(s, p, '-') { p + 1 } else { p };
    let e1 = digits_end(s, q);
    if e1 == q || !char_at(s, e1, '.') {
        None
    } else {
        let e2 = digits_end(s, e1 + 1);
        if char_at(s, e2, 'f') {
            Some((SLit::Float(s.subrange(p, e2)), e2 + 1))
        } else {
            Some((SLit::Double(s.subrange(p, e2)), e2))
        }
    }
}

/// Whether `c` may follow `\` in a string literal.
pub open spec fn is_str_escape(c: char) -> bool {
    c == 'n' || c == 't' || c == '\\' || c == '"' || c == '0'
}

/// Whether `c` may follow `\` in a character literal.
pub open spec fn is_char_escape(c: char) -> bool {
    c == 'n' || c == 't' || c == '\\' || c == '\''
}

/// The character an escape stands for.
pub open spec fn escaped(c: char) -> char {
    if c == 'n' {
        '\n'
    } else if c == 't' {
        '\t'
    } else if c == '0' {
        '\0'
    } else {
        c
    }
}

/// The characters of a string literal's body from `q`, and where the body
/// ends.
pub open spec fn str_body(s: Seq<char>, q: int) -> (Seq<char>, int)
    decreases s.len() - q,
{
    if 0 <= q < s.len() && s[q] != '"' && s[q] != '\\' {
        let r = str_body(s, q + 1);
        (seq![s[q]] + r.0, r.1)
    } else if 0 <= q && q + 1 < s.len() && s[q] == '\\' && is_str_escape(s[q + 1]) {
        let r = str_body(s, q + 2);
        (seq![escaped(s[q + 1])] + r.0, r.1)
    } else {
        (Seq::empty(), q)
    }
}

/// A string literal: `"`, characters and escapes, `"`.
pub open spec fn string_literal(s: Seq<char>, p: int) -> Option<(SLit, int)> {
    if char_at(s, p, '"') {
        let b = str_body(s, p + 1);
        if char_at(s, b.1, '"') {
            Some((SLit::Str(b.0), b.1 + 1))
        } else {
            None
        }
    } else {
        None
    }
}

/// A character literal: `'`, a character or an escape, `'`.
pub open spec fn char_literal(s: Seq<char>, p: int) -> Option<(SLit, int)> {
    if char_at(s, p, '\'') {
        if 0 <= p + 1 < s.len() && s[p + 1] != '\'' && s[p + 1] != '\\' {
            if char_at(s, p + 2, '\'') { Some((SLit::Char(s[p + 1]), p + 3)) } else { None }
        } else if char_at(s, p + 1, '\\') && 0 <= p + 2 < s.len() && is_char_escape(s[p + 2]) {
            if char_at(s, p + 3, '\'') { Some((SLit::Char(escaped(s[p + 2])), p + 4)) } else { None }
        } else {
            None
        }
    } else {
        None
    }
}

/// A literal: `true`, `false`, `()`, or a character, string,
/// floating-point or integer literal, tried in that order.
pub open spec fn literal(s: Seq<char>, p: int) -> Option<(SLit, int)> {
    if lit_at(s, p, "true"@) {
        Some((SLit::Bool(true), p + "true"@.len()))
    } else if lit_at(s, p, "false"@) {
        Some((SLit::Bool(false), p + "false"@.len()))
    } else if lit_at(s, p, "()"@) {
        Some((SLit::Unit, p + "()"@.len()))
    } else if char_literal(s, p) is Some {
        char_literal(s, p)
    } else if string_literal(s, p) is Some {
        string_literal(s, p)
    } else if float_literal(s, p) is Some {
        float_literal(s, p)
    } else {
        int_literal(s, p)
    }
}

/// The input is short enough that positions a few characters past its end
/// still fit in a `usize`.
pub open spec fn fits(cs: &Vec<char>) -> bool {
    cs@.len() + 8 <= usize::MAX
}

/// The position after the white space from `p`.
pub fn skip_ws_at(cs: &Vec<char>, p: usize) -> (r: usize)
    requires
        p <= cs@.len(),
    ensures
        r as int == skip_ws(cs@, p as int),
        p <= r <= cs@.len(),
{
    let mut q = p;
    while q < cs.len() && char_is_space(cs[q])
        invariant
            p <= q <= cs@.len(),
            skip_ws(cs@, p as int) == skip_ws(cs@, q as int),
        decreases cs.len() - q,
    {
        q += 1;
    }
    q
}

/// The position after the text `t`, if it stands at `p`.
pub fn match_text(cs: &Vec<char>, p: usize, t: &str) -> (r: Option<usize>)
    requires
        p <= cs@.len(),
    ensures
        lit_at(cs@, p as int, t@) ==> (r matches Some(e) && e == p + t@.len()),
        !lit_at(cs@, p as int, t@) ==> r is None,
{
    let ts = chars_of(t);
    let n = cs.len();
    if ts.len() > n - p {
        return None;
    }
    let mut i: usize = 0;
    while i < ts.len()
        invariant
            i <= ts@.len(),
            ts@ == t@,
            n == cs@.len(),
            p + ts@.len() <= n,
            forall|j: int| 0 <= j < i ==> cs@[p + j] == ts@[j],
        decreases ts.len() - i,
    {
        if cs[p + i] != ts[i] {
            proof {
                assert(cs@.subrange(p as int, p + t@.len())[i as int] != t@[i as int]);
            }
            return None;
        }
        i += 1;
    }
    assert(cs@.subrange(p as int, p + t@.len()) =~= t@);
    Some(p + ts.len())
}

/// Whether the character `c` stands at `p`.
pub fn is_char_at(cs: &Vec<char>, p: usize, c: char) -> (r: bool)
    ensures
        r == char_at(cs@, p as int, c),
{
    p < cs.len() && cs[p] == c
}

/// Whether `cs[a..b]` is the text `t`.
fn span_is(cs: &Vec<char>, a: usize, b: usize, t: &str) -> (r: bool)
    requires
        a <= b <= cs@.len(),
    ensures
        r == (cs@.subrange(a as int, b as int) == t@),
{
    let m = match_text(cs, a, t);
    proof {
        if cs@.subrange(a as int, b as int) == t@ {
            assert(cs@.subrange(a as int, b as int).len() == t@.len());
            assert(lit_at(cs@, a as int, t@));
        }
    }
    match m {
        Some(e) => e == b,
        None => false,
    }
}

/// Whether `cs[a..b]` is a keyword.
fn span_is_keyword(cs: &Vec<char>, a: usize, b: usize) -> (r: bool)
    requires
        a <= b <= cs@.len(),
    ensures
        r == is_keyword(cs@.subrange(a as int, b as int)),
{
    span_is(cs, a, b, "let") || span_is(cs, a, b, "in") || span_is(cs, a, b, "if")
        || span_is(cs, a, b, "then") || span_is(cs, a, b, "else") || span_is(cs, a, b, "match")
        || span_is(cs, a, b, "with") || span_is(cs, a, b, "fn") || span_is(cs, a, b, "true")
        || span_is(cs, a, b, "false") || span_is(cs, a, b, "do") || span_is(cs, a, b, "type")
        || span_is(cs, a, b, "class") || span_is(cs, a, b, "instance") || span_is(cs, a, b, "data")
        || span_is(cs, a, b, "import") || span_is(cs, a, b, "where") || span_is(cs, a, b, "forall")
        || span_is(cs, a, b, "exists") || span_is(cs, a, b, "mu") || span_is(cs, a, b, "letrec")
        || span_is(cs, a, b, "pack") || span_is(cs, a, b, "unpack")
}

/// The end of the run of identifier characters from `p`.
fn ident_end_at(cs: &Vec<char>, p: usize) -> (r: usize)
    requires
        p <= cs@.len(),
        fits(cs),
    ensures
        r as int == ident_end(cs@, p as int),
        p <= r <= cs@.len(),
{
    let mut q = p;
    while q < cs.len() && (char_is_alphanumeric(cs[q]) || cs[q] == '_' || cs[q] == '\'')
        invariant
            p <= q <= cs@.len(),
            ident_end(cs@, p as int) == ident_end(cs@, q as int),
        decreases cs.len() - q,
    {
        q += 1;
    }
    q
}

/// An identifier at `p` (see `ident`).
pub fn ident_at(cs: &Vec<char>, p: usize) -> (r: Option<(String, usize)>)
    requires
        p <= cs@.len(),
        fits(cs),
    ensures
        agrees(r, ident(cs@, p as int)),
        r matches Some((_, e)) ==> p < e <= cs@.len(),
{
    if p < cs.len() && (char_is_alphabetic(cs[p]) || cs[p] == '_') {
        let e = ident_end_at(cs, p + 1);
        if span_is_keyword(cs, p, e) {
            None
        } else {
            Some((string_from_chars(cs, p, e), e))
        }
    } else {
        None
    }
}

/// A capitalized identifier at `p` (see `upper_ident`).
pub fn upper_ident_at(cs: &Vec<char>, p: usize) -> (r: Option<(String, usize)>)
    requires
        p <= cs@.len(),
        fits(cs),
    ensures
        agrees(r, upper_ident(cs@, p as int)),
        r matches Some((_, e)) ==> p < e <= cs@.len(),
{
    if p < cs.len() && char_is_uppercase(cs[p]) {
        let e = ident_end_at(cs, p + 1);
        Some((string_from_chars(cs, p, e), e))
    } else {
        None
    }
}

/// The end of the run of decimal digits from `p`.
pub fn digits_end_at(cs: &Vec<char>, p: usize) -> (r: usize)
    requires
        p <= cs@.len(),
        fits(cs),
    ensures
        r as int == digits_end(cs@, p as int),
        p <= r <= cs@.len(),
        all_digits(cs@.subrange(p as int, r as int)),
{
    let mut q = p;
    while q < cs.len() && '0' <= cs[q] && cs[q] <= '9'
        invariant
            p <= q <= cs@.len(),
            digits_end(cs@, p as int) == digits_end(cs@, q as int),
            all_digits(cs@.subrange(p as int, q as int)),
        decreases cs.len() - q,
    {
        q += 1;
        assert(forall|j: int| 0 <= j < q - p ==> #[trigger] cs@.subrange(p as int, q as int)[j] == cs@[p + j]);
    }
    q
}

/// 2 to the 127th, the largest magnitude an integer literal can have.
pub open spec fn max_magnitude() -> nat {
    0x8000_0000_0000_0000_0000_0000_0000_0000
}

/// The value of the digits `cs[a..b]`, where it is at most 2^127.
fn digits_magnitude(cs: &Vec<char>, a: usize, b: usize) -> (r: Option<u128>)
    requires
        a <= b <= cs@.len(),
        all_digits(cs@.subrange(a as int, b as int)),
    ensures
        r matches Some(m) ==> m == digits_value(cs@.subrange(a as int, b as int)) && m <= max_magnitude(),
        r is None ==> digits_value(cs@.subrange(a as int, b as int)) > max_magnitude(),
{
    let limit: u128 = 0x8000_0000_0000_0000_0000_0000_0000_0000;
    let mut m: u128 = 0;
    let mut i = a;
    while i < b
        invariant
            a <= i <= b <= cs@.len(),
            all_digits(cs@.subrange(a as int, b as int)),
            m == digits_value(cs@.subrange(a as int, i as int)),
            m <= limit,
            limit == max_magnitude(),
        decreases b - i,
    {
        let ghost d = cs@.subrange(a as int, b as int);
        assert(d[i - a] == cs@[i as int]);
        let c = cs[i];
        let ghost pre = cs@.subrange(a as int, i + 1);
        proof {
            assert(pre.drop_last() =~= cs@.subrange(a as int, i as int));
            assert(pre.last() == c);
        }
        let digit = (c as u32 - '0' as u32) as u128;
        if m > (limit - digit) / 10 {
            proof {
                assert(d.take(i + 1 - a) =~= pre);
                lemma_digits_value_grows(d, i + 1 - a);
                assert(digits_value(pre) > limit) by (nonlinear_arith)
                    requires
                        digits_value(pre) == 10 * m + digit,
                        m > (limit - digit) / 10,
                        digit <= 9,
                        limit > 9;
            }
            return None;
        }
        m = m * 10 + digit;
        i += 1;
    }
    Some(m)
}

/// An integer literal at `p` (see `int_literal`).
pub fn int_literal_at(cs: &Vec<char>, p: usize) -> (r: Option<(Literal, usize)>)
    requires
        p <= cs@.len(),
        fits(cs),
    ensures
        agrees(r, int_literal(cs@, p as int)),
        r matches Some((_, e)) ==> p < e <= cs@.len(),
{
    let neg = is_char_at(cs, p, '-');
    let q = if neg { p + 1 } else { p };
    let e = digits_end_at(cs, q);
    if e == q {
        return None;
    }
    let ghost m = digits_value(cs@.subrange(q as int, e as int)) as int;
    let mag = digits_magnitude(cs, q, e);
    let big = mag.is_none();
    let m_exec: u128 = match mag {
        Some(v) => v,
        None => 0,
    };
    if is_char_at(cs, e, 'L') {
        if !big && (if neg { m_exec <= 0x8000_0000_0000_0000u128 } else { m_exec <= 0x7fff_ffff_ffff_ffffu128 }) {
            let v: i64 = if neg { if m_exec == 0x8000_0000_0000_0000u128 { i64::MIN } else { -(m_exec as i64) } } else { m_exec as i64 };
            Some((Literal::Long(v), e + 1))
        } else {
            None
        }
    } else if is_char_at(cs, e, 's') {
        if !big && (if neg { m_exec <= 0x8000u128 } else { m_exec <= 0x7fffu128 }) {
            let v: i16 = if neg { if m_exec == 0x8000u128 { i16::MIN } else { -(m_exec as i16) } } else { m_exec as i16 };
            Some((Literal::Short(v), e + 1))
        } else {
            None
        }
    } else if is_char_at(cs, e, 'b') {
        if !big && !neg && m_exec <= 255 {
            Some((Literal::Byte(m_exec as u8), e + 1))
        } else {
            None
        }
    } else if is_char_at(cs, e, 'q') {
        if !big && (if neg { true } else { m_exec <= 0x7fff_ffff_ffff_ffff_ffff_ffff_ffff_ffffu128 }) {
            let v: i128 = if neg {
                if m_exec == 0x8000_0000_0000_0000_0000_0000_0000_0000u128 { i128::MIN } else { -(m_exec as i128) }
            } else {
                m_exec as i128
            };
            Some((Literal::Int128(v), e + 1))
        } else {
            None
        }
    } else {
        if !big && (if neg { m_exec <= 0x8000_0000u128 } else { m_exec <= 0x7fff_ffffu128 }) {
            let v: i32 = if neg { if m_exec == 0x8000_0000u128 { i32::MIN } else { -(m_exec as i32) } } else { m_exec as i32 };
            Some((Literal::Int(v), e))
        } else {
            None
        }
    }
}

/// A floating-point literal at `p` (see `float_literal`).
pub fn float_literal_at(cs: &Vec<char>, p: usize) -> (r: Option<(Literal, usize)>)
    requires
        p <= cs@.len(),
        fits(cs),
    ensures
        agrees(r, float_literal(cs@, p as int)),
        r matches Some((_, e)) ==> p < e <= cs@.len(),
{
    let q = if is_char_at(cs, p, '-') { p + 1 } else { p };
    let e1 = digits_end_at(cs, q);
    if e1 == q || !is_char_at(cs, e1, '.') {
        return None;
    }
    let e2 = digits_end_at(cs, e1 + 1);
    let text = string_from_chars(cs, p, e2);
    if is_char_at(cs, e2, 'f') {
        Some((Literal::Float(text), e2 + 1))
    } else {
        Some((Literal::Double(text), e2))
    }
}

fn escaped_char(c: char) -> (r: char)
    ensures
        r == escaped(c),
{
    if c == 'n' {
        '\n'
    } else if c == 't' {
        '\t'
    } else if c == '0' {
        '\0'
    } else {
        c
    }
}

/// A string literal at `p` (see `string_literal`).
pub fn string_literal_at(cs: &Vec<char>, p: usize) -> (r: Option<(Literal, usize)>)
    requires
        p <= cs@.len(),
        fits(cs),
    ensures
        agrees(r, string_literal(cs@, p as int)),
{
    if !is_char_at(cs, p, '"') {
        return None;
    }
    let mut body = String::new();
    let mut q = p + 1;
    let ghost whole = str_body(cs@, p + 1);
    loop
        invariant
            p < q <= cs@.len(),
            fits(cs),
            whole == str_body(cs@, p + 1),
            whole == (body@ + str_body(cs@, q as int).0, str_body(cs@, q as int).1),
        ensures
            p < q <= cs@.len(),
            whole == (body@, q as int),
        decreases cs.len() - q,
    {
        match body_step(cs, q) {
            Some((c, n)) => {
                crate::text::push_char(&mut body, c);
                proof {
                    assert(str_body(cs@, q as int) == (seq![c] + str_body(cs@, n as int).0, str_body(cs@, n as int).1));
                    assert(body@ + str_body(cs@, n as int).0 =~= old_body_plus(body@.drop_last(), seq![c]) + str_body(cs@, n as int).0);
                }
                q = n;
            }
            None => {
                proof {
                    assert(whole.0 =~= body@);
                }
                break;
            }
        }
    }
    if is_char_at(cs, q, '"') {
        Some((Literal::String(body), q + 1))
    } else {
        None
    }
}

/// One more character of a string literal's body at `q`, and where the
/// body goes on, if the body does not end there.
fn body_step(cs: &Vec<char>, q: usize) -> (r: Option<(char, usize)>)
    requires
        q <= cs@.len(),
        fits(cs),
    ensures
        r matches Some((c, n)) ==> q < n <= cs@.len()
            && str_body(cs@, q as int) == (seq![c] + str_body(cs@, n as int).0, str_body(cs@, n as int).1),
        r is None ==> str_body(cs@, q as int) == (Seq::<char>::empty(), q as int),
{
    if q < cs.len() && cs[q] != '"' && cs[q] != '\\' {
        Some((cs[q], q + 1))
    } else if q + 1 < cs.len() && cs[q] == '\\'
        && (cs[q + 1] == 'n' || cs[q + 1] == 't' || cs[q + 1] == '\\' || cs[q + 1] == '"' || cs[q + 1] == '0') {
        Some((escaped_char(cs[q + 1]), q + 2))
    } else {
        None
    }
}

spec fn old_body_plus(a: Seq<char>, b: Seq<char>) -> Seq<char> {
    a + b
}

/// A character literal at `p` (see `char_literal`).
pub fn char_literal_at(cs: &Vec<char>, p: usize) -> (r: Option<(Literal, usize)>)
    requires
        p <= cs@.len(),
        fits(cs),
    ensures
        agrees(r, char_literal(cs@, p as int)),
{
    if !is_char_at(cs, p, '\'') {
        return None;
    }
    if p + 1 < cs.len() && cs[p + 1] != '\'' && cs[p + 1] != '\\' {
        if is_char_at(cs, p + 2, '\'') {
            Some((Literal::Char(cs[p + 1]), p + 3))
        } else {
            None
        }
    } else if is_char_at(cs, p + 1, '\\') && p + 2 < cs.len()
        && (cs[p + 2] == 'n' || cs[p + 2] == 't' || cs[p + 2] == '\\' || cs[p + 2] == '\'') {
        if is_char_at(cs, p + 3, '\'') {
            Some((Literal::Char(escaped_char(cs[p + 2])), p + 4))
        } else {
            None
        }
    } else {
        None
    }
}

/// A literal at `p` (see `literal`).
pub fn literal_at(cs: &Vec<char>, p: usize) -> (r: Option<(Literal, usize)>)
    requires
        p <= cs@.len(),
        fits(cs),
    ensures
        agrees(r, literal(cs@, p as int)),
        r matches Some((_, e)) ==> p < e <= cs@.len(),
{
    proof {
        reveal_strlit("true");
        reveal_strlit("false");
        reveal_strlit("()");
    }
    if let Some(e) = match_text(cs, p, "true") {
        return Some((Literal::Bool(true), e));
    }
    if let Some(e) = match_text(cs, p, "false") {
        return Some((Literal::Bool(false), e));
    }
    if let Some(e) = match_text(cs, p, "()") {
        return Some((Literal::Unit, e));
    }
    if let Some(r) = char_literal_at(cs, p) {
        return Some(r);
    }
    if let Some(r) = string_literal_at(cs, p) {
        proof {
            lemma_str_body_bounds(cs@, p + 1);
        }
        return Some(r);
    }
    if let Some(r) = float_literal_at(cs, p) {
        return Some(r);
    }
    int_literal_at(cs, p)
}

/// The body of a string literal ends within the input, no earlier than it
/// starts.
proof fn lemma_str_body_bounds(s: Seq<char>, q: int)
    requires
        0 <= q <= s.len(),
    ensures
        q <= str_body(s, q).1 <= s.len(),
    decreases s.len() - q,
{
    if 0 <= q < s.len() && s[q] != '"' && s[q] != '\\' {
        lemma_str_body_bounds(s, q + 1);
    } else if 0 <= q && q + 1 < s.len() && s[q] == '\\' && is_str_escape(s[q + 1]) {
        lemma_str_body_bounds(s, q + 2);
    }
}

} // verus!
