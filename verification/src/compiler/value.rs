//! Runtime values of the evaluator.
//!
//! Floating-point values are kept as the bits of their IEEE 754 encoding;
//! what is computed on them as numbers (arithmetic, comparison, reading a
//! literal's text, printing) is asked of the evaluator's `Host`.

use vstd::prelude::*;
use super::{Env, EvalError, copy_env};
use crate::expr::{Expr, Literal, Spanned};
use crate::expr::copy::copy_node;
use crate::name_map::NameMap;
use crate::text::{push_str, push_char, push_decimal, push_signed_decimal, push_signed_decimal_i128, decimal,
    signed_decimal};

verus! {

/// A runtime value in the Calvin language.
#[derive(Debug)]
pub enum Value {
    /// The unit value.
    Unit,
    /// A boolean value.
    Bool(bool),
    /// A character value.
    Char(char),
    /// An 8-bit unsigned integer.
    Byte(u8),
    /// A 16-bit signed integer.
    Short(i16),
    /// A 32-bit signed integer.
    Int(i32),
    /// A 64-bit signed integer.
    Long(i64),
    /// A 128-bit signed integer.
    Int128(i128),
    /// A 32-bit floating-point number, by its IEEE 754 bits.
    Float(u32),
    /// A 64-bit floating-point number, by its IEEE 754 bits.
    Double(u64),
    /// A string value.
    String(String),
    /// An array of values.
    Array(Vec<Value>),
    /// A record of values, by field name.
    Record(NameMap<Value>),
    /// A variant (tagged union) value.
    Variant(String, Box<Value>),
    /// A closure: parameters, body, and the environment it was made in.
    Closure { params: Vec<String>, body: Box<Spanned<Expr>>, env: Box<Env<Value>> },
    /// A built-in function, by name.
    BuiltinFn(String),
}

/// What the evaluator asks of its host: the computations on
/// floating-point numbers, and printing.
pub trait Host {
    /// The value of a floating-point literal (`Literal::Float` or
    /// `Literal::Double`).
    fn float_literal(&self, lit: &Literal) -> Value;

    /// The binary operator `op` applied to two values of which at least one
    /// is a floating-point number.
    fn float_binop(&self, op: &str, l: &Value, r: &Value) -> Result<Value, EvalError>;

    /// The negation of a floating-point value.
    fn float_neg(&self, v: &Value) -> Value;

    /// The text of a floating-point value.
    fn show_float(&self, v: &Value) -> String;

    /// Prints a line.
    fn print_line(&self, text: &str);
}

/// The value of a literal that is not a floating-point number.
pub open spec fn literal_value(l: Literal) -> Value {
    match l {
        Literal::Unit => Value::Unit,
        Literal::Bool(b) => Value::Bool(b),
        Literal::Char(c) => Value::Char(c),
        Literal::Byte(b) => Value::Byte(b),
        Literal::Short(v) => Value::Short(v),
        Literal::Int(v) => Value::Int(v),
        Literal::Long(v) => Value::Long(v),
        Literal::Int128(v) => Value::Int128(v),
        Literal::String(s) => Value::String(s),
        _ => Value::Unit,
    }
}

/// Whether a literal is a floating-point number.
pub open spec fn is_float_literal(l: Literal) -> bool {
    l is Float || l is Double
}

/// The text of a value that holds no floating-point number and no array,
/// record or variant.
pub open spec fn scalar_text(v: Value) -> Seq<char> {
    match v {
        Value::Unit => "()"@,
        Value::Bool(b) => if b { "true"@ } else { "false"@ },
        Value::Char(c) => "'"@ + seq![c] + "'"@,
        Value::Byte(b) => decimal(b as nat) + "b"@,
        Value::Short(s) => signed_decimal(s as int) + "s"@,
        Value::Int(i) => signed_decimal(i as int),
        Value::Long(l) => signed_decimal(l as int) + "L"@,
        Value::Int128(i) => signed_decimal(i as int) + "q"@,
        Value::String(s) => "\""@ + s@ + "\""@,
        Value::Closure { params, .. } => "<fn("@ + joined(names(params@), ", "@) + ")>"@,
        Value::BuiltinFn(n) => "<builtin:"@ + n@ + ">"@,
        _ => Seq::empty(),
    }
}

/// Whether a value holds no floating-point number, at any depth.
pub open spec fn float_free(v: Value) -> bool
    decreases v, 0nat,
{
    match v {
        Value::Float(_) => false,
        Value::Double(_) => false,
        Value::Array(es) => {
            proof {
                assert(decreases_to!(es => es@));
            }
            items_free(es@)
        },
        Value::Record(m) => {
            proof {
                assert(decreases_to!(m => m.entries));
                assert(decreases_to!(m.entries => m.entries@));
            }
            fields_free(m.entries@)
        },
        Value::Variant(_, b) => float_free(*b),
        _ => true,
    }
}

/// Whether values hold no floating-point number.
pub open spec fn items_free(s: Seq<Value>) -> bool
    decreases s, 0nat,
{
    if s.len() == 0 {
        true
    } else {
        items_free(s.drop_last()) && float_free(s.last())
    }
}

/// Whether the values of fields hold no floating-point number.
pub open spec fn fields_free(s: Seq<(String, Value)>) -> bool
    decreases s, 0nat,
{
    if s.len() == 0 {
        true
    } else {
        fields_free(s.drop_last()) && float_free(s.last().1)
    }
}

/// The text of a value without floating-point numbers: arrays as
/// `[a, b]`, records as `{x = a, y = b}` in name order, variants as
/// `|C v|`, and the rest as `scalar_text` says.
pub open spec fn value_text(v: Value) -> Seq<char>
    decreases v, 0nat,
{
    match v {
        Value::Array(es) => {
            proof {
                assert(decreases_to!(es => es@));
            }
            "["@ + items_text(es@) + "]"@
        },
        Value::Record(m) => {
            proof {
                assert(decreases_to!(m => m.entries));
                assert(decreases_to!(m.entries => m.entries@));
            }
            "{"@ + fields_text(m.entries@) + "}"@
        },
        Value::Variant(c, b) => "|"@ + c@ + " "@ + value_text(*b) + "|"@,
        _ => scalar_text(v),
    }
}

/// The texts of values, separated by `, `.
pub open spec fn items_text(s: Seq<Value>) -> Seq<char>
    decreases s, 0nat,
{
    if s.len() == 0 {
        Seq::empty()
    } else if s.len() == 1 {
        value_text(s[0])
    } else {
        items_text(s.drop_last()) + ", "@ + value_text(s.last())
    }
}

/// The texts of fields as `name = value`, separated by `, `.
pub open spec fn fields_text(s: Seq<(String, Value)>) -> Seq<char>
    decreases s, 0nat,
{
    if s.len() == 0 {
        Seq::empty()
    } else if s.len() == 1 {
        s[0].0@ + " = "@ + value_text(s[0].1)
    } else {
        fields_text(s.drop_last()) + ", "@ + s.last().0@ + " = "@ + value_text(s.last().1)
    }
}

/// A variant shows as its constructor and its payload's text between bars,
/// and holds a floating-point number exactly where its payload does.
pub proof fn law_variant_text(c: String, payload: Value)
    ensures
        value_text(Value::Variant(c, Box::new(payload))) == "|"@ + c@ + " "@ + value_text(payload) + "|"@,
        float_free(Value::Variant(c, Box::new(payload))) == float_free(payload),
{
}

/// An array shows as its elements' texts between brackets, separated by
/// `, `: none for an empty array, one element's text alone, and one more
/// element after a comma and a space.
pub proof fn law_array_text(v: Vec<Value>, s: Seq<Value>, x: Value)
    ensures
        value_text(Value::Array(v)) == "["@ + items_text(v@) + "]"@,
        items_text(Seq::empty()) == Seq::<char>::empty(),
        items_text(seq![x]) == value_text(x),
        s.len() > 0 ==> items_text(s.push(x)) == items_text(s) + ", "@ + value_text(x),
{
    assert(s.push(x).drop_last() =~= s);
}

/// A record shows as `name = text` for each field in name order, between
/// braces and separated by `, `.
pub proof fn law_record_text(m: NameMap<Value>, s: Seq<(String, Value)>, k: String, x: Value)
    ensures
        value_text(Value::Record(m)) == "{"@ + fields_text(m.entries@) + "}"@,
        fields_text(seq![(k, x)]) == k@ + " = "@ + value_text(x),
        s.len() > 0 ==> fields_text(s.push((k, x))) == fields_text(s) + ", "@ + k@ + " = "@ + value_text(x),
{
    assert(s.push((k, x)).drop_last() =~= s);
}

/// Two variants of one constructor show alike exactly when their payloads
/// do: the payload's text is kept whole in the variant's.
pub proof fn law_variant_text_keeps_payload(c: String, p: Value, q: Value)
    ensures
        value_text(Value::Variant(c, Box::new(p))) == value_text(Value::Variant(c, Box::new(q))) <==> value_text(p)
            == value_text(q),
{
    let pre = "|"@ + c@ + " "@;
    let tp = value_text(Value::Variant(c, Box::new(p)));
    let tq = value_text(Value::Variant(c, Box::new(q)));
    reveal_strlit("|");
    reveal_strlit(" ");
    assert(tp =~= pre + value_text(p) + "|"@);
    assert(tq =~= pre + value_text(q) + "|"@);
    if tp == tq {
        assert(value_text(p) =~= tp.subrange(pre.len() as int, tp.len() - 1));
        assert(value_text(q) =~= tq.subrange(pre.len() as int, tq.len() - 1));
    }
}

/// Each of values without floating-point numbers has none.
proof fn lemma_items_free(s: Seq<Value>)
    ensures
        items_free(s) ==> forall|i: int| 0 <= i < s.len() ==> float_free(#[trigger] s[i]),
    decreases s.len(),
{
    if s.len() > 0 {
        lemma_items_free(s.drop_last());
        assert forall|i: int| 0 <= i < s.len() && items_free(s) implies float_free(#[trigger] s[i]) by {
            if i < s.len() - 1 {
                assert(s.drop_last()[i] == s[i]);
            }
        }
    }
}

/// Each field of fields without floating-point numbers has none.
proof fn lemma_fields_free(s: Seq<(String, Value)>)
    ensures
        fields_free(s) ==> forall|i: int| 0 <= i < s.len() ==> float_free(#[trigger] s[i].1),
    decreases s.len(),
{
    if s.len() > 0 {
        lemma_fields_free(s.drop_last());
        assert forall|i: int| 0 <= i < s.len() && fields_free(s) implies float_free(#[trigger] s[i].1) by {
            if i < s.len() - 1 {
                assert(s.drop_last()[i] == s[i]);
            }
        }
    }
}

/// Whether a value is shown by `scalar_text`.
pub open spec fn is_scalar(v: Value) -> bool {
    !(v is Float || v is Double || v is Array || v is Record || v is Variant)
}

/// The texts of names.
pub open spec fn names(s: Seq<String>) -> Seq<Seq<char>> {
    Seq::new(s.len(), |i: int| s[i]@)
}

/// Texts joined with `sep` between them.
pub open spec fn joined(ts: Seq<Seq<char>>, sep: Seq<char>) -> Seq<char>
    decreases ts.len(),
{
    if ts.len() == 0 {
        Seq::empty()
    } else if ts.len() == 1 {
        ts[0]
    } else {
        joined(ts.drop_last(), sep) + sep + ts.last()
    }
}

/// The name of a value's type (for error messages).
pub open spec fn type_name_of(v: Value) -> Seq<char> {
    match v {
        Value::Unit => "()"@,
        Value::Bool(_) => "bool"@,
        Value::Char(_) => "char"@,
        Value::Byte(_) => "byte"@,
        Value::Short(_) => "short"@,
        Value::Int(_) => "int"@,
        Value::Long(_) => "long"@,
        Value::Int128(_) => "int128"@,
        Value::Float(_) => "float"@,
        Value::Double(_) => "double"@,
        Value::String(_) => "str"@,
        Value::Array(_) => "array"@,
        Value::Record(_) => "record"@,
        Value::Variant(_, _) => "variant"@,
        Value::Closure { .. } => "function"@,
        Value::BuiltinFn(_) => "builtin"@,
    }
}

/// Whether a value counts as true: not unit, `false`, a zero `int`,
/// `long` or `double` (either sign), an empty string or an empty array.
pub open spec fn truthy(v: Value) -> bool {
    match v {
        Value::Unit => false,
        Value::Bool(b) => b,
        Value::Int(n) => n != 0,
        Value::Long(n) => n != 0,
        Value::Double(bits) => bits % 0x8000_0000_0000_0000 != 0,
        Value::String(s) => s@.len() != 0,
        Value::Array(a) => a@.len() != 0,
        _ => true,
    }
}

/// Names joined with `sep`, appended to `out`.
fn push_joined(out: &mut String, ns: &Vec<String>, sep: &str)
    ensures
        final(out)@ == old(out)@ + joined(names(ns@), sep@),
{
    let ghost start = out@;
    let mut i: usize = 0;
    while i < ns.len()
        invariant
            i <= ns@.len(),
            out@ == start + joined(names(ns@.take(i as int)), sep@),
        decreases ns.len() - i,
    {
        let ghost before = out@;
        if i > 0 {
            push_str(out, sep);
        }
        push_str(out, ns[i].as_str());
        proof {
            let t = names(ns@.take(i + 1));
            assert(t.drop_last() =~= names(ns@.take(i as int)));
            assert(t.last() == ns@[i as int]@);
            if i == 0 {
                assert(names(ns@.take(0)) =~= Seq::<Seq<char>>::empty());
                assert(out@ =~= start + joined(t, sep@));
            } else {
                assert(out@ =~= start + joined(t, sep@));
            }
        }
        i += 1;
    }
    assert(ns@.take(i as int) =~= ns@);
}

impl Value {
    /// The value of a literal; a floating-point literal's is the host's.
    pub fn from_literal<H: Host>(host: &H, lit: &Literal) -> (r: Value)
        ensures
            !is_float_literal(*lit) ==> r == literal_value(*lit),
    {
        match lit {
            Literal::Unit => Value::Unit,
            Literal::Bool(b) => Value::Bool(*b),
            Literal::Char(c) => Value::Char(*c),
            Literal::Byte(b) => Value::Byte(*b),
            Literal::Short(s) => Value::Short(*s),
            Literal::Int(i) => Value::Int(*i),
            Literal::Long(l) => Value::Long(*l),
            Literal::Int128(i) => Value::Int128(*i),
            Literal::Float(_) | Literal::Double(_) => host.float_literal(lit),
            Literal::String(s) => Value::String(s.clone()),
        }
    }

    /// Whether this value counts as true (see `truthy`).
    pub fn is_truthy(&self) -> (r: bool)
        ensures
            r == truthy(*self),
    {
        match self {
            Value::Unit => false,
            Value::Bool(b) => *b,
            Value::Int(n) => *n != 0,
            Value::Long(n) => *n != 0,
            Value::Double(bits) => *bits % 0x8000_0000_0000_0000 != 0,
            Value::String(s) => s.as_str().unicode_len() != 0,
            Value::Array(a) => a.len() != 0,
            _ => true,
        }
    }

    /// The name of this value's type (see `type_name_of`).
    pub fn value_type_name(&self) -> (r: &'static str)
        ensures
            r@ == type_name_of(*self),
    {
        match self {
            Value::Unit => "()",
            Value::Bool(_) => "bool",
            Value::Char(_) => "char",
            Value::Byte(_) => "byte",
            Value::Short(_) => "short",
            Value::Int(_) => "int",
            Value::Long(_) => "long",
            Value::Int128(_) => "int128",
            Value::Float(_) => "float",
            Value::Double(_) => "double",
            Value::String(_) => "str",
            Value::Array(_) => "array",
            Value::Record(_) => "record",
            Value::Variant(_, _) => "variant",
            Value::Closure { .. } => "function",
            Value::BuiltinFn(_) => "builtin",
        }
    }

    /// Appends the text of this value: floating-point numbers as the host
    /// shows them, the rest as `value_text` says.
    #[verifier::loop_isolation(false)]
    #[verifier::rlimit(30)]
    pub fn show_into<H: Host>(&self, host: &H, out: &mut String)
        ensures
            is_scalar(*self) ==> final(out)@ == old(out)@ + scalar_text(*self),
            float_free(*self) ==> final(out)@ == old(out)@ + value_text(*self),
        decreases self,
    {
        match self {
            Value::Unit => push_str(out, "()"),
            Value::Bool(b) => push_str(out, if *b { "true" } else { "false" }),
            Value::Char(c) => {
                push_char(out, '\'');
                push_char(out, *c);
                push_char(out, '\'');
                proof {
                    reveal_strlit("'");
                }
                assert(out@ =~= old(out)@ + scalar_text(*self));
            }
            Value::Byte(b) => {
                push_decimal(out, *b as u64);
                push_str(out, "b");
            }
            Value::Short(s) => {
                push_signed_decimal(out, *s as i64);
                push_str(out, "s");
            }
            Value::Int(i) => push_signed_decimal(out, *i as i64),
            Value::Long(l) => {
                push_signed_decimal(out, *l);
                push_str(out, "L");
            }
            Value::Int128(i) => {
                push_signed_decimal_i128(out, *i);
                push_str(out, "q");
            }
            Value::Float(_) | Value::Double(_) => {
                let t = host.show_float(self);
                push_str(out, t.as_str());
            }
            Value::String(s) => {
                push_str(out, "\"");
                push_str(out, s.as_str());
                push_str(out, "\"");
            }
            Value::Array(elems) => {
                push_str(out, "[");
                let ghost start = out@;
                proof {
                    lemma_items_free(elems@);
                    assert(elems@.take(0) =~= Seq::<Value>::empty());
                }
                let mut i: usize = 0;
                while i < elems.len()
                    invariant
                        i <= elems@.len(),
                        items_free(elems@) ==> out@ == start + items_text(elems@.take(i as int)),
                    decreases elems.len() - i,
                {
                    proof {
                        assert(decreases_to!(elems => elems@));
                        assert(elems@.take(i + 1).drop_last() =~= elems@.take(i as int));
                        assert(elems@.take(i + 1).last() == elems@[i as int]);
                    }
                    if i > 0 {
                        push_str(out, ", ");
                    }
                    elems[i].show_into(host, out);
                    i += 1;
                }
                push_str(out, "]");
                proof {
                    assert(elems@.take(elems@.len() as int) =~= elems@);
                    if float_free(*self) {
                        assert(out@ =~= old(out)@ + value_text(*self));
                    }
                }
            }
            Value::Record(fields) => {
                push_str(out, "{");
                let ghost start = out@;
                let ghost es = fields.entries@;
                proof {
                    lemma_fields_free(es);
                    assert(es.take(0) =~= Seq::<(String, Value)>::empty());
                }
                let mut i: usize = 0;
                while i < fields.entries.len()
                    invariant
                        i <= es.len(),
                        fields_free(es) ==> out@ == start + fields_text(es.take(i as int)),
                    decreases fields.entries.len() - i,
                {
                    proof {
                        assert(decreases_to!(fields => fields.entries));
                        assert(decreases_to!(fields.entries => fields.entries@));
                        assert(es.take(i + 1).drop_last() =~= es.take(i as int));
                        assert(es.take(i + 1).last() == es[i as int]);
                    }
                    if i > 0 {
                        push_str(out, ", ");
                    }
                    push_str(out, fields.entries[i].0.as_str());
                    push_str(out, " = ");
                    fields.entries[i].1.show_into(host, out);
                    proof {
                        if fields_free(es) {
                            assert(out@ =~= start + fields_text(es.take(i + 1)));
                        }
                    }
                    i += 1;
                }
                push_str(out, "}");
                proof {
                    assert(es.take(es.len() as int) =~= es);
                    if float_free(*self) {
                        assert(out@ =~= old(out)@ + value_text(*self));
                    }
                }
            }
            Value::Variant(c, v) => {
                push_str(out, "|");
                push_str(out, c.as_str());
                push_str(out, " ");
                v.show_into(host, out);
                push_str(out, "|");
                proof {
                    if float_free(*self) {
                        assert(out@ =~= old(out)@ + value_text(*self));
                    }
                }
            }
            Value::Closure { params, .. } => {
                push_str(out, "<fn(");
                push_joined(out, params, ", ");
                push_str(out, ")>");
            }
            Value::BuiltinFn(n) => {
                push_str(out, "<builtin:");
                push_str(out, n.as_str());
                push_str(out, ">");
            }
        }
    }

    /// The text of this value (see `show_into`).
    pub fn show<H: Host>(&self, host: &H) -> (r: String)
        ensures
            is_scalar(*self) ==> r@ == scalar_text(*self),
            float_free(*self) ==> r@ == value_text(*self),
    {
        let mut out = String::new();
        self.show_into(host, &mut out);
        out
    }

    /// This value and the name of its type: `v :: t`.
    pub fn display_with_type<H: Host>(&self, host: &H) -> (r: String)
        ensures
            is_scalar(*self) ==> r@ == scalar_text(*self) + " :: "@ + type_name_of(*self),
            float_free(*self) ==> r@ == value_text(*self) + " :: "@ + type_name_of(*self),
    {
        let mut out = self.show(host);
        push_str(&mut out, " :: ");
        push_str(&mut out, self.value_type_name());
        out
    }

    /// A copy of this value.
    #[verifier::loop_isolation(false)]
    pub fn copy(&self) -> (r: Value)
        ensures
            is_scalar(*self) && !(self is Closure) ==> r == *self,
            type_name_of(r) == type_name_of(*self),
            is_scalar(r) == is_scalar(*self),
            (r is Closure) == (self is Closure),
        decreases self,
    {
        match self {
            Value::Unit => Value::Unit,
            Value::Bool(b) => Value::Bool(*b),
            Value::Char(c) => Value::Char(*c),
            Value::Byte(b) => Value::Byte(*b),
            Value::Short(s) => Value::Short(*s),
            Value::Int(i) => Value::Int(*i),
            Value::Long(l) => Value::Long(*l),
            Value::Int128(i) => Value::Int128(*i),
            Value::Float(f) => Value::Float(*f),
            Value::Double(d) => Value::Double(*d),
            Value::String(s) => Value::String(s.clone()),
            Value::Array(elems) => {
                let mut r: Vec<Value> = Vec::new();
                let mut i: usize = 0;
                while i < elems.len()
                    decreases elems.len() - i,
                {
                    proof {
                        assert(decreases_to!(elems => elems@));
                    }
                    r.push(elems[i].copy());
                    i += 1;
                }
                Value::Array(r)
            }
            Value::Record(fields) => {
                let mut r: Vec<(String, Value)> = Vec::new();
                let mut i: usize = 0;
                while i < fields.entries.len()
                    decreases fields.entries.len() - i,
                {
                    proof {
                        assert(decreases_to!(fields => fields.entries));
                        assert(decreases_to!(fields.entries => fields.entries@));
                    }
                    let k = fields.entries[i].0.clone();
                    let v = fields.entries[i].1.copy();
                    r.push((k, v));
                    i += 1;
                }
                Value::Record(NameMap { entries: r })
            }
            Value::Variant(c, v) => Value::Variant(c.clone(), Box::new(v.copy())),
            Value::Closure { params, body, env } => Value::Closure {
                params: params.clone(),
                body: Box::new(copy_node(body)),
                env: Box::new(copy_env(env)),
            },
            Value::BuiltinFn(n) => Value::BuiltinFn(n.clone()),
        }
    }
}

impl Clone for Value {
    fn clone(&self) -> (r: Self)
        ensures
            is_scalar(*self) && !(self is Closure) ==> r == *self,
            is_scalar(r) == is_scalar(*self),
            (r is Closure) == (self is Closure),
    {
        self.copy()
    }
}

} // verus!
