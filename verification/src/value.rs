//! Runtime values: a tagged union of nil, booleans, numbers and interned
//! strings, together with the constant pool that chunks draw from.
//!
//! Equality is structural within a tag and false across tags; numbers
//! compare by IEEE-754 equality of their encoded values, and strings by
//! their interned characters. `nil`, `false` and the empty string are falsy;
//! every other value is truthy.

use vstd::prelude::*;

use crate::intern::{intern, interned_eq, interned_str, ustr_chars};
use crate::numeric::{float_eq, fmt_bits, is_nan_bits, num_eq};

verus! {

/// An interned string value: a handle into the process-wide intern table.
#[derive(Debug, Copy, Clone)]
pub struct ObjStr {
    pub string: ustr::Ustr,
}

impl ObjStr {
    /// Interns a copy of `value` and wraps its handle.
    pub fn new(value: &str) -> (r: Self)
        ensures
            ustr_chars(r.string) == value@,
    {
        ObjStr { string: intern(value) }
    }
}

/// A runtime value of the language.
///
/// A fifth shape, an opaque handle to a heap object, is reserved for a
/// later extension; nothing in this core constructs one, so no such tag
/// exists here.
#[derive(Debug, Copy, Clone)]
pub enum Value {
    Bool(bool),
    Nil,
    Number(u64),
    Str(ObjStr),
}

/// The mathematical shape of a `Value`: the string tag carries the interned
/// characters themselves.
pub enum ValueV {
    Bool(bool),
    Nil,
    Num(u64),
    Str(Seq<char>),
}

impl View for Value {
    type V = ValueV;

    open spec fn view(&self) -> ValueV {
        match *self {
            Value::Bool(b) => ValueV::Bool(b),
            Value::Nil => ValueV::Nil,
            Value::Number(n) => ValueV::Num(n),
            Value::Str(s) => ValueV::Str(ustr_chars(s.string)),
        }
    }
}

/// Equality of two values: false across tags, structural on booleans and
/// nil, IEEE-754 equality on numbers, character equality on strings.
pub open spec fn value_eq_spec(a: ValueV, b: ValueV) -> bool {
    match (a, b) {
        (ValueV::Bool(x), ValueV::Bool(y)) => x == y,
        (ValueV::Nil, ValueV::Nil) => true,
        (ValueV::Num(x), ValueV::Num(y)) => float_eq(x, y),
        (ValueV::Str(x), ValueV::Str(y)) => x == y,
        _ => false,
    }
}

/// Whether a value counts as false: nil, the false boolean, and the empty
/// string.
pub open spec fn value_falsy(v: ValueV) -> bool {
    match v {
        ValueV::Nil => true,
        ValueV::Bool(b) => !b,
        ValueV::Str(s) => s.len() == 0,
        ValueV::Num(_) => false,
    }
}

/// The printed form of a value: `nil`, `true` or `false`, the decimal
/// rendering of a number, or a string's raw characters.
pub open spec fn value_text(v: ValueV) -> Seq<char> {
    match v {
        ValueV::Nil => "nil"@,
        ValueV::Bool(b) => if b {
            "true"@
        } else {
            "false"@
        },
        ValueV::Num(n) => fmt_bits(n),
        ValueV::Str(s) => s,
    }
}

/// Whether a value is equal to itself: true for every value except a NaN
/// number.
pub open spec fn value_self_eq(v: ValueV) -> bool {
    match v {
        ValueV::Num(n) => !is_nan_bits(n),
        _ => true,
    }
}

impl Value {
    /// Whether this value counts as false.
    pub fn is_falsy(&self) -> (r: bool)
        ensures
            r == value_falsy(self@),
    {
        match self {
            Value::Nil => true,
            Value::Bool(b) => !*b,
            Value::Str(s) => interned_str(&s.string).is_empty(),
            Value::Number(_) => false,
        }
    }

    /// Equality against another value, false across tags.
    pub fn eq(&self, other: &Self) -> (r: bool)
        ensures
            r == value_eq_spec(self@, other@),
    {
        match (self, other) {
            (Value::Bool(a), Value::Bool(b)) => *a == *b,
            (Value::Nil, Value::Nil) => true,
            (Value::Number(a), Value::Number(b)) => num_eq(*a, *b),
            (Value::Str(l), Value::Str(r)) => interned_eq(&l.string, &r.string),
            _ => false,
        }
    }

    /// The printed form of this value.
    pub fn render(&self) -> (s: String)
        ensures
            s@ == value_text(self@),
    {
        match self {
            Value::Nil => String::from_str("nil"),
            Value::Bool(b) => if *b {
                String::from_str("true")
            } else {
                String::from_str("false")
            },
            Value::Number(n) => crate::numeric::num_format(*n),
            Value::Str(s) => interned_str(&s.string).to_owned(),
        }
    }
}

/// Value equality is symmetric.
pub proof fn lemma_value_eq_symmetric(a: ValueV, b: ValueV)
    ensures
        value_eq_spec(a, b) == value_eq_spec(b, a),
{
}

/// Value equality is reflexive for every value but a NaN number.
pub proof fn lemma_value_eq_reflexive(v: ValueV)
    ensures
        value_eq_spec(v, v) == value_self_eq(v),
{
}

/// The constant pool: the ordered sequence of values a chunk's code refers
/// to by index.
pub struct ValuePool {
    pub values: Vec<Value>,
}

impl ValuePool {
    /// An empty pool.
    pub fn new() -> (p: Self)
        ensures
            p.values@ == Seq::<Value>::empty(),
    {
        ValuePool { values: Vec::new() }
    }
}

} // verus!
