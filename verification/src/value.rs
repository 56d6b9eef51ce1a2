//! Runtime values: nil, booleans, double-precision numbers (carried as
//! their bit patterns) and interned strings. Values are plain data, cheap
//! to copy, with no heap ownership beyond an [`IString`] identity.

use vstd::prelude::*;

use crate::num::{lt_bits, num_lt, num_sub, sub_bits, NUM_TOL_BITS};
use crate::object::IString;

verus! {

/// A runtime value. Numbers carry the bits of an IEEE 754 double.
#[derive(Debug, Clone, Copy, PartialEq, Eq, Structural)]
pub enum Value {
    Nil,
    Bool(bool),
    Num(u64),
    Str(IString),
}

/// Language equality between two values: nil compares equal to anything,
/// booleans by value, numbers within a tolerance of 1e-9 (each difference,
/// taken as a double, is below it, so the magnitude of the difference is),
/// strings by interned identity, and values of differing kinds otherwise
/// compare unequal.
pub open spec fn value_eq_spec(a: Value, b: Value) -> bool {
    match (a, b) {
        (Value::Nil, _) => true,
        (Value::Bool(x), Value::Bool(y)) => x == y,
        (Value::Num(x), Value::Num(y)) => lt_bits(sub_bits(x, y), NUM_TOL_BITS) && lt_bits(
            sub_bits(y, x),
            NUM_TOL_BITS,
        ),
        (Value::Str(x), Value::Str(y)) => x == y,
        _ => false,
    }
}

/// A value's string identity, if any, points into an interner of length
/// `ilen`.
pub open spec fn valid_value(v: Value, ilen: int) -> bool {
    match v {
        Value::Str(s) => s.0 < ilen,
        _ => true,
    }
}

/// Every value of the sequence is valid for an interner of length `ilen`.
pub open spec fn valid_values(vs: Seq<Value>, ilen: int) -> bool {
    forall|i: int| 0 <= i < vs.len() ==> valid_value(vs[i], ilen)
}

/// Appending a valid value keeps a valid sequence valid.
pub proof fn lemma_valid_values_push(vs: Seq<Value>, v: Value)
    ensures
        forall|il: int|
            #[trigger] valid_values(vs, il) && valid_value(v, il) ==> valid_values(vs.push(v), il),
{
    assert forall|il: int|
        #[trigger] valid_values(vs, il) && valid_value(v, il) implies valid_values(
        vs.push(v),
        il,
    ) by {
        assert forall|i: int| 0 <= i < vs.push(v).len() implies valid_value(
            vs.push(v)[i],
            il,
        ) by {
            if i < vs.len() {
                assert(vs.push(v)[i] == vs[i]);
            }
        };
    };
}

/// Values valid for a short interner stay valid as it grows.
pub proof fn lemma_valid_values_grow(vs: Seq<Value>, a: int, b: int)
    requires
        valid_values(vs, a),
        a <= b,
    ensures
        valid_values(vs, b),
{
    assert forall|i: int| 0 <= i < vs.len() implies valid_value(vs[i], b) by {
        assert(valid_value(vs[i], a));
    };
}

/// Nil and false are falsey; every other value, zero and the empty string
/// included, is truthy.
pub open spec fn is_falsey_spec(v: Value) -> bool {
    v == Value::Nil || v == Value::Bool(false)
}

impl Value {
    /// The number's bits, where this is a number.
    pub fn as_num(&self) -> (r: Option<u64>)
        ensures
            r == (match *self {
                Value::Num(n) => Some(n),
                _ => None::<u64>,
            }),
    {
        if let Value::Num(n) = self {
            Some(*n)
        } else {
            None
        }
    }

    /// The interned identity, where this is a string.
    pub fn as_str(&self) -> (r: Option<IString>)
        ensures
            r == (match *self {
                Value::Str(s) => Some(s),
                _ => None::<IString>,
            }),
    {
        if let Value::Str(s) = self {
            Some(*s)
        } else {
            None
        }
    }

    pub fn is_falsey(&self) -> (r: bool)
        ensures
            r == is_falsey_spec(*self),
    {
        match self {
            Value::Nil => true,
            Value::Bool(b) => !*b,
            _ => false,
        }
    }

    /// Language equality; see [`value_eq_spec`].
    pub fn eq(&self, other: &Value) -> (r: bool)
        ensures
            r == value_eq_spec(*self, *other),
    {
        match (self, other) {
            (Value::Nil, _) => true,
            (Value::Bool(a), Value::Bool(b)) => *a == *b,
            (Value::Num(a), Value::Num(b)) => num_lt(num_sub(*a, *b), NUM_TOL_BITS) && num_lt(
                num_sub(*b, *a),
                NUM_TOL_BITS,
            ),
            (Value::Str(a), Value::Str(b)) => a.0 == b.0,
            _ => false,
        }
    }
}

impl Default for Value {
    /// The default value is the number zero.
    fn default() -> (r: Self)
        ensures
            r == Value::Num(0u64),
    {
        Value::Num(0)
    }
}

} // verus!
