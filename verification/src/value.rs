use vstd::prelude::*;

verus! {

/// A runtime value of the expression language: a number (held as the bit
/// pattern of an IEEE 754 double), a boolean, or nil.
///
/// Equality is structural and same-tag only: two values are equal exactly
/// when they carry the same tag and the same payload; values of different
/// kinds are never equal.
#[derive(Clone, Copy, PartialEq, Eq, Structural, Debug)]
pub enum Value {
    /// A number, stored as the 64 bits of an IEEE 754 double.
    Number(u64),
    Nil,
    Boolean(bool),
}

impl Value {
    /// Nil and `false` are falsey; every other value, numbers included,
    /// is truthy.
    pub fn is_falsey(&self) -> (r: bool)
        ensures
            r == self.spec_is_falsey(),
    {
        match self {
            Value::Boolean(value) => !value,
            Value::Nil => true,
            _ => false,
        }
    }

    pub open spec fn spec_is_falsey(&self) -> bool {
        self matches Value::Nil || self matches Value::Boolean(false)
    }
}

/// Equality on values is reflexive and symmetric, and never equates
/// values of different kinds: a number only ever equals a number, a
/// boolean a boolean, and nil only itself.
pub proof fn lemma_value_equality(a: Value, b: Value)
    ensures
        a == a,
        (a == b) == (b == a),
        a == b ==> ((a matches Value::Number(_)) <==> (b matches Value::Number(_))),
        a == b ==> ((a matches Value::Boolean(_)) <==> (b matches Value::Boolean(_))),
        a == b ==> ((a matches Value::Nil) <==> (b matches Value::Nil)),
{
}

/// The falsey predicate that unary logical-not negates: exactly nil and
/// false are falsey; every other value — every number, zero included,
/// and true — is truthy.
pub proof fn lemma_falsey(v: Value)
    ensures
        v.spec_is_falsey() == (v == Value::Nil || v == Value::Boolean(false)),
{
}

} // verus!
