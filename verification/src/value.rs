//! The runtime values of the language and their mathematical model.

use crate::num::{num_eq, num_eq_exec, num_text, num_text_exec};
use vstd::prelude::*;
use vstd::string::StringExecFns;

verus! {

/// A runtime value: `nil`, a boolean, a number (held as the 64-bit pattern
/// of an IEEE-754 double), or an owned string.
#[derive(Debug)]
pub enum Value {
    Bool(bool),
    Nil,
    Number(u64),
    Str(String),
}

/// The mathematical model of a [`Value`]: the same tags, with the string
/// payload abstracted to its character sequence.
pub ghost enum SpecValue {
    Bool(bool),
    Nil,
    Number(u64),
    Str(Seq<char>),
}

impl View for Value {
    type V = SpecValue;

    open spec fn view(&self) -> SpecValue {
        match *self {
            Value::Bool(b) => SpecValue::Bool(b),
            Value::Nil => SpecValue::Nil,
            Value::Number(n) => SpecValue::Number(n),
            Value::Str(s) => SpecValue::Str(s@),
        }
    }
}

/// Structural, tag-strict equality: values of different tags are never
/// equal; numbers compare by IEEE-754 equality, strings by their characters.
pub open spec fn spec_value_eq(a: SpecValue, b: SpecValue) -> bool {
    match (a, b) {
        (SpecValue::Bool(x), SpecValue::Bool(y)) => x == y,
        (SpecValue::Nil, SpecValue::Nil) => true,
        (SpecValue::Number(x), SpecValue::Number(y)) => num_eq(x, y),
        (SpecValue::Str(x), SpecValue::Str(y)) => x == y,
        _ => false,
    }
}

/// Only `false` and `nil` are falsy; every other value (zero and the empty
/// string included) is truthy.
pub open spec fn spec_is_falsy(v: SpecValue) -> bool {
    v == SpecValue::Bool(false) || v == SpecValue::Nil
}

/// The display text of a value: a number renders in decimal, a string as its
/// own characters, booleans as `true`/`false`, and nil as `Nil`.
pub open spec fn spec_display(v: SpecValue) -> Seq<char> {
    match v {
        SpecValue::Bool(b) => if b {
            "true"@
        } else {
            "false"@
        },
        SpecValue::Nil => "Nil"@,
        SpecValue::Number(n) => num_text(n),
        SpecValue::Str(s) => s,
    }
}

/// The models of a sequence of values, element by element.
pub open spec fn view_values(s: Seq<Value>) -> Seq<SpecValue> {
    s.map_values(|v: Value| v@)
}

impl Value {
    /// Structural, tag-strict equality (see [`spec_value_eq`]).
    pub fn eq_value(&self, other: &Value) -> (r: bool)
        ensures
            r == spec_value_eq(self@, other@),
    {
        match (self, other) {
            (Value::Bool(x), Value::Bool(y)) => *x == *y,
            (Value::Nil, Value::Nil) => true,
            (Value::Number(x), Value::Number(y)) => num_eq_exec(*x, *y),
            (Value::Str(x), Value::Str(y)) => *x == *y,
            _ => false,
        }
    }

    /// Whether the value is falsy (see [`spec_is_falsy`]).
    pub fn is_falsy(&self) -> (r: bool)
        ensures
            r == spec_is_falsy(self@),
    {
        match self {
            Value::Bool(b) => !*b,
            Value::Nil => true,
            _ => false,
        }
    }

    /// The display text of the value (see [`spec_display`]).
    pub fn display_text(&self) -> (r: String)
        ensures
            r@ == spec_display(self@),
    {
        match self {
            Value::Bool(b) => if *b {
                String::from_str("true")
            } else {
                String::from_str("false")
            },
            Value::Nil => String::from_str("Nil"),
            Value::Number(n) => num_text_exec(*n),
            Value::Str(s) => s.clone(),
        }
    }
}

/// Whether two values carry the same tag.
pub open spec fn spec_same_tag(a: SpecValue, b: SpecValue) -> bool {
    match (a, b) {
        (SpecValue::Bool(_), SpecValue::Bool(_)) => true,
        (SpecValue::Nil, SpecValue::Nil) => true,
        (SpecValue::Number(_), SpecValue::Number(_)) => true,
        (SpecValue::Str(_), SpecValue::Str(_)) => true,
        _ => false,
    }
}

/// Equality never coerces across tags: values of different tags are never
/// equal, whatever they carry.
pub proof fn lemma_eq_tag_strict(a: SpecValue, b: SpecValue)
    ensures
        !spec_same_tag(a, b) ==> !spec_value_eq(a, b),
{
}

/// Truthiness: exactly `false` and `nil` are falsy. Every number (zero
/// included) and every string (the empty string included) is truthy.
pub proof fn lemma_truthiness(v: SpecValue)
    ensures
        spec_is_falsy(v) <==> (v == SpecValue::Bool(false) || v == SpecValue::Nil),
        v matches SpecValue::Number(_) ==> !spec_is_falsy(v),
        v matches SpecValue::Str(_) ==> !spec_is_falsy(v),
{
}

impl Clone for Value {
    fn clone(&self) -> (r: Value)
        ensures
            r == *self,
    {
        match self {
            Value::Bool(b) => Value::Bool(*b),
            Value::Nil => Value::Nil,
            Value::Number(n) => Value::Number(*n),
            Value::Str(s) => Value::Str(s.clone()),
        }
    }
}

impl PartialEq for Value {
    fn eq(&self, other: &Value) -> bool {
        self.eq_value(other)
    }
}

impl vstd::std_specs::cmp::PartialEqSpecImpl for Value {
    open spec fn obeys_eq_spec() -> bool {
        true
    }

    open spec fn eq_spec(&self, other: &Value) -> bool {
        spec_value_eq(self@, other@)
    }
}

} // verus!
