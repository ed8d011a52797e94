//! The values that the operand stack and the variables hold.

use crate::text::{decimal_int, int_to_string};
use vstd::prelude::*;
use vstd::std_specs::cmp::PartialEqSpecImpl;
use vstd::string::StringExecFns;

verus! {

/// A value of the language: a 32-bit signed integer, a boolean or a text.
///
/// Values are copied, never shared: `clone` hands out a full copy of a text.
#[derive(Debug)]
pub enum Operand {
    Int(i32),
    Bool(bool),
    String(String),
}

/// What an [`Operand`] stands for: the contracts speak of values of this
/// type.
pub enum Value {
    Int(int),
    Bool(bool),
    Text(Seq<char>),
}

impl View for Operand {
    type V = Value;

    open spec fn view(&self) -> Value {
        match *self {
            Operand::Int(i) => Value::Int(i as int),
            Operand::Bool(b) => Value::Bool(b),
            Operand::String(s) => Value::Text(s@),
        }
    }
}

impl Clone for Operand {
    fn clone(&self) -> (r: Operand)
        ensures
            r == *self,
    {
        match self {
            Operand::Int(i) => Operand::Int(*i),
            Operand::Bool(b) => Operand::Bool(*b),
            Operand::String(s) => Operand::String(s.clone()),
        }
    }
}

impl PartialEq for Operand {
    fn eq(&self, other: &Operand) -> (r: bool) {
        match (self, other) {
            (Operand::Int(a), Operand::Int(b)) => *a == *b,
            (Operand::Bool(a), Operand::Bool(b)) => *a == *b,
            (Operand::String(a), Operand::String(b)) => *a == *b,
            _ => false,
        }
    }
}

impl PartialEqSpecImpl for Operand {
    open spec fn obeys_eq_spec() -> bool {
        true
    }

    open spec fn eq_spec(&self, other: &Operand) -> bool {
        self@ == other@
    }
}

/// The text `true`.
pub open spec fn text_true() -> Seq<char> {
    seq!['t', 'r', 'u', 'e']
}

/// The text `false`.
pub open spec fn text_false() -> Seq<char> {
    seq!['f', 'a', 'l', 's', 'e']
}

/// How a value is written out: an integer in decimal notation, a boolean as
/// `true` or `false`, a text as its own characters.
pub open spec fn rendering(v: Value) -> Seq<char> {
    match v {
        Value::Int(i) => decimal_int(i),
        Value::Bool(b) => if b {
            text_true()
        } else {
            text_false()
        },
        Value::Text(t) => t,
    }
}

impl Operand {
    /// The value written out as a string.
    pub fn render(&self) -> (s: String)
        ensures
            s@ == rendering(self@),
    {
        match self {
            Operand::Int(i) => int_to_string(*i),
            Operand::Bool(b) => {
                proof {
                    reveal_strlit("true");
                    reveal_strlit("false");
                }
                if *b {
                    String::from_str("true")
                } else {
                    String::from_str("false")
                }
            },
            Operand::String(t) => t.clone(),
        }
    }
}

} // verus!
