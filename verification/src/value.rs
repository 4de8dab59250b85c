//! What a decode pass yields.

use vstd::prelude::*;

verus! {

/// A decoded value. A string borrows from the input line.
#[derive(Clone, Copy, Debug, PartialEq, Eq)]
pub enum Value<'de> {
    Bool(bool),
    Unsigned(u64),
    Signed(i64),
    Str(&'de str),
    /// The marker `null`: a unit, or an optional value that is absent.
    Null,
}

/// A decoded value, as contracts speak of it.
pub enum SpecValue {
    Bool(bool),
    Unsigned(int),
    Signed(int),
    Str(Seq<char>),
    Null,
}

impl<'de> View for Value<'de> {
    type V = SpecValue;

    open spec fn view(&self) -> SpecValue {
        match *self {
            Value::Bool(b) => SpecValue::Bool(b),
            Value::Unsigned(n) => SpecValue::Unsigned(n as int),
            Value::Signed(n) => SpecValue::Signed(n as int),
            Value::Str(s) => SpecValue::Str(s@),
            Value::Null => SpecValue::Null,
        }
    }
}

/// A decoded command line. The name borrows from the input line.
#[derive(Clone, Copy, Debug, PartialEq, Eq)]
pub struct Command<'de> {
    pub name: &'de str,
    /// `None` for a command without a payload.
    pub payload: Option<Value<'de>>,
}

/// A decoded command line, as contracts speak of it.
pub struct SpecCommand {
    pub name: Seq<char>,
    pub payload: Option<SpecValue>,
}

impl<'de> View for Command<'de> {
    type V = SpecCommand;

    open spec fn view(&self) -> SpecCommand {
        SpecCommand {
            name: self.name@,
            payload: match self.payload {
                Some(v) => Some(v@),
                None => None,
            },
        }
    }
}

/// The view of an optional value.
pub open spec fn option_view(v: Option<Value>) -> Option<SpecValue> {
    match v {
        Some(v) => Some(v@),
        None => None,
    }
}

} // verus!
