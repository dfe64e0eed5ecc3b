use crate::text::{decimal, i64_to_string};
use vstd::prelude::*;

verus! {

/// A value that evaluation yields.
#[derive(Debug, PartialEq, Eq)]
pub enum Object {
    Int(i64),
    Bool(bool),
    /// The absence of a useful value.
    Null,
    /// A value on its way out of the blocks that enclose a `return`.
    ReturnValue(Box<Object>),
}

impl Object {
    /// The text of a value: an integer in decimal, a boolean as `true` or
    /// `false`, the null value as `nil`, a returned value as what it wraps.
    pub open spec fn text(self) -> Seq<char>
        decreases self,
    {
        match self {
            Object::Int(i) => decimal(i as int),
            Object::Bool(b) => if b {
                "true"@
            } else {
                "false"@
            },
            Object::Null => "nil"@,
            Object::ReturnValue(inner) => inner.text(),
        }
    }

    /// What a value is once the wrappers of `return` are taken off.
    pub open spec fn unwrapped(self) -> Object
        decreases self,
    {
        match self {
            Object::ReturnValue(inner) => inner.unwrapped(),
            _ => self,
        }
    }

    /// Takes the wrappers of `return` off a value.
    pub fn into_unwrapped(self) -> (r: Object)
        ensures
            r == self.unwrapped(),
            !(r is ReturnValue),
        decreases self,
    {
        match self {
            Object::ReturnValue(inner) => (*inner).into_unwrapped(),
            other => other,
        }
    }

    /// The text of the value.
    pub fn to_string(&self) -> (s: String)
        ensures
            s@ == self.text(),
        decreases self,
    {
        match self {
            Object::Int(i) => i64_to_string(*i),
            Object::Bool(b) => if *b {
                String::from_str("true")
            } else {
                String::from_str("false")
            },
            Object::Null => String::from_str("nil"),
            Object::ReturnValue(inner) => inner.to_string(),
        }
    }
}

impl Clone for Object {
    fn clone(&self) -> (r: Self)
        ensures
            r == *self,
        decreases self,
    {
        match self {
            Object::Int(i) => Object::Int(*i),
            Object::Bool(b) => Object::Bool(*b),
            Object::Null => Object::Null,
            Object::ReturnValue(inner) => Object::ReturnValue(Box::new((&**inner).clone())),
        }
    }
}

/// The text of a value never shows the wrappers of `return`.
pub proof fn lemma_text_of_unwrapped(o: Object)
    ensures
        o.unwrapped().text() == o.text(),
        !(o.unwrapped() is ReturnValue),
    decreases o,
{
    match o {
        Object::ReturnValue(inner) => lemma_text_of_unwrapped(*inner),
        _ => {},
    }
}

} // verus!
