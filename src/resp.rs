use vstd::prelude::*;

verus! {

/// A protocol value: what a decoded request carries and what a reply is made of.
#[derive(Debug, PartialEq, Eq)]
pub enum Value {
    /// A status line such as `OK` or `PONG`.
    SimpleString(String),
    /// A length-prefixed string.
    BulkString(String),
    /// An error line, such as `ERR unknown command`.
    Error(String),
    /// A non-negative integer.
    IntegerString(usize),
    /// An ordered array of nested values.
    Array(Vec<Value>),
    /// The null bulk string.
    NullBulkString,
}

/// The text of a value that may name a key or carry a stored value.
pub open spec fn text_of(v: Value) -> Option<String> {
    match v {
        Value::BulkString(s) => Some(s),
        Value::SimpleString(s) => Some(s),
        _ => None,
    }
}

/// Reads the text of a string value; other values have none.
pub fn as_text(v: &Value) -> (r: Option<String>)
    ensures
        r == text_of(*v),
{
    match v {
        Value::BulkString(s) => Some(s.clone()),
        Value::SimpleString(s) => Some(s.clone()),
        _ => None,
    }
}

} // verus!
