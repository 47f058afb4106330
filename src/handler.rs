use vstd::prelude::*;
use crate::resp::Value;

verus! {

/// Why a decoded request does not have the shape of a command.
#[derive(Debug, Clone, Copy, PartialEq, Eq, Structural)]
pub enum FrameError {
    /// The request is not an array.
    NotAnArray,
    /// The request is an empty array.
    EmptyCommand,
    /// The command name is not a bulk string.
    NameNotBulk,
}

/// The text of a bulk string.
pub fn unpack_bulk_str(value: Value) -> (r: Result<String, FrameError>)
    ensures
        match value {
            Value::BulkString(s) => r == Ok::<String, FrameError>(s),
            _ => r == Err::<String, FrameError>(FrameError::NameNotBulk),
        },
{
    match value {
        Value::BulkString(s) => Ok(s),
        _ => Err(FrameError::NameNotBulk),
    }
}

/// Splits a request, an array whose head is a bulk string, into the command
/// name and the remaining arguments.
pub fn extract_command(value: Value) -> (r: Result<(String, Vec<Value>), FrameError>)
    ensures
        match value {
            Value::Array(a) => if a@.len() == 0 {
                r == Err::<(String, Vec<Value>), FrameError>(FrameError::EmptyCommand)
            } else {
                match a@[0] {
                    Value::BulkString(s) => (r matches Ok((name, rest)) && name == s && rest@
                        == a@.skip(1)),
                    _ => r == Err::<(String, Vec<Value>), FrameError>(FrameError::NameNotBulk),
                }
            },
            _ => r == Err::<(String, Vec<Value>), FrameError>(FrameError::NotAnArray),
        },
{
    match value {
        Value::Array(a) => {
            let mut a = a;
            if a.len() == 0 {
                return Err(FrameError::EmptyCommand);
            }
            let ghost a0 = a@;
            let first = a.remove(0);
            assert(a@ =~= a0.skip(1));
            let name = unpack_bulk_str(first)?;
            Ok((name, a))
        },
        _ => Err(FrameError::NotAnArray),
    }
}

} // verus!
