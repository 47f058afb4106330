use vstd::prelude::*;
use crate::resp::Value;

verus! {

/// The operation a request names.
#[derive(Debug, Clone, Copy, PartialEq, Eq, Structural)]
pub enum CommandType {
    Ping,
    Echo,
    SetKey,
    Get,
    Rpush,
    LPush,
    Lrange,
    LLen,
    LPop,
    BLpop,
    Unknown,
}

/// The operation that a command name denotes; names are matched exactly.
pub open spec fn command_type_of(name: Seq<char>) -> CommandType {
    if name == "PING"@ {
        CommandType::Ping
    } else if name == "ECHO"@ {
        CommandType::Echo
    } else if name == "SET"@ {
        CommandType::SetKey
    } else if name == "GET"@ {
        CommandType::Get
    } else if name == "RPUSH"@ {
        CommandType::Rpush
    } else if name == "LPUSH"@ {
        CommandType::LPush
    } else if name == "LRANGE"@ {
        CommandType::Lrange
    } else if name == "LLEN"@ {
        CommandType::LLen
    } else if name == "LPOP"@ {
        CommandType::LPop
    } else if name == "BLPOP"@ {
        CommandType::BLpop
    } else {
        CommandType::Unknown
    }
}

/// Compares a string with a literal.
fn is_name(s: &String, lit: &str) -> (r: bool)
    ensures
        r == (s@ == lit@),
{
    *s == lit.to_owned()
}

impl CommandType {
    /// The operation that `name` denotes.
    pub fn from(name: &str) -> (r: CommandType)
        ensures
            r == command_type_of(name@),
    {
        let s = name.to_owned();
        if is_name(&s, "PING") {
            CommandType::Ping
        } else if is_name(&s, "ECHO") {
            CommandType::Echo
        } else if is_name(&s, "SET") {
            CommandType::SetKey
        } else if is_name(&s, "GET") {
            CommandType::Get
        } else if is_name(&s, "RPUSH") {
            CommandType::Rpush
        } else if is_name(&s, "LPUSH") {
            CommandType::LPush
        } else if is_name(&s, "LRANGE") {
            CommandType::Lrange
        } else if is_name(&s, "LLEN") {
            CommandType::LLen
        } else if is_name(&s, "LPOP") {
            CommandType::LPop
        } else if is_name(&s, "BLPOP") {
            CommandType::BLpop
        } else {
            CommandType::Unknown
        }
    }
}

/// A decoded request: an operation and its arguments in order.
pub struct Command {
    pub command_type: CommandType,
    pub args: Vec<Value>,
}

impl Command {
    /// The command named `command` with arguments `args`.
    pub fn new(command: &str, args: Vec<Value>) -> (r: Command)
        ensures
            r.command_type == command_type_of(command@),
            r.args == args,
    {
        Command { command_type: CommandType::from(command), args }
    }
}

} // verus!
