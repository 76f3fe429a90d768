//! From raw bytes to a typed command: decode one frame, then read the
//! decoded value as a command name with its arguments.

use vstd::prelude::*;

use crate::bytes::{ascii_lower, bytes_eq, to_ascii_lower};
use crate::command_type::{CommandType, CommandView};
use crate::commands::{spec_set_command, EchoCommand, GetCommand, PingCommand, SetCommand};
use crate::decoder::spec_decode;
use crate::identifier::Identifier;
use crate::value::{clone_value, lemma_views_upto_index, value_views_upto, Value, ValueView};

verus! {

/// The lower-case liveness command name.
pub open spec fn ping_name() -> Seq<u8> {
    seq![112u8, 105u8, 110u8, 103u8]
}

/// The lower-case echo command name.
pub open spec fn echo_name() -> Seq<u8> {
    seq![101u8, 99u8, 104u8, 111u8]
}

/// The lower-case write command name.
pub open spec fn set_name() -> Seq<u8> {
    seq![115u8, 101u8, 116u8]
}

/// The lower-case read command name.
pub open spec fn get_name() -> Seq<u8> {
    seq![103u8, 101u8, 116u8]
}

/// The command a bare scalar request names: only the liveness probe,
/// regardless of case.
pub open spec fn spec_text_command(t: Seq<u8>) -> Option<CommandView> {
    if ascii_lower(t) == ping_name() {
        Some(CommandView::Ping)
    } else {
        None
    }
}

/// The command a list request names: the first element names it
/// regardless of case, the remaining elements are its arguments; an
/// argument shape a command does not accept names no command at all.
pub open spec fn spec_list_command(vs: Seq<ValueView>) -> Option<CommandView> {
    if vs.len() == 0 {
        None
    } else {
        match vs[0] {
            ValueView::Text(name) => {
                let lname = ascii_lower(name);
                let args = vs.drop_first();
                if lname == echo_name() {
                    if vs.len() == 2 {
                        match vs[1] {
                            ValueView::Text(_) => Some(CommandView::Echo(vs[1])),
                            _ => None,
                        }
                    } else {
                        None
                    }
                } else if lname == ping_name() {
                    Some(CommandView::Ping)
                } else if lname == set_name() {
                    match spec_set_command(args) {
                        Some((k, v, px)) => Some(CommandView::SetValue(k, v, px)),
                        None => None,
                    }
                } else if lname == get_name() {
                    if args.len() == 1 {
                        match args[0] {
                            ValueView::Text(k) => Some(CommandView::Get(k)),
                            _ => None,
                        }
                    } else {
                        None
                    }
                } else {
                    None
                }
            },
            _ => None,
        }
    }
}

/// The command a decoded value names.
pub open spec fn spec_command_of(v: ValueView) -> Option<CommandView> {
    match v {
        ValueView::Text(t) => spec_text_command(t),
        ValueView::List(vs) => spec_list_command(vs),
        ValueView::Int(_) => None,
    }
}

/// The command a raw request names, if its bytes decode at all and the
/// decoded value has a command's shape.
pub open spec fn spec_parse(s: Seq<u8>) -> Option<CommandView> {
    match spec_decode(s) {
        None => None,
        Some((v, c)) => spec_command_of(v),
    }
}

/// The raw-bytes-to-command pipeline.
pub struct Parser;

impl Parser {
    /// Decodes one frame and reads it as a command; failure in either
    /// step yields no command, and no reply is ever owed for it.
    pub fn parse(input: &[u8]) -> (r: Option<CommandType>)
        ensures
            match r {
                Some(cmd) => spec_parse(input@) == Some(cmd@),
                None => spec_parse(input@) is None,
            },
    {
        if input.is_empty() {
            return None;
        }
        let ch = input[0] as char;
        let id = Identifier::from(ch);
        proof {
            assert(id.spec_apply(input@) == spec_decode(input@));
        }
        let value = match id.parse(input) {
            Some(v) => v,
            None => {
                return None;
            },
        };
        match value {
            Value::Text(s) => Self::parse_string(s),
            Value::List(vec) => Self::parse_list(vec),
            _ => None,
        }
    }

    /// Reads a bare scalar as a command name.
    fn parse_string(string: Vec<u8>) -> (r: Option<CommandType>)
        ensures
            match r {
                Some(cmd) => spec_text_command(string@) == Some(cmd@),
                None => spec_text_command(string@) is None,
            },
    {
        let lower = to_ascii_lower(string.as_slice());
        let mut name: Vec<u8> = Vec::new();
        name.push(112);
        name.push(105);
        name.push(110);
        name.push(103);
        proof {
            assert(name@ =~= ping_name());
        }
        if bytes_eq(lower.as_slice(), name.as_slice()) {
            Some(CommandType::Ping(PingCommand))
        } else {
            None
        }
    }

    /// Reads a list as a command: the first element names it, the rest
    /// are handed to the command's own constructor.
    fn parse_list(values: Vec<Value>) -> (r: Option<CommandType>)
        ensures
            ({
                let vs = value_views_upto(&values, values@.len() as int);
                match r {
                    Some(cmd) => spec_list_command(vs) == Some(cmd@),
                    None => spec_list_command(vs) is None,
                }
            }),
    {
        proof {
            lemma_views_upto_index(&values, values@.len() as int);
        }
        if values.len() == 0 {
            return None;
        }
        let command = match &values[0] {
            Value::Text(name) => vstd::slice::slice_to_vec(name.as_slice()),
            _ => {
                return None;
            },
        };
        let lower = to_ascii_lower(command.as_slice());
        let all = clone_tail(&values);
        let ghost vs = value_views_upto(&values, values@.len() as int);
        proof {
            lemma_views_upto_index(&all, all@.len() as int);
            assert(value_views_upto(&all, all@.len() as int) =~= vs.drop_first());
        }
        let mut name: Vec<u8> = Vec::new();
        name.push(101);
        name.push(99);
        name.push(104);
        name.push(111);
        proof {
            assert(name@ =~= echo_name());
        }
        if bytes_eq(lower.as_slice(), name.as_slice()) {
            if values.len() == 2 {
                return match &values[1] {
                    Value::Text(_) => Some(
                        CommandType::Echo(EchoCommand { value: clone_value(&values[1]) }),
                    ),
                    _ => None,
                };
            }
            return None;
        }
        let mut name: Vec<u8> = Vec::new();
        name.push(112);
        name.push(105);
        name.push(110);
        name.push(103);
        proof {
            assert(name@ =~= ping_name());
        }
        if bytes_eq(lower.as_slice(), name.as_slice()) {
            return Some(CommandType::Ping(PingCommand));
        }
        let mut name: Vec<u8> = Vec::new();
        name.push(115);
        name.push(101);
        name.push(116);
        proof {
            assert(name@ =~= set_name());
        }
        if bytes_eq(lower.as_slice(), name.as_slice()) {
            return match SetCommand::from(all) {
                Some(c) => Some(CommandType::SetValue(c)),
                None => None,
            };
        }
        let mut name: Vec<u8> = Vec::new();
        name.push(103);
        name.push(101);
        name.push(116);
        proof {
            assert(name@ =~= get_name());
        }
        if bytes_eq(lower.as_slice(), name.as_slice()) {
            return match GetCommand::from(all) {
                Some(c) => Some(CommandType::Get(c)),
                None => None,
            };
        }
        None
    }
}

/// Copies of every value after the first: a command's argument run.
fn clone_tail(values: &Vec<Value>) -> (r: Vec<Value>)
    requires
        values@.len() >= 1,
    ensures
        r@.len() == values@.len() - 1,
    forall|j: int| 0 <= j < r@.len() ==> (#[trigger] r[j])@ == values[j + 1]@,
{
    let mut r: Vec<Value> = Vec::new();
    let mut i: usize = 1;
    while i < values.len()
        invariant
            1 <= i <= values@.len(),
            r@.len() == i - 1,
            forall|j: int| 0 <= j < r@.len() ==> (#[trigger] r[j])@ == values[j + 1]@,
        decreases values@.len() - i,
    {
        r.push(clone_value(&values[i]));
        i = i + 1;
    }
    r
}

} // verus!
