//! The one-character type tag of a frame, and the dispatch from a tag to
//! its decoding rule.

use vstd::prelude::*;

use crate::decoder::{
    decode_array, decode_bulk, decode_simple, spec_decode_array, spec_decode_bulk,
    spec_decode_simple,
};
use crate::resp::Resp;
use crate::value::{Value, ValueView};

verus! {

/// The frame type named by a leading tag byte.
#[derive(Debug, PartialEq)]
pub enum Identifier {
    SimpleString(crate::strategy::SimpleStringStrategy),
    SimpleError,
    BulkString(crate::strategy::BulkStringStrategy),
    Arrays(crate::strategy::ArrayStrategy),
    Integer,
    Unsupported,
}

/// The tag named by each tag character.
pub open spec fn identifier_of(c: char) -> Identifier {
    if c == '+' {
        Identifier::SimpleString(crate::strategy::SimpleStringStrategy)
    } else if c == '-' {
        Identifier::SimpleError
    } else if c == ':' {
        Identifier::Integer
    } else if c == '$' {
        Identifier::BulkString(crate::strategy::BulkStringStrategy)
    } else if c == '*' {
        Identifier::Arrays(crate::strategy::ArrayStrategy)
    } else {
        Identifier::Unsupported
    }
}

impl Identifier {
    /// The tag named by `c`.
    pub fn from(c: char) -> (r: Self)
        ensures
            r == identifier_of(c),
    {
        match c {
            '+' => Identifier::SimpleString(crate::strategy::SimpleStringStrategy),
            '-' => Identifier::SimpleError,
            ':' => Identifier::Integer,
            '$' => Identifier::BulkString(crate::strategy::BulkStringStrategy),
            '*' => Identifier::Arrays(crate::strategy::ArrayStrategy),
            _ => Identifier::Unsupported,
        }
    }

    /// What this tag's rule decodes from the start of `s`: the unsupported
    /// tags decode nothing.
    pub open spec fn spec_apply(self, s: Seq<u8>) -> Option<(ValueView, int)> {
        match self {
            Identifier::SimpleString(_) => spec_decode_simple(s),
            Identifier::BulkString(_) => spec_decode_bulk(s),
            Identifier::Arrays(_) => spec_decode_array(s),
            _ => None,
        }
    }

    /// Applies this tag's decoding rule, with full frame bookkeeping.
    pub fn apply(&self, value: &[u8]) -> (r: Option<Resp>)
        ensures
            match r {
                Some(resp) => self.spec_apply(value@) == Some((resp.decoded(), resp.end_at as int))
                    && resp.identifier == *self,
                None => self.spec_apply(value@) is None,
            },
    {
        match self {
            Identifier::SimpleString(_) => crate::strategy::SimpleStringStrategy.apply(value),
            Identifier::BulkString(_) => crate::strategy::BulkStringStrategy.apply(value),
            Identifier::Arrays(_) => crate::strategy::ArrayStrategy.apply(value),
            _ => None,
        }
    }

    /// Applies this tag's decoding rule and keeps the decoded value alone.
    pub fn parse(&self, value: &[u8]) -> (r: Option<Value>)
        ensures
            match r {
                Some(v) => exists|c: int| self.spec_apply(value@) == Some((v@, c)),
                None => self.spec_apply(value@) is None,
            },
    {
        let w = match self {
            Identifier::SimpleString(_) => SimpleStringStrategy.apply(value),
            Identifier::BulkString(_) => BulkStringStrategy.apply(value),
            Identifier::Arrays(_) => ArrayStrategy.apply(value),
            _ => None,
        };
        match w {
            Some(w) => {
                proof {
                    assert(self.spec_apply(value@) == Some((w.value@, w.end_at as int)));
                }
                Some(w.value)
            },
            None => None,
        }
    }
}

/// The per-rule decode result: the decoded value and the count of bytes
/// the frame occupied.
pub struct ValueWrapper {
    pub value: Value,
    pub end_at: usize,
}

/// One decoding rule: what it decodes is fixed by `rule`, and `apply`
/// realizes exactly that on real bytes.
pub trait IdentifierStrategy {
    /// What this rule decodes from the start of `s`.
    spec fn rule(&self, s: Seq<u8>) -> Option<(ValueView, int)>;

    /// Applies the rule to the start of `value`.
    fn apply(&self, value: &[u8]) -> (r: Option<ValueWrapper>)
        ensures
            match r {
                Some(w) => self.rule(value@) == Some((w.value@, w.end_at as int)),
                None => self.rule(value@) is None,
            },
    ;
}

/// Decodes the simple-line shape to a bare value.
#[derive(Debug, PartialEq)]
pub struct SimpleStringStrategy;

/// Decodes the length-prefixed blob shape to a bare value.
#[derive(Debug, PartialEq)]
pub struct BulkStringStrategy;

/// Decodes the ordered list shape to a bare value.
#[derive(Debug, PartialEq)]
pub struct ArrayStrategy;

impl IdentifierStrategy for SimpleStringStrategy {
    /// The simple-line rule.
    open spec fn rule(&self, s: Seq<u8>) -> Option<(ValueView, int)> {
        spec_decode_simple(s)
    }

    fn apply(&self, value: &[u8]) -> (r: Option<ValueWrapper>) {
        match decode_simple(value) {
            Some((content, used)) => Some(ValueWrapper { value: Value::Text(content), end_at: used }),
            None => None,
        }
    }
}

impl IdentifierStrategy for BulkStringStrategy {
    /// The blob rule.
    open spec fn rule(&self, s: Seq<u8>) -> Option<(ValueView, int)> {
        spec_decode_bulk(s)
    }

    fn apply(&self, value: &[u8]) -> (r: Option<ValueWrapper>) {
        match decode_bulk(value) {
            Some((content, used)) => Some(ValueWrapper { value: Value::Text(content), end_at: used }),
            None => None,
        }
    }
}

impl IdentifierStrategy for ArrayStrategy {
    /// The list rule.
    open spec fn rule(&self, s: Seq<u8>) -> Option<(ValueView, int)> {
        spec_decode_array(s)
    }

    fn apply(&self, value: &[u8]) -> (r: Option<ValueWrapper>) {
        match decode_array(value) {
            Some((v, used)) => Some(ValueWrapper { value: v, end_at: used }),
            None => None,
        }
    }
}

} // verus!
