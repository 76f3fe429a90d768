//! One parsed wire frame together with the raw bytes and the bookkeeping
//! that the decoding rules record about it.

use vstd::prelude::*;

use crate::decoder::spec_decode;
use crate::identifier::{identifier_of, Identifier};
use crate::value::{value_views_upto, Value, ValueView};

verus! {

/// One decoded frame with its bookkeeping: the rule that decoded it, the
/// raw bytes it came from, its scalar content or its elements, and the
/// index just past the frame.
#[derive(Debug, PartialEq)]
pub struct Resp {
    pub identifier: Identifier,
    pub raw: Vec<u8>,
    pub data: Vec<u8>,
    pub values: Vec<Value>,
    pub end_at: usize,
}

impl Resp {
    /// The value this frame carries: the scalar rules carry their content
    /// bytes, the list rule carries its elements.
    pub open spec fn decoded(self) -> ValueView {
        match self.identifier {
            Identifier::SimpleString(_) | Identifier::BulkString(_) => ValueView::Text(
                self.data@,
            ),
            Identifier::Arrays(_) => ValueView::List(
                value_views_upto(&self.values, self.values.len() as int),
            ),
            _ => ValueView::Int(0),
        }
    }

    /// Decodes one frame from the start of `input`, dispatching on the
    /// leading tag byte; the returned frame records the rule its tag
    /// named.
    pub fn parse(input: &[u8]) -> (r: Option<Resp>)
        ensures
            match r {
                Some(resp) => {
                    &&& spec_decode(input@) == Some((resp.decoded(), resp.end_at as int))
                    &&& resp.identifier == identifier_of(input@[0] as char)
                },
                None => spec_decode(input@) is None,
            },
    {
        if input.is_empty() {
            return None;
        }
        let id = Identifier::from(input[0] as char);
        proof {
            assert(id.spec_apply(input@) == spec_decode(input@));
        }
        id.apply(input)
    }
}

} // verus!
