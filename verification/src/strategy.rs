//! One decoding rule per frame shape, each producing a fully bookkept
//! frame.

use vstd::prelude::*;

use crate::decoder::{
    decode_array, decode_bulk, decode_simple, lemma_decode_bulk_bounds, spec_decode_array,
    spec_decode_bulk, spec_decode_simple,
};
use crate::identifier::Identifier;
use crate::resp::Resp;
use crate::value::Value;

verus! {

/// Decodes the simple-line shape.
#[derive(Debug, PartialEq)]
pub struct SimpleStringStrategy;

/// Decodes the length-prefixed blob shape.
#[derive(Debug, PartialEq)]
pub struct BulkStringStrategy;

/// Decodes the ordered list shape.
#[derive(Debug, PartialEq)]
pub struct ArrayStrategy;

impl SimpleStringStrategy {
    /// Applies the simple-line rule to the start of `value`.
    pub fn apply(&self, value: &[u8]) -> (r: Option<Resp>)
        ensures
            match r {
                Some(resp) => {
                    &&& spec_decode_simple(value@) == Some((resp.decoded(), resp.end_at as int))
                    &&& resp.identifier == Identifier::SimpleString(SimpleStringStrategy)
                    &&& resp.raw@ == value@
                    &&& resp.values@.len() == 0
                },
                None => spec_decode_simple(value@) is None,
            },
    {
        match decode_simple(value) {
            Some((content, used)) => Some(
                Resp {
                    identifier: Identifier::SimpleString(SimpleStringStrategy),
                    raw: vstd::slice::slice_to_vec(value),
                    data: content,
                    values: Vec::new(),
                    end_at: used,
                },
            ),
            None => None,
        }
    }
}

impl BulkStringStrategy {
    /// Applies the blob rule to the start of `value`; the raw bytes kept
    /// are exactly the frame's own.
    pub fn apply(&self, value: &[u8]) -> (r: Option<Resp>)
        ensures
            match r {
                Some(resp) => {
                    &&& spec_decode_bulk(value@) == Some((resp.decoded(), resp.end_at as int))
                    &&& resp.identifier == Identifier::BulkString(BulkStringStrategy)
                    &&& resp.raw@ == value@.subrange(0, resp.end_at as int)
                    &&& resp.values@.len() == 0
                },
                None => spec_decode_bulk(value@) is None,
            },
    {
        match decode_bulk(value) {
            Some((content, used)) => {
                proof {
                    lemma_decode_bulk_bounds(value@);
                }
                Some(
                    Resp {
                        identifier: Identifier::BulkString(BulkStringStrategy),
                        raw: vstd::slice::slice_to_vec(
                            vstd::slice::slice_subrange(value, 0, used),
                        ),
                        data: content,
                        values: Vec::new(),
                        end_at: used,
                    },
                )
            },
            None => None,
        }
    }
}

impl ArrayStrategy {
    /// Applies the list rule to the start of `value`; the elements land in
    /// `values`, in wire order.
    pub fn apply(&self, value: &[u8]) -> (r: Option<Resp>)
        ensures
            match r {
                Some(resp) => {
                    &&& spec_decode_array(value@) == Some((resp.decoded(), resp.end_at as int))
                    &&& resp.identifier == Identifier::Arrays(ArrayStrategy)
                    &&& resp.raw@ == value@
                    &&& resp.data@.len() == 0
                },
                None => spec_decode_array(value@) is None,
            },
    {
        match decode_array(value) {
            Some((v, used)) => {
                let items = match v {
                    Value::List(items) => items,
                    _ => {
                        proof {
                            assert(false);
                        }
                        Vec::new()
                    },
                };
                Some(
                    Resp {
                        identifier: Identifier::Arrays(ArrayStrategy),
                        raw: vstd::slice::slice_to_vec(value),
                        data: Vec::new(),
                        values: items,
                        end_at: used,
                    },
                )
            },
            None => None,
        }
    }
}

} // verus!
