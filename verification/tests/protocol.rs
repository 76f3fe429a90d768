//! Decoder-level behavior: the CRLF search, the per-shape strategies,
//! and frame parsing with its failure modes.

use respkv::constants::{CRLFValidator, CR, LF};
use respkv::decoder::decode_frame;
use respkv::identifier::Identifier;
use respkv::identifier::IdentifierStrategy;
use respkv::strategy::{ArrayStrategy, BulkStringStrategy, SimpleStringStrategy};
use respkv::value::Value;

#[test]
pub fn test_1() {
    assert!(CRLFValidator::find(&[CR, LF]).is_some());
}

#[test]
pub fn identifier_simple_strategy() {
    let s = respkv::identifier::SimpleStringStrategy {};
    assert!(s.apply(b"+\r\nhello\r").is_none());
    assert!(s.apply(b"+\nhello\r").is_none());
    assert!(s.apply(b"+\nhello\r\n").is_none());

    let some_resp = s.apply(b"+\r\nhello\r\n");
    assert!(some_resp.is_some());
    let resp = some_resp.unwrap();
    assert_eq!(resp.value, Value::Text(b"hello".to_vec()));
}

#[test]
pub fn identifier_bulk_strategy() {
    let s = respkv::identifier::BulkStringStrategy {};
    let some_resp = s.apply(b"$5\r\nhello\r\n");
    assert!(some_resp.is_some());
    let resp = some_resp.unwrap();
    assert_eq!(resp.value, Value::Text(b"hello".to_vec()));
}

#[test]
pub fn identifier_array_command_strategy() {
    let s = respkv::identifier::ArrayStrategy {};
    let some_resp = s.apply(b"*2\r\n$4\r\nECHO\r\n$6\r\nbanana\r\n");
    assert!(some_resp.is_some());
}

#[test]
pub fn parse_1() {
    let some_resp = respkv::resp::Resp::parse(b"$3\r\nHey\r\n");
    assert!(some_resp.is_some());
    let resp = some_resp.unwrap();
    assert_eq!(resp.identifier, Identifier::BulkString(BulkStringStrategy))
}

#[test]
pub fn test_identifier() {
    assert_eq!(
        Identifier::BulkString(BulkStringStrategy),
        Identifier::from(char::from(36u8))
    );
}

#[test]
pub fn strategy_simple_strategy() {
    let s = SimpleStringStrategy {};
    assert_eq!(None, s.apply(b"+\r\nhello\r"));
    assert_eq!(None, s.apply(b"+\nhello\r"));
    assert_eq!(None, s.apply(b"+\nhello\r\n"));

    let some_resp = s.apply(b"+\r\nhello\r\n");
    assert!(some_resp.is_some());
    let resp = some_resp.unwrap();
    assert_eq!(resp.data, b"hello".to_vec());
}

#[test]
pub fn strategy_bulk_strategy() {
    let s = BulkStringStrategy {};
    let some_resp = s.apply(b"$5\r\nhello\r\n");
    assert!(some_resp.is_some());
    let resp = some_resp.unwrap();
    assert_eq!(resp.data, b"hello".to_vec());
}

#[test]
pub fn strategy_array_command_strategy() {
    let s = ArrayStrategy {};
    let some_resp = s.apply(b"*2\r\n$4\r\nECHO\r\n$6\r\nbanana\r\n");
    assert!(some_resp.is_some());
}

#[test]
fn decode_simple_string_round() {
    let r = decode_frame(b"+\r\nhello\r\nTRAILING").unwrap();
    assert_eq!(r.0, Value::Text(b"hello".to_vec()));
    assert_eq!(r.1, 10);
}

#[test]
fn decode_bulk_round() {
    let r = decode_frame(b"$5\r\nhello\r\n").unwrap();
    assert_eq!(r.0, Value::Text(b"hello".to_vec()));
    assert_eq!(r.1, 11);
}

#[test]
fn decode_binary_safe_bulk() {
    let r = decode_frame(b"$6\r\nab\r\ncd\r\n").unwrap();
    assert_eq!(r.0, Value::Text(b"ab\r\ncd".to_vec()));
    assert_eq!(r.1, 12);
}

#[test]
fn decode_nested_array() {
    let r = decode_frame(b"*2\r\n*1\r\n$1\r\na\r\n$2\r\nbc\r\n").unwrap();
    let inner = Value::List(vec![Value::Text(b"a".to_vec())]);
    assert_eq!(
        r.0,
        Value::List(vec![inner, Value::Text(b"bc".to_vec())])
    );
    assert_eq!(r.1, 23);
}

#[test]
fn decode_empty_array() {
    let r = decode_frame(b"*0\r\n").unwrap();
    assert_eq!(r.0, Value::List(vec![]));
    assert_eq!(r.1, 4);
}

#[test]
fn decode_fails_length_past_buffer() {
    assert!(decode_frame(b"$10\r\nhello\r\n").is_none());
}

#[test]
fn decode_fails_missing_crlf() {
    assert!(decode_frame(b"$5\r\nhello").is_none());
    assert!(decode_frame(b"+no terminator").is_none());
}

#[test]
fn decode_fails_non_numeric_length() {
    assert!(decode_frame(b"$x\r\nhello\r\n").is_none());
    assert!(decode_frame(b"*-1\r\n").is_none());
    assert!(decode_frame(b"$\r\nhello\r\n").is_none());
}

#[test]
fn decode_fails_count_mismatch() {
    assert!(decode_frame(b"*2\r\n$1\r\na\r\n").is_none());
    assert!(decode_frame(b"*1\r\n").is_none());
}

#[test]
fn decode_fails_unknown_tag() {
    assert!(decode_frame(b":5\r\n").is_none());
    assert!(decode_frame(b"-err\r\n").is_none());
    assert!(decode_frame(b"").is_none());
}
