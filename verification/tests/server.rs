//! Request-level behavior: commands against the store through the
//! executor, expiry handling, and reply serialization.

use respkv::commands::SetCommand;
use respkv::executor::Executor;
use respkv::store::Store;
use respkv::value::Value;

#[test]
pub fn test_set_command() {
    let values = vec![
        Value::Text(b"foo".to_vec()),
        Value::Text(b"bar".to_vec()),
    ];

    let command = SetCommand::from(values);
    assert!(command.is_some());
    let c = command.unwrap();
    assert_eq!(b"foo".to_vec(), c.key);
    assert_eq!(Value::Text(b"bar".to_vec()), c.value);
}

#[test]
pub fn test_echo() {
    let mut s = Store::new();
    let out = Executor::execute(&mut s, b"*2\r\n$4\r\nECHO\r\n$6\r\nbanana\r\n");
    assert!(out.is_some());
    assert_eq!(b"$6\r\nbanana\r\n".to_vec(), out.unwrap())
}

#[test]
pub fn test_ping() {
    let mut s = Store::new();
    let out = Executor::execute(&mut s, b"*1\r\n$4\r\nPING\r\n");
    assert!(out.is_some());
    assert_eq!(b"+PONG\r\n".to_vec(), out.unwrap())
}

#[test]
pub fn test_set_and_get() {
    let mut s = Store::new();
    let out = Executor::execute(&mut s, b"*3\r\n$3\r\nSET\r\n$3\r\nfoo\r\n$3\r\nbar\r\n");
    assert!(out.is_some());
    assert_eq!(b"+OK\r\n".to_vec(), out.unwrap());

    let get_output = Executor::execute(&mut s, b"*2\r\n$3\r\nGET\r\n$3\r\nfoo\r\n");
    assert!(get_output.is_some());
    assert_eq!(b"$3\r\nbar\r\n".to_vec(), get_output.unwrap());
}

#[test]
fn read_write() {
    let mut store = Store::new();

    // integer
    store.put(b"abc", Value::Int(24));
    let val = store.get(b"abc").unwrap();
    assert_eq!(val, Value::Int(24));

    // string
    store.put(b"s", Value::Text(b"abc".to_vec()));
    let val = store.get(b"s").unwrap();
    assert_eq!(val, Value::Text(b"abc".to_vec()));

    // value not present
    let val = store.get(b"zya");
    assert!(val.is_none())
}

#[test]
fn string_test() {
    let s = "abc";
    let expected = format!("${}\r\n{}\r\n", s.len(), s).into_bytes();

    assert_eq!(expected, Value::Text(b"abc".to_vec()).to_response_string())
}

#[test]
fn ping_is_case_insensitive_and_ignores_store() {
    let mut s = Store::new();
    let out = Executor::execute(&mut s, b"*3\r\n$3\r\nSET\r\n$1\r\nk\r\n$1\r\nv\r\n");
    assert_eq!(b"+OK\r\n".to_vec(), out.unwrap());
    let out = Executor::execute(&mut s, b"*1\r\n$4\r\npInG\r\n");
    assert_eq!(b"+PONG\r\n".to_vec(), out.unwrap());
    let out = Executor::execute(&mut s, b"+\r\nPING\r\n");
    assert_eq!(b"+PONG\r\n".to_vec(), out.unwrap());
}

#[test]
fn get_of_unwritten_key_is_nil() {
    let mut s = Store::new();
    let out = Executor::execute(&mut s, b"*2\r\n$3\r\nGET\r\n$5\r\nnever\r\n");
    assert_eq!(b"$-1\r\n".to_vec(), out.unwrap());
}

#[test]
fn set_with_px_zero_expires_immediately() {
    let mut s = Store::new();
    let out = Executor::execute(
        &mut s,
        b"*5\r\n$3\r\nSET\r\n$3\r\nfoo\r\n$3\r\nbar\r\n$2\r\nPX\r\n$1\r\n0\r\n",
    );
    assert_eq!(b"+OK\r\n".to_vec(), out.unwrap());
    let out = Executor::execute(&mut s, b"*2\r\n$3\r\nGET\r\n$3\r\nfoo\r\n");
    assert_eq!(b"$-1\r\n".to_vec(), out.unwrap());
}

#[test]
fn set_with_far_px_still_readable() {
    let mut s = Store::new();
    let out = Executor::execute(
        &mut s,
        b"*5\r\n$3\r\nSET\r\n$3\r\nfoo\r\n$3\r\nbar\r\n$2\r\npx\r\n$8\r\n86400000\r\n",
    );
    assert_eq!(b"+OK\r\n".to_vec(), out.unwrap());
    let out = Executor::execute(&mut s, b"*2\r\n$3\r\nGET\r\n$3\r\nfoo\r\n");
    assert_eq!(b"$3\r\nbar\r\n".to_vec(), out.unwrap());
}

#[test]
fn unreadable_px_value_is_ignored() {
    let mut s = Store::new();
    let out = Executor::execute(
        &mut s,
        b"*5\r\n$3\r\nSET\r\n$3\r\nfoo\r\n$3\r\nbar\r\n$2\r\nPX\r\n$3\r\nabc\r\n",
    );
    assert_eq!(b"+OK\r\n".to_vec(), out.unwrap());
    let out = Executor::execute(&mut s, b"*2\r\n$3\r\nGET\r\n$3\r\nfoo\r\n");
    assert_eq!(b"$3\r\nbar\r\n".to_vec(), out.unwrap());
}

#[test]
fn set_key_named_px_is_not_an_option() {
    let mut s = Store::new();
    let out = Executor::execute(&mut s, b"*3\r\n$3\r\nSET\r\n$2\r\npx\r\n$3\r\n100\r\n");
    assert_eq!(b"+OK\r\n".to_vec(), out.unwrap());
    let out = Executor::execute(&mut s, b"*2\r\n$3\r\nGET\r\n$2\r\npx\r\n");
    assert_eq!(b"$3\r\n100\r\n".to_vec(), out.unwrap());

    let out = Executor::execute(
        &mut s,
        b"*5\r\n$3\r\nSET\r\n$2\r\npx\r\n$1\r\n7\r\n$2\r\nPX\r\n$3\r\nabc\r\n",
    );
    assert_eq!(b"+OK\r\n".to_vec(), out.unwrap());
    let out = Executor::execute(&mut s, b"*2\r\n$3\r\nGET\r\n$2\r\npx\r\n");
    assert_eq!(b"$1\r\n7\r\n".to_vec(), out.unwrap());
}

#[test]
fn echo_with_extra_arguments_is_silent() {
    let mut s = Store::new();
    let out = Executor::execute(&mut s, b"*3\r\n$4\r\nECHO\r\n$1\r\na\r\n$1\r\nb\r\n");
    assert!(out.is_none());
}

#[test]
fn echo_with_list_argument_is_silent() {
    let mut s = Store::new();
    let out = Executor::execute(&mut s, b"*2\r\n$4\r\nECHO\r\n*0\r\n");
    assert!(out.is_none());
}

#[test]
fn get_with_extra_arguments_is_silent() {
    let mut s = Store::new();
    let out = Executor::execute(&mut s, b"*3\r\n$3\r\nGET\r\n$1\r\nk\r\n$1\r\nx\r\n");
    assert!(out.is_none());
}

#[test]
fn set_with_list_value_is_silent() {
    let mut s = Store::new();
    let out = Executor::execute(&mut s, b"*3\r\n$3\r\nSET\r\n$1\r\nk\r\n*0\r\n");
    assert!(out.is_none());
    let out = Executor::execute(&mut s, b"*2\r\n$3\r\nGET\r\n$1\r\nk\r\n");
    assert_eq!(b"$-1\r\n".to_vec(), out.unwrap());
}

#[test]
fn unknown_command_is_silent() {
    let mut s = Store::new();
    let out = Executor::execute(&mut s, b"*1\r\n$4\r\nQUIT\r\n");
    assert!(out.is_none());
    let out = Executor::execute(&mut s, b"*1\r\n$4\r\nECHO\r\n");
    assert!(out.is_none());
    let out = Executor::execute(&mut s, b"not a frame");
    assert!(out.is_none());
}

#[test]
fn distinct_keys_all_readable() {
    let mut s = Store::new();
    let out = Executor::execute(&mut s, b"*3\r\n$3\r\nSET\r\n$2\r\nk1\r\n$2\r\nv1\r\n");
    assert_eq!(b"+OK\r\n".to_vec(), out.unwrap());
    let out = Executor::execute(&mut s, b"*3\r\n$3\r\nSET\r\n$2\r\nk2\r\n$2\r\nv2\r\n");
    assert_eq!(b"+OK\r\n".to_vec(), out.unwrap());
    let out = Executor::execute(&mut s, b"*3\r\n$3\r\nSET\r\n$2\r\nk3\r\n$2\r\nv3\r\n");
    assert_eq!(b"+OK\r\n".to_vec(), out.unwrap());
    assert_eq!(
        b"$2\r\nv1\r\n".to_vec(),
        Executor::execute(&mut s, b"*2\r\n$3\r\nGET\r\n$2\r\nk1\r\n").unwrap()
    );
    assert_eq!(
        b"$2\r\nv2\r\n".to_vec(),
        Executor::execute(&mut s, b"*2\r\n$3\r\nGET\r\n$2\r\nk2\r\n").unwrap()
    );
    assert_eq!(
        b"$2\r\nv3\r\n".to_vec(),
        Executor::execute(&mut s, b"*2\r\n$3\r\nGET\r\n$2\r\nk3\r\n").unwrap()
    );
}

#[test]
fn overwrite_replaces_value() {
    let mut s = Store::new();
    Executor::execute(&mut s, b"*3\r\n$3\r\nSET\r\n$1\r\nk\r\n$3\r\nold\r\n").unwrap();
    Executor::execute(&mut s, b"*3\r\n$3\r\nSET\r\n$1\r\nk\r\n$3\r\nnew\r\n").unwrap();
    assert_eq!(
        b"$3\r\nnew\r\n".to_vec(),
        Executor::execute(&mut s, b"*2\r\n$3\r\nGET\r\n$1\r\nk\r\n").unwrap()
    );
}

#[test]
fn long_value_length_is_decimal() {
    let text = b"0123456789ABCDEF".to_vec();
    let reply = Value::Text(text).to_response_string();
    assert_eq!(b"$16\r\n0123456789ABCDEF\r\n".to_vec(), reply);
}

#[test]
fn non_text_value_serializes_to_bare_terminator() {
    assert_eq!(b"\r\n".to_vec(), Value::Int(7).to_response_string());
}
