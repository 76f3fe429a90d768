//! The decoded value model: the shape of one RESP payload independent of
//! the wire syntax that produced it.

use vstd::prelude::*;

verus! {

/// A decoded payload: a scalar integer, a binary-safe text, or an ordered
/// list of further values.
#[derive(Debug, PartialEq)]
pub enum Value {
    Int(i64),
    Text(Vec<u8>),
    List(Vec<Value>),
}

/// The mathematical shape of a [`Value`], used by every contract.
pub enum ValueView {
    Int(int),
    Text(Seq<u8>),
    List(Seq<ValueView>),
}

/// The view of a value: integers and texts map to their mathematical
/// counterparts, lists map element by element.
pub open spec fn value_view(v: &Value) -> ValueView
    decreases v, 1int,
{
    match v {
        Value::Int(i) => ValueView::Int(*i as int),
        Value::Text(b) => ValueView::Text(b@),
        Value::List(vs) => ValueView::List(value_views_upto(vs, vs.len() as int)),
    }
}

/// The views of the first `n` elements of a vector of values, in order.
pub open spec fn value_views_upto(vs: &Vec<Value>, n: int) -> Seq<ValueView>
    decreases vs, 0int, n,
    via value_views_upto_terminates
{
    if n <= 0 || vs.len() < n {
        Seq::empty()
    } else {
        value_views_upto(vs, n - 1).push(value_view(&vs[n - 1]))
    }
}

#[via_fn]
proof fn value_views_upto_terminates(vs: &Vec<Value>, n: int) {
    broadcast use vstd::std_specs::vec::axiom_vec_index_decreases;

    if 0 < n <= vs.len() {
        assert(decreases_to!(vs => vs[n - 1]));
    }
}

/// Vectors whose first `n` elements have equal views have the same
/// first-`n` views.
pub proof fn lemma_views_upto_agree(a: &Vec<Value>, b: &Vec<Value>, n: int)
    requires
        0 <= n <= a.len(),
        n <= b.len(),
        forall|j: int| 0 <= j < n ==> (#[trigger] a[j])@ == b[j]@,
    ensures
        value_views_upto(a, n) == value_views_upto(b, n),
    decreases n,
{
    if n > 0 {
        lemma_views_upto_agree(a, b, n - 1);
    }
}

/// The first-`n` views sequence has length `n` and holds each element's
/// view in place.
pub proof fn lemma_views_upto_index(vs: &Vec<Value>, n: int)
    requires
        0 <= n <= vs.len(),
    ensures
        value_views_upto(vs, n).len() == n,
        forall|j: int| 0 <= j < n ==> #[trigger] value_views_upto(vs, n)[j] == vs[j]@,
    decreases n,
{
    if n > 0 {
        lemma_views_upto_index(vs, n - 1);
    }
}

impl View for Value {
    type V = ValueView;

    open spec fn view(&self) -> ValueView {
        value_view(self)
    }
}

/// A copy of one value, equal to the original in view.
pub fn clone_value(v: &Value) -> (r: Value)
    ensures
        r@ == v@,
    decreases v, 1int,
{
    match v {
        Value::Int(i) => Value::Int(*i),
        Value::Text(b) => Value::Text(vstd::slice::slice_to_vec(b.as_slice())),
        Value::List(vs) => {
            let copies = clone_values(vs, vs.len());
            proof {
                lemma_views_upto_agree(&copies, vs, copies.len() as int);
            }
            Value::List(copies)
        },
    }
}

/// Copies of the first `n` values of a vector, equal to the originals in
/// view.
fn clone_values(vs: &Vec<Value>, n: usize) -> (r: Vec<Value>)
    requires
        n <= vs.len(),
    ensures
        r@.len() == n,
        forall|j: int| 0 <= j < n ==> (#[trigger] r[j])@ == vs[j]@,
    decreases vs, 0int, n,
{
    if n == 0 {
        Vec::new()
    } else {
        let mut r = clone_values(vs, n - 1);
        proof {
            broadcast use vstd::std_specs::vec::axiom_vec_index_decreases;

            assert(decreases_to!(vs => vs[n - 1]));
        }
        let last = clone_value(&vs[n - 1]);
        r.push(last);
        r
    }
}

impl Clone for Value {
    /// A copy equal to the original in view.
    fn clone(&self) -> (r: Self)
        ensures
            r@ == self@,
    {
        clone_value(self)
    }
}

/// The canonical base-10 digit run of a nonnegative number, most
/// significant digit first.
pub open spec fn dec_digits(n: int) -> Seq<u8>
    decreases n,
{
    if n < 10 {
        seq![(48 + if n >= 0 { n } else { 0 }) as u8]
    } else {
        dec_digits(n / 10) + seq![(48 + n % 10) as u8]
    }
}

/// Writes a machine integer as its canonical decimal digit run.
pub fn fmt_usize(n: usize) -> (r: Vec<u8>)
    ensures
        r@ == dec_digits(n as int),
    decreases n,
{
    if n < 10 {
        let mut r: Vec<u8> = Vec::new();
        r.push(48 + n as u8);
        proof {
            assert(r@ =~= dec_digits(n as int));
        }
        r
    } else {
        let mut r = fmt_usize(n / 10);
        r.push(48 + (n % 10) as u8);
        proof {
            assert(r@ =~= dec_digits(n as int));
        }
        r
    }
}

/// The bulk-string wire reply carrying `t`: the blob tag, the decimal
/// length, CRLF, the content, CRLF.
pub open spec fn bulk_reply(t: Seq<u8>) -> Seq<u8> {
    seq![36u8] + dec_digits(t.len() as int) + seq![13u8, 10u8] + t + seq![13u8, 10u8]
}

/// The wire reply that serializes `v`: texts become bulk strings; any
/// other shape becomes a bare line terminator, which no command can
/// currently produce from the store.
pub open spec fn value_reply(v: ValueView) -> Seq<u8> {
    match v {
        ValueView::Text(t) => bulk_reply(t),
        _ => seq![13u8, 10u8],
    }
}

impl Value {
    /// Serializes this value as a wire reply: a bulk string for a text,
    /// a bare line terminator for any other shape.
    pub fn to_response_string(&self) -> (r: Vec<u8>)
        ensures
            r@ == value_reply(self@),
    {
        match self {
            Value::Text(s) => {
                let mut r: Vec<u8> = Vec::new();
                r.push(36);
                let mut digits = fmt_usize(s.len());
                r.append(&mut digits);
                r.push(13);
                r.push(10);
                let mut content = vstd::slice::slice_to_vec(s.as_slice());
                r.append(&mut content);
                r.push(13);
                r.push(10);
                proof {
                    assert(r@ =~= bulk_reply(s@));
                }
                r
            },
            _ => {
                let mut r: Vec<u8> = Vec::new();
                r.push(13);
                r.push(10);
                proof {
                    assert(r@ =~= seq![13u8, 10u8]);
                }
                r
            },
        }
    }
}

} // verus!
