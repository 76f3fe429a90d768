//! The typed commands: a liveness probe, an echo, a keyed write with an
//! optional relative expiry, and a keyed read. Each is built from decoded
//! values and executes against the store.

use vstd::prelude::*;

use crate::bytes::{ascii_lower, bytes_eq, to_ascii_lower};
use crate::decoder::{all_digits, digits_value, lemma_digits_value_prefix_le};
use crate::store::{Store, StoreView};
use crate::value::{
    bulk_reply, clone_value, lemma_views_upto_index, value_reply, value_views_upto, Value,
    ValueView,
};

verus! {

/// The simple-line reply to a liveness probe: "+PONG" and the terminator.
pub open spec fn pong_reply() -> Seq<u8> {
    seq![43u8, 80u8, 79u8, 78u8, 71u8, 13u8, 10u8]
}

/// The simple-line reply acknowledging a write: "+OK" and the terminator.
pub open spec fn ok_reply() -> Seq<u8> {
    seq![43u8, 79u8, 75u8, 13u8, 10u8]
}

/// The nil bulk-string reply: the key is unbound or its deadline has
/// passed.
pub open spec fn nil_reply() -> Seq<u8> {
    seq![36u8, 45u8, 49u8, 13u8, 10u8]
}

/// The view of an optional machine integer.
pub open spec fn opt_int(o: Option<i64>) -> Option<int> {
    match o {
        Some(p) => Some(p as int),
        None => None,
    }
}

/// The view of an optional byte reply.
pub open spec fn reply_view(r: Option<Vec<u8>>) -> Option<Seq<u8>> {
    match r {
        Some(v) => Some(v@),
        None => None,
    }
}

fn make_pong() -> (r: Vec<u8>)
    ensures
        r@ == pong_reply(),
{
    let mut r: Vec<u8> = Vec::new();
    r.push(43);
    r.push(80);
    r.push(79);
    r.push(78);
    r.push(71);
    r.push(13);
    r.push(10);
    proof {
        assert(r@ =~= pong_reply());
    }
    r
}

fn make_ok() -> (r: Vec<u8>)
    ensures
        r@ == ok_reply(),
{
    let mut r: Vec<u8> = Vec::new();
    r.push(43);
    r.push(79);
    r.push(75);
    r.push(13);
    r.push(10);
    proof {
        assert(r@ =~= ok_reply());
    }
    r
}

fn make_nil() -> (r: Vec<u8>)
    ensures
        r@ == nil_reply(),
{
    let mut r: Vec<u8> = Vec::new();
    r.push(36);
    r.push(45);
    r.push(49);
    r.push(13);
    r.push(10);
    proof {
        assert(r@ =~= nil_reply());
    }
    r
}

/// A byte string that reads as a machine integer: one optional sign, then
/// digits whose value the machine can hold.
pub open spec fn is_i64_string(s: Seq<u8>) -> bool {
    let digits = if s.len() >= 1 && (s[0] == 43 || s[0] == 45) {
        s.skip(1)
    } else {
        s
    };
    &&& digits.len() >= 1
    &&& all_digits(digits)
    &&& if s.len() >= 1 && s[0] == 45 {
        -digits_value(digits) >= i64::MIN as int
    } else {
        digits_value(digits) <= i64::MAX as int
    }
}

/// The integer a byte string reads as.
pub open spec fn i64_string_value(s: Seq<u8>) -> int {
    if s.len() >= 1 && s[0] == 45 {
        -digits_value(s.skip(1))
    } else if s.len() >= 1 && s[0] == 43 {
        digits_value(s.skip(1))
    } else {
        digits_value(s)
    }
}

/// Reads a byte string as a machine integer: an optional `+` or `-`, then
/// base-10 digits; anything else, or a value out of range, fails.
pub fn parse_i64(b: &[u8]) -> (r: Option<i64>)
    ensures
        match r {
            Some(n) => is_i64_string(b@) && n as int == i64_string_value(b@),
            None => !is_i64_string(b@),
        },
{
    if b.len() == 0 {
        return None;
    }
    let first = b[0];
    let neg = first == 45;
    let from: usize = if first == 45 || first == 43 {
        1
    } else {
        0
    };
    if from == b.len() {
        proof {
            assert(b@.skip(1).len() == 0);
        }
        return None;
    }
    let limit: u64 = if neg {
        9223372036854775808
    } else {
        9223372036854775807
    };
    let mut acc: u64 = 0;
    let mut k: usize = from;
    while k < b.len()
        invariant
            b@.len() >= 1,
            neg == (b@[0] == 45),
            from == (if b@[0] == 45 || b@[0] == 43 {
                1int
            } else {
                0int
            }),
            from < b@.len(),
            limit == (if neg {
                9223372036854775808u64
            } else {
                9223372036854775807u64
            }),
            from <= k <= b@.len(),
            all_digits(b@.subrange(from as int, k as int)),
            acc == digits_value(b@.subrange(from as int, k as int)),
            acc <= limit,
        decreases b@.len() - k,
    {
        let c = b[k];
        if c < 48 || c > 57 {
            proof {
                let digits = b@.subrange(from as int, b@.len() as int);
                assert(digits[k - from] == b@[k as int]);
                if from == 1 {
                    assert(digits =~= b@.skip(1));
                } else {
                    assert(digits =~= b@);
                }
            }
            return None;
        }
        let d = (c - 48) as u64;
        if acc > (limit - d) / 10 {
            proof {
                let digits = b@.subrange(from as int, b@.len() as int);
                let prefix = b@.subrange(from as int, k as int);
                let ext = b@.subrange(from as int, k + 1);
                assert(forall|j: int| 0 <= j <= k - from ==> #[trigger] ext[j] == b@[from + j]);
                assert(ext.drop_last() =~= prefix);
                assert(ext.last() == b@[k as int]);
                assert(digits_value(ext) == acc * 10 + d);
                assert(acc * 10 + d > limit) by {
                    let m = (limit - d) as int;
                    assert(acc >= m / 10 + 1);
                    assert(m == 10 * (m / 10) + m % 10 && 0 <= m % 10 < 10);
                    assert(acc * 10 >= (m / 10 + 1) * 10) by (nonlinear_arith)
                        requires
                            acc >= m / 10 + 1,
                    ;
                    assert((m / 10 + 1) * 10 == 10 * (m / 10) + 10);
                }
                if all_digits(digits) {
                    lemma_digits_value_prefix_le(digits, k + 1 - from);
                    assert(digits.take(k + 1 - from) =~= ext);
                    assert(digits_value(digits) > limit);
                }
                if from == 1 {
                    assert(digits =~= b@.skip(1));
                } else {
                    assert(digits =~= b@);
                }
            }
            return None;
        }
        acc = acc * 10 + d;
        proof {
            let prefix = b@.subrange(from as int, k as int);
            let ext = b@.subrange(from as int, k + 1);
            assert(forall|j: int| 0 <= j <= k - from ==> #[trigger] ext[j] == b@[from + j]);
            assert(ext.drop_last() =~= prefix);
            assert(ext.last() == b@[k as int]);
        }
        k = k + 1;
    }
    proof {
        let digits = b@.subrange(from as int, b@.len() as int);
        assert(digits =~= b@.subrange(from as int, k as int));
        if from == 1 {
            assert(digits =~= b@.skip(1));
        } else {
            assert(digits =~= b@);
        }
    }
    if neg {
        Some((-(acc as i128)) as i64)
    } else {
        Some(acc as i64)
    }
}

/// The lower-case name of the expiry option.
pub open spec fn px_name() -> Seq<u8> {
    seq![112u8, 120u8]
}

/// The expiry read from one option pair: both scalars, the first naming
/// the option regardless of case, the second a machine integer.
pub open spec fn pair_px(a: ValueView, b: ValueView) -> Option<int> {
    match (a, b) {
        (ValueView::Text(k), ValueView::Text(v)) => if ascii_lower(k) == px_name()
            && is_i64_string(v) {
            Some(i64_string_value(v))
        } else {
            None
        },
        _ => None,
    }
}

/// The expiry option of an option run, scanned pair by pair from the
/// front; a later usable pair overrides an earlier one, and a pair whose
/// value does not read as an integer is ignored.
pub open spec fn spec_px_scan(vs: Seq<ValueView>) -> Option<int>
    decreases vs.len(),
{
    if vs.len() < 2 {
        None
    } else {
        let rest = spec_px_scan(vs.skip(2));
        if rest is Some {
            rest
        } else {
            pair_px(vs[0], vs[1])
        }
    }
}

/// What a write's argument run means: a scalar key, a scalar value, and
/// the expiry option scanned from the trailing options alone.
pub open spec fn spec_set_command(vs: Seq<ValueView>) -> Option<(Seq<u8>, ValueView, Option<int>)> {
    if vs.len() < 2 {
        None
    } else {
        match (vs[0], vs[1]) {
            (ValueView::Text(k), ValueView::Text(_)) => Some(
                (k, vs[1], spec_px_scan(vs.skip(2))),
            ),
            _ => None,
        }
    }
}

/// A liveness probe.
#[derive(Debug)]
pub struct PingCommand;

/// Echoes one value back.
#[derive(Debug)]
pub struct EchoCommand {
    pub value: Value,
}

/// Binds a key to a value, with an optional relative expiry in
/// milliseconds.
#[derive(Debug)]
pub struct SetCommand {
    pub key: Vec<u8>,
    pub value: Value,
    pub px: Option<i64>,
}

/// Reads a key.
#[derive(Debug)]
pub struct GetCommand {
    pub key: Vec<u8>,
}

impl SetCommand {
    /// Builds a write from its argument run: the first value is the key,
    /// the second the value, both scalars; a trailing `PX <integer>` pair
    /// sets the expiry option, and unrecognized or unreadable options are
    /// ignored silently.
    pub fn from(values: Vec<Value>) -> (r: Option<Self>)
        ensures
            ({
                let vs = value_views_upto(&values, values@.len() as int);
                match r {
                    Some(cmd) => spec_set_command(vs) == Some(
                        (cmd.key@, cmd.value@, opt_int(cmd.px)),
                    ),
                    None => spec_set_command(vs) is None,
                }
            }),
    {
        proof {
            lemma_views_upto_index(&values, values@.len() as int);
        }
        let n = values.len();
        if n < 2 {
            return None;
        }
        let key = match &values[0] {
            Value::Text(k) => vstd::slice::slice_to_vec(k.as_slice()),
            _ => {
                return None;
            },
        };
        let value = match &values[1] {
            Value::Text(_) => clone_value(&values[1]),
            _ => {
                return None;
            },
        };
        let mut px: Option<i64> = None;
        let mut i: usize = 2;
        while i < n - 1
            invariant
                n == values@.len(),
                n >= 2,
                2 <= i <= n,
                ({
                    let vs = value_views_upto(&values, n as int);
                    spec_px_scan(vs.skip(2)) == (if spec_px_scan(vs.skip(i as int)) is Some {
                        spec_px_scan(vs.skip(i as int))
                    } else {
                        opt_int(px)
                    })
                }),
            decreases n - i,
        {
            let pair: Option<i64> = match (&values[i], &values[i + 1]) {
                (Value::Text(k), Value::Text(v)) => {
                    let lower = to_ascii_lower(k.as_slice());
                    let mut name: Vec<u8> = Vec::new();
                    name.push(112);
                    name.push(120);
                    proof {
                        assert(name@ =~= px_name());
                    }
                    if bytes_eq(lower.as_slice(), name.as_slice()) {
                        parse_i64(v.as_slice())
                    } else {
                        None
                    }
                },
                _ => None,
            };
            proof {
                lemma_views_upto_index(&values, n as int);
                let vs = value_views_upto(&values, n as int);
                assert(vs.skip(i as int).skip(2) =~= vs.skip(i + 2));
                assert(vs.skip(i as int)[0] == vs[i as int]);
                assert(vs.skip(i as int)[1] == vs[i + 1]);
                assert(opt_int(pair) == pair_px(vs[i as int], vs[i + 1]));
            }
            if pair.is_some() {
                px = pair;
            }
            i = i + 2;
        }
        proof {
            lemma_views_upto_index(&values, n as int);
            let vs = value_views_upto(&values, n as int);
            assert(vs.skip(i as int).len() < 2);
        }
        Some(SetCommand { key, value, px })
    }

    /// Binds the key; with an expiry option, also sets the deadline to
    /// the clock reading plus the option, in milliseconds.
    pub fn execute(&self, store: &mut Store, now: u64) -> (r: Option<Vec<u8>>)
        requires
            old(store).wf(),
        ensures
            final(store).wf(),
            final(store)@.data == old(store)@.data.insert(self.key@, self.value@),
            final(store)@.expiry == (match self.px {
                Some(p) => old(store)@.expiry.insert(self.key@, now + p as int),
                None => old(store)@.expiry,
            }),
            reply_view(r) == Some(ok_reply()),
    {
        store.put(self.key.as_slice(), clone_value(&self.value));
        match self.px {
            Some(p) => {
                let deadline: i128 = now as i128 + p as i128;
                store.set_expiry(self.key.as_slice(), deadline);
            },
            None => {},
        }
        Some(make_ok())
    }
}

impl GetCommand {
    /// Builds a read from its argument run: exactly one value, the
    /// scalar key; anything more or less is rejected.
    pub fn from(values: Vec<Value>) -> (r: Option<Self>)
        ensures
            ({
                let vs = value_views_upto(&values, values@.len() as int);
                match r {
                    Some(cmd) => vs.len() == 1 && vs[0] == ValueView::Text(cmd.key@),
                    None => vs.len() != 1 || !(vs[0] is Text),
                }
            }),
    {
        proof {
            lemma_views_upto_index(&values, values@.len() as int);
        }
        if values.len() != 1 {
            return None;
        }
        match &values[0] {
            Value::Text(k) => Some(GetCommand { key: vstd::slice::slice_to_vec(k.as_slice()) }),
            _ => None,
        }
    }

    /// Reads the key: nil when it is unbound or its deadline has passed;
    /// the entry is never removed, and the deadline is read lazily.
    pub fn execute(&self, store: &mut Store, now: u64) -> (r: Option<Vec<u8>>)
        requires
            old(store).wf(),
        ensures
            final(store).wf(),
            *final(store) == *old(store),
            reply_view(r) == Some(spec_get_reply(old(store)@, self.key@, now)),
    {
        match store.get(self.key.as_slice()) {
            Some(value) => {
                match store.get_expiry(self.key.as_slice()) {
                    Some(ts) => {
                        if ts > now as i128 {
                            Some(value.to_response_string())
                        } else {
                            Some(make_nil())
                        }
                    },
                    None => Some(value.to_response_string()),
                }
            },
            None => Some(make_nil()),
        }
    }
}

/// The reply to a read: nil when the key is unbound or its deadline has
/// passed, else the stored value serialized.
pub open spec fn spec_get_reply(st: StoreView, key: Seq<u8>, now: u64) -> Seq<u8> {
    if !st.data.contains_key(key) {
        nil_reply()
    } else if st.expiry.contains_key(key) && st.expiry[key] <= now as int {
        nil_reply()
    } else {
        value_reply(st.data[key])
    }
}

impl EchoCommand {
    /// Echoes a scalar argument as a bulk string; any other shape yields
    /// no reply.
    pub fn execute(&self, store: &mut Store) -> (r: Option<Vec<u8>>)
        ensures
            *final(store) == *old(store),
            reply_view(r) == (match self.value@ {
                ValueView::Text(t) => Some(bulk_reply(t)),
                _ => None::<Seq<u8>>,
            }),
    {
        match &self.value {
            Value::Text(_) => Some(self.value.to_response_string()),
            _ => None,
        }
    }
}

impl PingCommand {
    /// Always answers the liveness probe, whatever the store holds.
    pub fn execute(&self, store: &mut Store) -> (r: Option<Vec<u8>>)
        ensures
            *final(store) == *old(store),
            reply_view(r) == Some(pong_reply()),
    {
        Some(make_pong())
    }
}

} // verus!
