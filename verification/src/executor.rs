//! The executor: one request in, one optional reply out. Decode a frame,
//! read it as a command, run it against the store, serialize the result.
//! The executor holds no state of its own; the store is supplied by the
//! caller.

use vstd::prelude::*;

use crate::command_type::{spec_reply, spec_store_after};
use crate::commands::reply_view;
use crate::parser::{spec_parse, Parser};
use crate::store::{Store, StoreView};

verus! {

/// The observable outcome of one raw request at clock reading `now`: the
/// store afterwards, and the reply if one is owed. A request that fails to
/// decode or to name a command leaves the store unchanged and is answered
/// with silence.
pub open spec fn spec_execute(st: StoreView, s: Seq<u8>, now: u64) -> (StoreView, Option<Seq<u8>>) {
    match spec_parse(s) {
        None => (st, None),
        Some(c) => (spec_store_after(c, st, now), spec_reply(c, st, now)),
    }
}

/// Relies on std::time::SystemTime::now and its distance from UNIX_EPOCH:
/// the clock's reading as whole milliseconds since the epoch. Nothing can
/// be promised of a clock reading, so callers state what holds for every
/// reading.
#[verifier::external_body]
fn current_millis() -> u64 {
    match std::time::SystemTime::now().duration_since(std::time::UNIX_EPOCH) {
        Ok(d) => d.as_millis() as u64,
        Err(_) => 0,
    }
}

/// Runs one request from raw bytes to reply bytes.
pub struct Executor;

impl Executor {
    /// Runs one raw request against the store at clock reading `now`:
    /// decode, read as a command, execute, serialize. A malformed frame,
    /// an unknown name, or a wrong argument shape produces no reply and
    /// leaves the store as it was.
    pub fn execute_at(store: &mut Store, value: &[u8], now: u64) -> (r: Option<Vec<u8>>)
        requires
            old(store).wf(),
        ensures
            final(store).wf(),
            (final(store)@, reply_view(r)) == spec_execute(old(store)@, value@, now),
    {
        let command_type = match Parser::parse(value) {
            Some(c) => c,
            None => {
                return None;
            },
        };
        command_type.execute(store, now)
    }

    /// Runs one raw request at the clock's current reading. The reading
    /// itself is outside the library; the outcome satisfies the contract
    /// of `execute_at` for the reading that was taken.
    pub fn execute(store: &mut Store, value: &[u8]) -> (r: Option<Vec<u8>>)
        requires
            old(store).wf(),
        ensures
            final(store).wf(),
            exists|now: u64|
                (final(store)@, reply_view(r)) == spec_execute(old(store)@, value@, now),
    {
        let now = current_millis();
        let r = Executor::execute_at(store, value, now);
        proof {
            assert((store@, reply_view(r)) == spec_execute(old(store)@, value@, now));
        }
        r
    }
}

/// The liveness probe always answers "+PONG", whatever the store holds
/// and whenever it runs, and leaves the store untouched.
pub proof fn lemma_ping_always_pong(st: StoreView, s: Seq<u8>, now: u64)
    requires
        spec_parse(s) == Some(crate::command_type::CommandView::Ping),
    ensures
        spec_execute(st, s, now) == (st, Some(crate::commands::pong_reply())),
{
}

/// An echo of a scalar answers that scalar's bulk-string encoding and
/// leaves the store untouched.
pub proof fn lemma_echo_bulk(st: StoreView, s: Seq<u8>, now: u64, t: Seq<u8>)
    requires
        spec_parse(s) == Some(
            crate::command_type::CommandView::Echo(crate::value::ValueView::Text(t)),
        ),
    ensures
        spec_execute(st, s, now) == (st, Some(crate::value::bulk_reply(t))),
{
}

/// A write followed by a read of the same key answers the value's
/// bulk-string encoding, provided no deadline from an earlier write
/// still covers the key: a write without the expiry option deliberately
/// leaves a prior deadline in place, and a stale one would hide the
/// fresh value.
pub proof fn lemma_set_then_get(
    st: StoreView,
    s1: Seq<u8>,
    s2: Seq<u8>,
    k: Seq<u8>,
    t: Seq<u8>,
    now1: u64,
    now2: u64,
)
    requires
        spec_parse(s1) == Some(
            crate::command_type::CommandView::SetValue(k, crate::value::ValueView::Text(t), None),
        ),
        spec_parse(s2) == Some(crate::command_type::CommandView::Get(k)),
        !st.expiry.contains_key(k),
    ensures
        ({
            let (st1, r1) = spec_execute(st, s1, now1);
            let (st2, r2) = spec_execute(st1, s2, now2);
            &&& r1 == Some(crate::commands::ok_reply())
            &&& r2 == Some(crate::value::bulk_reply(t))
            &&& st2 == st1
        }),
{
}

/// A write whose deadline is already due by the time of the read is
/// answered as absent: a deadline at or before the clock reading counts
/// as expired.
pub proof fn lemma_set_expired_get_nil(
    st: StoreView,
    s1: Seq<u8>,
    s2: Seq<u8>,
    k: Seq<u8>,
    v: crate::value::ValueView,
    p: int,
    now1: u64,
    now2: u64,
)
    requires
        spec_parse(s1) == Some(crate::command_type::CommandView::SetValue(k, v, Some(p))),
        spec_parse(s2) == Some(crate::command_type::CommandView::Get(k)),
        now1 + p <= now2,
    ensures
        ({
            let (st1, r1) = spec_execute(st, s1, now1);
            let (st2, r2) = spec_execute(st1, s2, now2);
            &&& r1 == Some(crate::commands::ok_reply())
            &&& r2 == Some(crate::commands::nil_reply())
            &&& st2 == st1
        }),
{
}

/// A read of a key never written is answered with the nil bulk string
/// and changes nothing.
pub proof fn lemma_get_unbound_nil(st: StoreView, s: Seq<u8>, k: Seq<u8>, now: u64)
    requires
        spec_parse(s) == Some(crate::command_type::CommandView::Get(k)),
        !st.data.contains_key(k),
    ensures
        spec_execute(st, s, now) == (st, Some(crate::commands::nil_reply())),
{
}

/// Writes to distinct keys commute: the store ends the same whichever
/// order they land in, so neither write is lost to the other.
pub proof fn lemma_distinct_writes_commute(
    st: StoreView,
    c1: crate::command_type::CommandView,
    c2: crate::command_type::CommandView,
    now1: u64,
    now2: u64,
)
    requires
        c1 matches crate::command_type::CommandView::SetValue(k1, _, _),
        c2 matches crate::command_type::CommandView::SetValue(k2, _, _),
        !(c1 matches crate::command_type::CommandView::SetValue(k1, _, _)
            && c2 matches crate::command_type::CommandView::SetValue(k2, _, _) && k1 == k2),
    ensures
        spec_store_after(c2, spec_store_after(c1, st, now1), now2) == spec_store_after(
            c1,
            spec_store_after(c2, st, now2),
            now1,
        ),
{
    let a = spec_store_after(c2, spec_store_after(c1, st, now1), now2);
    let b = spec_store_after(c1, spec_store_after(c2, st, now2), now1);
    assert(a.data =~= b.data);
    assert(a.expiry =~= b.expiry);
}

} // verus!
