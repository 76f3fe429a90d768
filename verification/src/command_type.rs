//! One parsed request, dispatched to the command that executes it, and
//! the mathematical meaning of running any command.

use vstd::prelude::*;

use crate::commands::{
    ok_reply, opt_int, pong_reply, reply_view, spec_get_reply, EchoCommand, GetCommand,
    PingCommand, SetCommand,
};
use crate::store::{Store, StoreView};
use crate::value::{bulk_reply, ValueView};

verus! {

/// The meaning of a parsed command.
pub enum CommandView {
    Ping,
    Echo(ValueView),
    SetValue(Seq<u8>, ValueView, Option<int>),
    Get(Seq<u8>),
}

/// One parsed request.
pub enum CommandType {
    Ping(PingCommand),
    Echo(EchoCommand),
    SetValue(SetCommand),
    Get(GetCommand),
}

impl View for CommandType {
    type V = CommandView;

    open spec fn view(&self) -> CommandView {
        match self {
            CommandType::Ping(_) => CommandView::Ping,
            CommandType::Echo(c) => CommandView::Echo(c.value@),
            CommandType::SetValue(c) => CommandView::SetValue(c.key@, c.value@, opt_int(c.px)),
            CommandType::Get(c) => CommandView::Get(c.key@),
        }
    }
}

/// The store after a command runs at clock reading `now`: only a write
/// changes it, binding its key and, with an expiry option, its deadline.
pub open spec fn spec_store_after(c: CommandView, st: StoreView, now: u64) -> StoreView {
    match c {
        CommandView::SetValue(k, v, px) => StoreView {
            data: st.data.insert(k, v),
            expiry: match px {
                Some(p) => st.expiry.insert(k, now + p),
                None => st.expiry,
            },
        },
        _ => st,
    }
}

/// The reply a command produces at clock reading `now`.
pub open spec fn spec_reply(c: CommandView, st: StoreView, now: u64) -> Option<Seq<u8>> {
    match c {
        CommandView::Ping => Some(pong_reply()),
        CommandView::Echo(v) => match v {
            ValueView::Text(t) => Some(bulk_reply(t)),
            _ => None,
        },
        CommandView::SetValue(_, _, _) => Some(ok_reply()),
        CommandView::Get(k) => Some(spec_get_reply(st, k, now)),
    }
}

impl CommandType {
    /// Runs this command against the store at clock reading `now`.
    pub fn execute(&self, store: &mut Store, now: u64) -> (r: Option<Vec<u8>>)
        requires
            old(store).wf(),
        ensures
            final(store).wf(),
            final(store)@ == spec_store_after(self@, old(store)@, now),
            reply_view(r) == spec_reply(self@, old(store)@, now),
    {
        match self {
            CommandType::Ping(c) => c.execute(store),
            CommandType::Echo(c) => c.execute(store),
            CommandType::SetValue(c) => c.execute(store, now),
            CommandType::Get(c) => c.execute(store, now),
        }
    }
}

} // verus!
