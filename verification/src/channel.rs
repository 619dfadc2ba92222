//! Message shapes carried between the transports and the serving loop.

use vstd::prelude::*;

verus! {

/// One user (or scheduled) message for the serving loop.
#[derive(Debug)]
pub struct InboundMsg {
    pub chat_id: i64,
    pub user_id: i64,
    pub text: String,
    /// Source label: the chat transport's name, `cron`, or `heartbeat`.
    pub channel: String,
}

/// One reply or direct message for the chat transport.
#[derive(Debug)]
pub struct OutboundMsg {
    pub chat_id: i64,
    pub text: String,
    pub channel: String,
}

/// The observable content of an inbound message.
pub open spec fn spec_inbound_view(m: InboundMsg) -> (int, int, Seq<char>, Seq<char>) {
    (m.chat_id as int, m.user_id as int, m.text@, m.channel@)
}

/// The observable content of an outbound message.
pub open spec fn spec_outbound_view(m: OutboundMsg) -> (int, Seq<char>, Seq<char>) {
    (m.chat_id as int, m.text@, m.channel@)
}

impl Clone for InboundMsg {
    fn clone(&self) -> (r: Self)
        ensures
            spec_inbound_view(r) == spec_inbound_view(*self),
    {
        InboundMsg {
            chat_id: self.chat_id,
            user_id: self.user_id,
            text: self.text.clone(),
            channel: self.channel.clone(),
        }
    }
}

impl Clone for OutboundMsg {
    fn clone(&self) -> (r: Self)
        ensures
            spec_outbound_view(r) == spec_outbound_view(*self),
    {
        OutboundMsg {
            chat_id: self.chat_id,
            text: self.text.clone(),
            channel: self.channel.clone(),
        }
    }
}

} // verus!
