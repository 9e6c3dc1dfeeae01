//! The envelope carried between pipeline stages.

use vstd::prelude::*;
use crate::commands::OrderCommand;
use crate::event::MatchingEngineEvent;

verus! {

/// A payload addressed to a channel. The transport that ferries these is
/// outside the core; the core only builds and interprets them.
#[derive(Clone, Debug)]
pub struct Message {
    pub channel: String,
    pub payload: Payload,
}

/// What a message carries: a command heading into a stage, or a matching
/// event heading out of one.
#[derive(Clone, Debug)]
pub enum Payload {
    CommandPayload(OrderCommand),
    MatchingPayload(MatchingEngineEvent),
}

/// Whether `m` is the message a matcher publishes to carry `ev` to the
/// risk stage.
pub open spec fn risk_event_msg(m: Message, ev: MatchingEngineEvent) -> bool {
    m.channel@ == "risk"@ && m.payload == Payload::MatchingPayload(ev)
}

/// Whether `new_msgs` is `old_msgs` with exactly the risk messages for
/// the events `evs` appended, in order.
pub open spec fn msgs_extended(
    old_msgs: Seq<Message>,
    new_msgs: Seq<Message>,
    evs: Seq<MatchingEngineEvent>,
) -> bool {
    &&& new_msgs.len() == old_msgs.len() + evs.len()
    &&& forall|k: int| 0 <= k < old_msgs.len() ==> new_msgs[k] == old_msgs[k]
    &&& forall|k: int|
        0 <= k < evs.len() ==> risk_event_msg(#[trigger] new_msgs[old_msgs.len() + k], evs[k])
}

/// Appending the messages for `e1` and then those for `e2` appends the
/// messages for `e1 + e2`.
pub proof fn lemma_msgs_extended_trans(
    a: Seq<Message>,
    b: Seq<Message>,
    c: Seq<Message>,
    e1: Seq<MatchingEngineEvent>,
    e2: Seq<MatchingEngineEvent>,
)
    requires
        msgs_extended(a, b, e1),
        msgs_extended(b, c, e2),
    ensures
        msgs_extended(a, c, e1 + e2),
{
    assert forall|k: int| 0 <= k < (e1 + e2).len() implies risk_event_msg(
        #[trigger] c[a.len() + k],
        (e1 + e2)[k],
    ) by {
        if k < e1.len() {
            assert(c[a.len() + k] == b[a.len() + k]);
            assert((e1 + e2)[k] == e1[k]);
        } else {
            assert((e1 + e2)[k] == e2[k - e1.len()]);
            assert(c[a.len() + k] == c[b.len() + (k - e1.len())]);
        }
    }
}

impl Message {
    /// Wrap a payload for a channel.
    pub fn new(channel: String, payload: Payload) -> (r: Message)
        ensures
            r.channel == channel,
            r.payload == payload,
    {
        Message { channel, payload }
    }
}

} // verus!
