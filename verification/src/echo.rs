use vstd::prelude::*;
use crate::message::{Event, Init, Message, numbered};
use crate::node::{InitError, Node};

verus! {

/// The payloads of the echo workload.
#[derive(Debug, Clone)]
pub enum EchoPayload {
    Echo { echo: String },
    EchoOk { echo: String },
}

/// A node that answers every `echo` with the same text.
pub struct EchoNode {
    pub msg_id: usize,
}

impl EchoNode {
    /// One step of the node from `self` to `next` on message `input`,
    /// sending `output`: every message advances the counter, and an `echo` is
    /// answered with the same text.
    pub open spec fn stepped(self, next: Self, input: Event<EchoPayload>, output: Seq<Message<EchoPayload>>) -> bool {
        input matches Event::Message(m) ==> {
            &&& next.msg_id == self.msg_id + 1
            &&& match m.body.payload {
                EchoPayload::Echo { echo } => output == seq![
                    m.reply_spec(Some(self.msg_id)).with_payload(EchoPayload::EchoOk { echo }),
                ],
                EchoPayload::EchoOk { .. } => output == Seq::<Message<EchoPayload>>::empty(),
            }
        }
    }
}

impl Node<(), EchoPayload> for EchoNode {
    open spec fn accepts(&self, input: Event<EchoPayload>) -> bool {
        &&& input is Message
        &&& self.msg_id < usize::MAX
    }

    fn from_init(state: (), init: Init) -> (node: Result<Self, InitError>)
        ensures
            node matches Ok(n) && n.msg_id == 1,
    {
        Ok(EchoNode { msg_id: 1 })
    }

    fn can_step(&self, input: &Event<EchoPayload>) -> (ok: bool) {
        match input {
            Event::Message(_) => self.msg_id < usize::MAX,
            _ => false,
        }
    }

    fn step(&mut self, input: Event<EchoPayload>) -> (output: Vec<Message<EchoPayload>>)
        ensures
            old(self).stepped(*final(self), input, output@),
    {
        let mut output: Vec<Message<EchoPayload>> = Vec::new();
        let message = match input {
            Event::Message(message) => message,
            _ => { return output; },
        };
        let mut reply = message.into_reply(Some(&mut self.msg_id));
        match reply.body.payload {
            EchoPayload::Echo { echo } => {
                reply.body.payload = EchoPayload::EchoOk { echo };
                output.push(reply);
            },
            EchoPayload::EchoOk { .. } => {},
        }
        output
    }
}

/// The node takes every message from the network while its counter has
/// room, and nothing else.
pub proof fn lemma_accepts_messages(n: EchoNode, m: Message<EchoPayload>, i: EchoPayload)
    ensures
        n.msg_id < usize::MAX ==> n.accepts(Event::Message(m)),
        !n.accepts(Event::Injected(i)),
        !n.accepts(Event::EOF),
{
}

/// An `echo` is answered to its sender with `echo_ok` carrying the same text.
pub proof fn lemma_echo_answered(s: EchoNode, t: EchoNode, m: Message<EchoPayload>, text: String, output: Seq<Message<EchoPayload>>)
    requires
        m.body.payload == (EchoPayload::Echo { echo: text }),
        s.stepped(t, Event::Message(m), output),
    ensures
        output.len() == 1,
        output[0].dst == m.src,
        output[0].src == m.dst,
        output[0].body.in_reply_to == m.body.msg_id,
        output[0].body.msg_id == Some(s.msg_id),
        output[0].body.payload == (EchoPayload::EchoOk { echo: text }),
        t.msg_id == s.msg_id + 1,
{
}

/// Every message that the node sends carries a fresh id.
pub proof fn lemma_step_numbered(s: EchoNode, t: EchoNode, input: Event<EchoPayload>, output: Seq<Message<EchoPayload>>)
    requires
        input is Message,
        s.stepped(t, input, output),
    ensures
        numbered(s.msg_id, t.msg_id, output),
{
}

} // verus!
