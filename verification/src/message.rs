use vstd::prelude::*;

verus! {

/// A message exchanged between nodes (and clients) of the network.
#[derive(Debug, Clone)]
pub struct Message<Payload> {
    pub src: String,
    pub dst: String,
    pub body: Body<Payload>,
}

/// The body of a message: its identifiers and the payload proper.
#[derive(Debug, Clone)]
pub struct Body<Payload> {
    pub msg_id: Option<usize>,
    pub in_reply_to: Option<usize>,
    pub payload: Payload,
}

/// What a node reacts to: a message from the network, an event that the node
/// injected into its own input, or the end of the input.
#[derive(Debug, Clone)]
pub enum Event<Payload, InjectedPayload = Payload> {
    Message(Message<Payload>),
    Injected(InjectedPayload),
    EOF,
}

/// The data of the `init` message that starts every node.
#[derive(Debug, Clone)]
pub struct Init {
    pub node_id: String,
    pub node_ids: Vec<String>,
}

/// The payloads of the initial handshake.
#[derive(Debug, Clone)]
pub enum InitPayload {
    Init(Init),
    InitOk,
}

impl<Payload> Message<Payload> {
    /// The reply to `self` carrying `msg_id`: addresses swapped, `in_reply_to`
    /// set to the id of `self`, payload kept.
    pub open spec fn reply_spec(self, msg_id: Option<usize>) -> Self {
        Message {
            src: self.dst,
            dst: self.src,
            body: Body { msg_id: msg_id, in_reply_to: self.body.msg_id, payload: self.body.payload },
        }
    }

    /// `self` with its payload replaced.
    pub open spec fn with_payload(self, payload: Payload) -> Self {
        Message { body: Body { payload: payload, ..self.body }, ..self }
    }

    /// Turns a received message into the skeleton of its reply. Where a counter
    /// is given, the reply takes its value as id and the counter is advanced.
    pub fn into_reply(self, msg_id: Option<&mut usize>) -> (reply: Self)
        requires
            msg_id matches Some(id) ==> *id < usize::MAX,
        ensures
            msg_id matches Some(id) ==> reply == self.reply_spec(Some(*id)) && *final(id) == *id + 1,
            msg_id is None ==> reply == self.reply_spec(None),
            reply.src == self.dst,
            reply.dst == self.src,
            reply.body.in_reply_to == self.body.msg_id,
            reply.body.payload == self.body.payload,
            msg_id matches Some(id) ==> reply.body.msg_id == Some(*id),
            msg_id is None ==> reply.body.msg_id is None,
    {
        let id = match msg_id {
            Some(id) => {
                let mid = *id;
                *id = *id + 1;
                Some(mid)
            },
            None => None,
        };
        Message {
            src: self.dst,
            dst: self.src,
            body: Body { msg_id: id, in_reply_to: self.body.msg_id, payload: self.body.payload },
        }
    }

    /// The reply to `self` with the given id, leaving any counter alone.
    pub fn reply_with_id(self, msg_id: usize) -> (reply: Self)
        ensures
            reply == self.reply_spec(Some(msg_id)),
    {
        let mut reply = self.into_reply(None);
        reply.body.msg_id = Some(msg_id);
        reply
    }

    /// Queues `self` for sending and advances the id counter.
    pub fn send(self, outbox: &mut Vec<Message<Payload>>, msg_id: &mut usize)
        requires
            *old(msg_id) < usize::MAX,
        ensures
            final(outbox)@ == old(outbox)@.push(self),
            *final(msg_id) == *old(msg_id) + 1,
    {
        outbox.push(self);
        *msg_id = *msg_id + 1;
    }
}

/// The `init_ok` answer to an `init` message.
pub open spec fn init_ok_spec(init_msg: Message<InitPayload>) -> Message<InitPayload> {
    Message {
        src: init_msg.dst,
        dst: init_msg.src,
        body: Body { msg_id: Some(0), in_reply_to: init_msg.body.msg_id, payload: InitPayload::InitOk },
    }
}

/// Opens the session: the first message must be `init`; it yields the node's
/// configuration and the `init_ok` answer. Any other first message gives `None`.
pub fn handshake(init_msg: Message<InitPayload>) -> (res: Option<(Init, Message<InitPayload>)>)
    ensures
        res is Some <==> init_msg.body.payload is Init,
        res matches Some((init, reply)) ==> init_msg.body.payload == InitPayload::Init(init)
            && reply == init_ok_spec(init_msg),
        res matches Some((init, reply)) ==> {
            &&& reply.src == init_msg.dst
            &&& reply.dst == init_msg.src
            &&& reply.body.msg_id == Some(0usize)
            &&& reply.body.in_reply_to == init_msg.body.msg_id
            &&& reply.body.payload is InitOk
        },
{
    match init_msg.body.payload {
        InitPayload::Init(init) => {
            let reply = Message {
                src: init_msg.dst,
                dst: init_msg.src,
                body: Body { msg_id: Some(0), in_reply_to: init_msg.body.msg_id, payload: InitPayload::InitOk },
            };
            Some((init, reply))
        },
        InitPayload::InitOk => None,
    }
}

/// `output` is numbered consecutively from `first`, and the counter has moved
/// on to `next`, past every number used.
pub open spec fn numbered<Payload>(first: usize, next: usize, output: Seq<Message<Payload>>) -> bool {
    &&& first + output.len() <= next
    &&& forall|k: int| 0 <= k < output.len() ==> (#[trigger] output[k]).body.msg_id == Some((first + k) as usize)
}

/// Where each step numbers its messages from the counter on and moves the
/// counter past them, no two messages of a run share an id.
pub proof fn lemma_numbered_ids_distinct<Payload>(
    counters: Seq<usize>,
    outputs: Seq<Seq<Message<Payload>>>,
    i: int,
    k: int,
    j: int,
    l: int,
)
    requires
        counters.len() == outputs.len() + 1,
        forall|n: int| 0 <= n < outputs.len() ==> numbered(counters[n], counters[n + 1], #[trigger] outputs[n]),
        0 <= i <= j < outputs.len(),
        0 <= k < outputs[i].len(),
        0 <= l < outputs[j].len(),
        i != j || k != l,
    ensures
        outputs[i][k].body.msg_id != outputs[j][l].body.msg_id,
{
    assert(numbered(counters[i], counters[i + 1], outputs[i]));
    assert(numbered(counters[j], counters[j + 1], outputs[j]));
    assert(outputs[i][k].body.msg_id == Some((counters[i] + k) as usize));
    assert(outputs[j][l].body.msg_id == Some((counters[j] + l) as usize));
    if i < j {
        lemma_counters_grow(counters, outputs, i + 1, j);
    }
}

/// The counters of such a run never go back.
proof fn lemma_counters_grow<Payload>(counters: Seq<usize>, outputs: Seq<Seq<Message<Payload>>>, i: int, j: int)
    requires
        counters.len() == outputs.len() + 1,
        forall|n: int| 0 <= n < outputs.len() ==> numbered(counters[n], counters[n + 1], #[trigger] outputs[n]),
        0 <= i <= j < counters.len(),
    ensures
        counters[i] <= counters[j],
    decreases j - i,
{
    if i < j {
        lemma_counters_grow(counters, outputs, i, j - 1);
        assert(numbered(counters[j - 1], counters[j], outputs[j - 1]));
    }
}

/// A reply goes back where the message came from, answers it, carries the
/// given id and keeps the payload.
pub proof fn lemma_reply_goes_back<Payload>(m: Message<Payload>, id: Option<usize>)
    ensures
        m.reply_spec(id).src == m.dst,
        m.reply_spec(id).dst == m.src,
        m.reply_spec(id).body.in_reply_to == m.body.msg_id,
        m.reply_spec(id).body.msg_id == id,
        m.reply_spec(id).body.payload == m.body.payload,
{
}

/// Replying twice leads back to the original addresses, and the second reply
/// answers the first.
pub proof fn lemma_reply_of_reply<Payload>(m: Message<Payload>, a: Option<usize>, b: Option<usize>)
    ensures
        m.reply_spec(a).reply_spec(b).src == m.src,
        m.reply_spec(a).reply_spec(b).dst == m.dst,
        m.reply_spec(a).reply_spec(b).body.in_reply_to == m.reply_spec(a).body.msg_id,
        m.reply_spec(a).reply_spec(b).body.payload == m.body.payload,
{
}

} // verus!
