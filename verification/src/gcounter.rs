use vstd::prelude::*;
use std::collections::VecDeque;
use crate::message::{Body, Event, Init, Message, numbered};
use crate::node::{InitError, Node};

verus! {

/// The name of the sequentially consistent key-value service.
pub open spec fn kv_service() -> Seq<char> {
    "seq-kv"@
}

/// The key under which the counter is kept in the service.
pub open spec fn counter_key() -> Seq<char> {
    "counter"@
}

/// The error code of the service for a key that does not exist.
pub const KEY_DOES_NOT_EXIST: usize = 20;

/// The error code of the service for a compare-and-set whose `from` is not
/// the current value.
pub const PRECONDITION_FAILED: usize = 22;

fn kv_service_name() -> (s: String)
    ensures
        s@ == kv_service(),
{
    String::from_str("seq-kv")
}

fn counter_key_name() -> (s: String)
    ensures
        s@ == counter_key(),
{
    String::from_str("counter")
}

/// The payloads of the grow-only counter workload.
#[derive(Debug, Clone)]
pub enum GCounterPayload {
    /// An RPC from a client to add `delta` to the counter.
    Add { delta: usize },
    /// The answer that the add was done.
    AddOk,
    /// A read of the counter, from a client or to the service.
    Read { key: Option<String> },
    /// The answer to a read.
    ReadOk { value: usize },
    /// A write of `value` under `key`.
    Write { key: String, value: usize },
    /// The answer to a write.
    WriteOk,
    /// A compare-and-set of `key` from `from` to `to`.
    CompareAndSet { key: String, from: usize, to: usize, create_if_not_exists: Option<bool> },
    /// The answer that a compare-and-set succeeded.
    CompareAndSetOk,
    /// An error reported by the service.
    Error { code: usize, text: String },
}

/// The events that a counter node injects into its own input.
#[derive(Debug, Clone)]
pub enum InjectedPayload {
    ReadKVCounter,
    Cas { delta: usize },
}

/// An add waiting to be applied to the service: its delta, the id of the
/// client's `add` and the client to answer, and the id of the compare-and-set
/// sent for it, if one is out.
#[derive(Debug, Clone)]
pub struct AddInstruction {
    pub delta: usize,
    pub rcvd_add_msg_id: usize,
    pub sent_cas_msg_id: Option<usize>,
    pub client: String,
}

/// A node of a grow-only counter kept in the `seq-kv` service.
pub struct GCounterNode {
    pub node_id: String,
    pub _node_ids: Vec<String>,
    pub msg_id: usize,
    pub counter: usize,
    pub add_queue: VecDeque<AddInstruction>,
}

/// `m` is a message of this node to the service, numbered `id`, not a reply.
pub open spec fn to_service(node: GCounterNode, m: Message<GCounterPayload>, id: usize) -> bool {
    &&& m.src == node.node_id
    &&& m.dst@ == kv_service()
    &&& m.body.msg_id == Some(id)
    &&& m.body.in_reply_to is None
}

/// `p` writes `value` under the counter's key.
pub open spec fn writes_counter(p: GCounterPayload, value: usize) -> bool {
    p matches GCounterPayload::Write { key, value: v } && key@ == counter_key() && v == value
}

impl GCounterNode {
    /// Everything but the id counter is as in `self`.
    pub open spec fn same_but_counter(self, next: Self) -> bool {
        &&& next.node_id == self.node_id
        &&& next._node_ids == self._node_ids
        &&& next.counter == self.counter
        &&& next.add_queue@ == self.add_queue@
    }

    /// The delta of the add at the head of the queue, if no compare-and-set
    /// was sent for it yet.
    pub open spec fn pending_spec(self) -> Option<usize> {
        if self.add_queue@.len() > 0 && self.add_queue@[0].sent_cas_msg_id is None {
            Some(self.add_queue@[0].delta)
        } else {
            None
        }
    }

    /// The delta that the injector should apply next, if any: that of the add
    /// at the head of the queue when no compare-and-set was sent for it.
    pub fn pending_add(&self) -> (r: Option<usize>)
        ensures
            r == self.pending_spec(),
            r matches Some(d) ==> self.add_queue@.len() > 0 && self.add_queue@[0].sent_cas_msg_id is None
                && d == self.add_queue@[0].delta,
            r is None ==> self.add_queue@.len() == 0 || self.add_queue@[0].sent_cas_msg_id is Some,
    {
        if self.add_queue.len() > 0 && self.add_queue[0].sent_cas_msg_id.is_none() {
            Some(self.add_queue[0].delta)
        } else {
            None
        }
    }
}

impl GCounterNode {
    /// The events that the node takes; on the others it gives up: an
    /// injected compare-and-set with no add queued, an
    /// `add_ok`, `write` or `cas` from the network, an error other than a
    /// missing key or a failed compare-and-set, a `cas_ok` without
    /// `in_reply_to` while a compare-and-set is out, and any overflow of the
    /// counters.
    pub open spec fn takes(self, input: Event<GCounterPayload, InjectedPayload>) -> bool {
        match input {
            Event::EOF => true,
            Event::Injected(InjectedPayload::ReadKVCounter) => self.msg_id < usize::MAX,
            Event::Injected(InjectedPayload::Cas { delta }) => {
                &&& self.add_queue@.len() > 0
                &&& self.counter + delta <= usize::MAX
                &&& self.msg_id < usize::MAX
            },
            Event::Message(m) => match m.body.payload {
                GCounterPayload::Add { delta } => self.counter + delta <= usize::MAX && self.msg_id < usize::MAX,
                GCounterPayload::Read { .. } => self.msg_id < usize::MAX,
                GCounterPayload::CompareAndSetOk => (self.add_queue@.len() > 0
                    && self.add_queue@[0].sent_cas_msg_id is Some) ==> {
                    &&& m.body.in_reply_to is Some
                    &&& m.body.in_reply_to == self.add_queue@[0].sent_cas_msg_id ==> self.msg_id < usize::MAX
                },
                GCounterPayload::ReadOk { .. } | GCounterPayload::WriteOk => true,
                GCounterPayload::Error { code, .. } => (code == KEY_DOES_NOT_EXIST && self.msg_id < usize::MAX)
                    || code == PRECONDITION_FAILED,
                GCounterPayload::AddOk | GCounterPayload::Write { .. } | GCounterPayload::CompareAndSet { .. } => false,
            },
        }
    }

    /// Whether `m` answers the compare-and-set sent for the add at the head
    /// of the queue.
    pub open spec fn confirms_head(self, m: Message<GCounterPayload>) -> bool {
        &&& self.add_queue@.len() > 0
        &&& self.add_queue@[0].sent_cas_msg_id is Some
        &&& m.body.in_reply_to == self.add_queue@[0].sent_cas_msg_id
    }

    /// The `add_ok` that answers the add at the head of the queue, sent by
    /// `from` with id `id`.
    pub open spec fn add_ok_for_head(self, from: String, id: usize) -> Message<GCounterPayload> {
        Message {
            src: from,
            dst: self.add_queue@[0].client,
            body: Body {
                msg_id: Some(id),
                in_reply_to: Some(self.add_queue@[0].rcvd_add_msg_id),
                payload: GCounterPayload::AddOk,
            },
        }
    }

    /// One step of the node from `self` to `next` on `input`, sending `output`.
    /// An `add` raises the counter and writes it to the service. For an add
    /// held in the queue, the injector has the node read the counter from the
    /// service and compare-and-set it there; the confirmation of that
    /// compare-and-set answers the add's client with `add_ok`.
    pub open spec fn stepped(self, next: Self, input: Event<GCounterPayload, InjectedPayload>, output: Seq<Message<GCounterPayload>>) -> bool {
        match input {
            Event::EOF => next == self && output == Seq::<Message<GCounterPayload>>::empty(),
            Event::Injected(InjectedPayload::ReadKVCounter) => {
                &&& self.same_but_counter(next)
                &&& next.msg_id == self.msg_id + 1
                &&& output.len() == 1
                &&& to_service(self, output[0], self.msg_id)
                &&& output[0].body.payload matches GCounterPayload::Read { key: Some(key) } && key@ == counter_key()
            },
            Event::Injected(InjectedPayload::Cas { delta }) => {
                &&& next.node_id == self.node_id
                &&& next._node_ids == self._node_ids
                &&& next.counter == self.counter
                &&& next.add_queue@ == self.add_queue@.update(0, AddInstruction { sent_cas_msg_id: Some(self.msg_id), ..self.add_queue@[0] })
                &&& next.msg_id == self.msg_id + 1
                &&& output.len() == 1
                &&& to_service(self, output[0], self.msg_id)
                &&& output[0].body.payload matches GCounterPayload::CompareAndSet { key, from, to, create_if_not_exists }
                    && key@ == counter_key() && from == self.counter && to == self.counter + delta
                    && create_if_not_exists == Some(true)
            },
            Event::Message(m) => {
                let reply = m.reply_spec(Some(self.msg_id));
                match m.body.payload {
                    GCounterPayload::Add { delta } => {
                        &&& next.node_id == self.node_id
                        &&& next._node_ids == self._node_ids
                        &&& next.add_queue@ == self.add_queue@
                        &&& next.counter == self.counter + delta
                        &&& next.msg_id == self.msg_id + 1
                        &&& output.len() == 1
                        &&& output[0].src == reply.src
                        &&& output[0].dst@ == kv_service()
                        &&& output[0].body.msg_id == Some(self.msg_id)
                        &&& output[0].body.in_reply_to is None
                        &&& writes_counter(output[0].body.payload, next.counter)
                    },
                    GCounterPayload::Read { .. } => {
                        &&& self.same_but_counter(next)
                        &&& next.msg_id == self.msg_id + 1
                        &&& output == seq![reply.with_payload(GCounterPayload::ReadOk { value: self.counter })]
                    },
                    GCounterPayload::CompareAndSetOk => if self.confirms_head(m) {
                        &&& next.node_id == self.node_id
                        &&& next._node_ids == self._node_ids
                        &&& next.counter == self.counter
                        &&& next.add_queue@ == self.add_queue@.drop_first()
                        &&& next.msg_id == self.msg_id + 1
                        &&& output == seq![self.add_ok_for_head(m.dst, self.msg_id)]
                    } else {
                        next == self && output == Seq::<Message<GCounterPayload>>::empty()
                    },
                    GCounterPayload::ReadOk { value } => {
                        &&& next == GCounterNode { counter: value, ..self }
                        &&& output == Seq::<Message<GCounterPayload>>::empty()
                    },
                    GCounterPayload::Error { code, .. } => if code == KEY_DOES_NOT_EXIST {
                        &&& self.same_but_counter(next)
                        &&& next.msg_id == self.msg_id + 1
                        &&& output.len() == 1
                        &&& output[0].src == reply.src
                        &&& output[0].dst@ == kv_service()
                        &&& output[0].body.msg_id == Some(self.msg_id)
                        &&& output[0].body.in_reply_to is None
                        &&& writes_counter(output[0].body.payload, self.counter)
                    } else {
                        next == self && output == Seq::<Message<GCounterPayload>>::empty()
                    },
                    _ => next == self && output == Seq::<Message<GCounterPayload>>::empty(),
                }
            },
        }
    }
}

impl Node<(), GCounterPayload, InjectedPayload> for GCounterNode {
    open spec fn accepts(&self, input: Event<GCounterPayload, InjectedPayload>) -> bool {
        self.takes(input)
    }

    fn from_init(state: (), init: Init) -> (node: Result<Self, InitError>)
        ensures
            node matches Ok(n) && {
                &&& n.node_id == init.node_id
                &&& n._node_ids == init.node_ids
                &&& n.msg_id == 1
                &&& n.counter == 0
                &&& n.add_queue@ == Seq::<AddInstruction>::empty()
            },
    {
        Ok(GCounterNode {
            node_id: init.node_id,
            _node_ids: init.node_ids,
            msg_id: 1,
            counter: 0,
            add_queue: VecDeque::new(),
        })
    }

    fn can_step(&self, input: &Event<GCounterPayload, InjectedPayload>) -> (ok: bool) {
        match input {
            Event::EOF => true,
            Event::Injected(InjectedPayload::ReadKVCounter) => self.msg_id < usize::MAX,
            Event::Injected(InjectedPayload::Cas { delta }) => {
                self.add_queue.len() > 0 && *delta <= usize::MAX - self.counter && self.msg_id < usize::MAX
            },
            Event::Message(m) => match &m.body.payload {
                GCounterPayload::Add { delta } => *delta <= usize::MAX - self.counter && self.msg_id < usize::MAX,
                GCounterPayload::Read { .. } => self.msg_id < usize::MAX,
                GCounterPayload::CompareAndSetOk => {
                    if self.add_queue.len() > 0 && self.add_queue[0].sent_cas_msg_id.is_some() {
                        match m.body.in_reply_to {
                            Some(id) => id != self.add_queue[0].sent_cas_msg_id.unwrap() || self.msg_id < usize::MAX,
                            None => false,
                        }
                    } else {
                        true
                    }
                },
                GCounterPayload::ReadOk { .. } | GCounterPayload::WriteOk => true,
                GCounterPayload::Error { code, .. } => (*code == KEY_DOES_NOT_EXIST && self.msg_id < usize::MAX)
                    || *code == PRECONDITION_FAILED,
                GCounterPayload::AddOk | GCounterPayload::Write { .. } | GCounterPayload::CompareAndSet { .. } => false,
            },
        }
    }

    /// Counts adds and writes them to the service, reads the counter from the
    /// service, compares-and-sets it there, and answers the clients (see
    /// `stepped`).
    fn step(&mut self, input: Event<GCounterPayload, InjectedPayload>) -> (output: Vec<Message<GCounterPayload>>)
        ensures
            old(self).stepped(*final(self), input, output@),
    {
        let ghost start = *self;
        let mut output: Vec<Message<GCounterPayload>> = Vec::new();
        match input {
            Event::EOF => {},
            Event::Injected(InjectedPayload::ReadKVCounter) => {
                let msg = Message {
                    src: self.node_id.clone(),
                    dst: kv_service_name(),
                    body: Body {
                        msg_id: Some(self.msg_id),
                        in_reply_to: None,
                        payload: GCounterPayload::Read { key: Some(counter_key_name()) },
                    },
                };
                msg.send(&mut output, &mut self.msg_id);
            },
            Event::Injected(InjectedPayload::Cas { delta }) => {
                let from = self.counter;
                let to = self.counter + delta;
                let msg_id = self.msg_id;
                let mut head = match self.add_queue.pop_front() {
                    Some(head) => head,
                    None => { return output; },
                };
                head.sent_cas_msg_id = Some(msg_id);
                self.add_queue.push_front(head);
                assert(self.add_queue@ =~= start.add_queue@.update(0, AddInstruction { sent_cas_msg_id: Some(msg_id), ..start.add_queue@[0] }));
                let msg = Message {
                    src: self.node_id.clone(),
                    dst: kv_service_name(),
                    body: Body {
                        msg_id: Some(msg_id),
                        in_reply_to: None,
                        payload: GCounterPayload::CompareAndSet {
                            key: counter_key_name(),
                            from,
                            to,
                            create_if_not_exists: Some(true),
                        },
                    },
                };
                msg.send(&mut output, &mut self.msg_id);
            },
            Event::Message(message) => {
                let original_in_reply_to = message.body.in_reply_to;
                let mut reply = message.reply_with_id(self.msg_id);
                match reply.body.payload {
                    GCounterPayload::Add { delta } => {
                        self.counter = self.counter + delta;
                        reply.dst = kv_service_name();
                        reply.body.in_reply_to = None;
                        reply.body.payload = GCounterPayload::Write { key: counter_key_name(), value: self.counter };
                        reply.send(&mut output, &mut self.msg_id);
                    },
                    GCounterPayload::Read { .. } => {
                        reply.body.payload = GCounterPayload::ReadOk { value: self.counter };
                        reply.send(&mut output, &mut self.msg_id);
                    },
                    GCounterPayload::CompareAndSetOk => {
                        if self.add_queue.len() > 0 {
                            if let Some(sent_cas_msg_id) = self.add_queue[0].sent_cas_msg_id {
                                let answered_id = match original_in_reply_to {
                                    Some(id) => id,
                                    None => { return output; },
                                };
                                if answered_id == sent_cas_msg_id {
                                    let head = match self.add_queue.pop_front() {
                                        Some(head) => head,
                                        None => { return output; },
                                    };
                                    assert(self.add_queue@ =~= start.add_queue@.drop_first());
                                    reply.dst = head.client;
                                    reply.body.in_reply_to = Some(head.rcvd_add_msg_id);
                                    reply.body.payload = GCounterPayload::AddOk;
                                    reply.send(&mut output, &mut self.msg_id);
                                }
                            }
                        }
                    },
                    GCounterPayload::ReadOk { value } => {
                        self.counter = value;
                    },
                    GCounterPayload::WriteOk => {},
                    GCounterPayload::Error { code, text } => {
                        if code == KEY_DOES_NOT_EXIST {
                            reply.dst = kv_service_name();
                            reply.body.in_reply_to = None;
                            reply.body.payload = GCounterPayload::Write { key: counter_key_name(), value: self.counter };
                            reply.send(&mut output, &mut self.msg_id);
                        }
                    },
                    GCounterPayload::AddOk | GCounterPayload::Write { .. } | GCounterPayload::CompareAndSet { .. } => {},
                }
            },
        }
        output
    }
}

/// Every message that the node sends carries a fresh id.
pub proof fn lemma_step_numbered(
    s: GCounterNode,
    t: GCounterNode,
    input: Event<GCounterPayload, InjectedPayload>,
    output: Seq<Message<GCounterPayload>>,
)
    requires
        s.stepped(t, input, output),
    ensures
        numbered(s.msg_id, t.msg_id, output),
{
}

/// An `add_ok` goes out only once the service confirmed the compare-and-set
/// sent for the add at the head of the queue; it answers that add's client,
/// and the add leaves the queue.
pub proof fn lemma_add_ok_only_when_confirmed(
    s: GCounterNode,
    t: GCounterNode,
    input: Event<GCounterPayload, InjectedPayload>,
    output: Seq<Message<GCounterPayload>>,
    k: int,
)
    requires
        s.stepped(t, input, output),
        0 <= k < output.len(),
        output[k].body.payload is AddOk,
    ensures
        input matches Event::Message(m) && m.body.payload is CompareAndSetOk && s.confirms_head(m),
        output[k].dst == s.add_queue@[0].client,
        output[k].body.in_reply_to == Some(s.add_queue@[0].rcvd_add_msg_id),
        t.add_queue@ == s.add_queue@.drop_first(),
{
}

/// Once the service confirms the compare-and-set of the add at the head of
/// the queue, the node answers that add's client with `add_ok`.
pub proof fn lemma_confirmed_add_answered(
    s: GCounterNode,
    t: GCounterNode,
    m: Message<GCounterPayload>,
    output: Seq<Message<GCounterPayload>>,
)
    requires
        m.body.payload is CompareAndSetOk,
        s.confirms_head(m),
        s.stepped(t, Event::Message(m), output),
    ensures
        output.len() == 1,
        output[0].dst == s.add_queue@[0].client,
        output[0].body.in_reply_to == Some(s.add_queue@[0].rcvd_add_msg_id),
        output[0].body.payload is AddOk,
        t.add_queue@ == s.add_queue@.drop_first(),
{
}

/// Sending a compare-and-set for the add at the head of the queue marks it
/// sent, so the injector does not ask for that add again while it is out.
pub proof fn lemma_cas_marks_head(
    s: GCounterNode,
    t: GCounterNode,
    delta: usize,
    output: Seq<Message<GCounterPayload>>,
)
    requires
        s.add_queue@.len() > 0,
        s.stepped(t, Event::Injected(InjectedPayload::Cas { delta }), output),
    ensures
        t.pending_spec() is None,
        t.add_queue@.len() == s.add_queue@.len(),
{
}

/// The delta to apply next is that of the add at the head of the queue, and
/// there is one exactly when that add has no compare-and-set out.
pub proof fn lemma_pending_is_head(n: GCounterNode)
    ensures
        n.pending_spec() is Some <==> (n.add_queue@.len() > 0 && n.add_queue@[0].sent_cas_msg_id is None),
        n.pending_spec() matches Some(d) ==> d == n.add_queue@[0].delta,
{
}

/// An injected compare-and-set moves the counter from its current value by
/// exactly the delta given, under the counter's key, at the service.
pub proof fn lemma_cas_sets_counter_plus_delta(
    s: GCounterNode,
    t: GCounterNode,
    delta: usize,
    output: Seq<Message<GCounterPayload>>,
)
    requires
        s.add_queue@.len() > 0,
        s.stepped(t, Event::Injected(InjectedPayload::Cas { delta }), output),
    ensures
        output.len() == 1,
        output[0].dst@ == "seq-kv"@,
        output[0].body.payload matches GCounterPayload::CompareAndSet { key, from, to, .. }
            && key@ == "counter"@ && from == s.counter && to == s.counter + delta,
        t.add_queue@[0].sent_cas_msg_id == output[0].body.msg_id,
        t.counter == s.counter,
{
}

/// The node takes every event on which it does not give up: the end of the
/// input, answers from the service other than errors it does not know, an
/// `add` that fits the counter, and reads, while ids remain.
pub proof fn lemma_accepts_when_room(n: GCounterNode, m: Message<GCounterPayload>)
    ensures
        n.takes(Event::EOF),
        (m.body.payload is ReadOk || m.body.payload is WriteOk) ==> n.takes(Event::Message(m)),
        (m.body.payload matches GCounterPayload::Error { code, .. } && code == 22) ==> n.takes(Event::Message(m)),
        n.msg_id < usize::MAX ==> {
            &&& n.takes(Event::Injected(InjectedPayload::ReadKVCounter))
            &&& (m.body.payload is Read) ==> n.takes(Event::Message(m))
            &&& (m.body.payload matches GCounterPayload::Error { code, .. } && code == 20) ==> n.takes(Event::Message(m))
            &&& (m.body.payload matches GCounterPayload::Add { delta } && n.counter + delta <= usize::MAX)
                ==> n.takes(Event::Message(m))
            &&& (m.body.payload is CompareAndSetOk && m.body.in_reply_to is Some) ==> n.takes(Event::Message(m))
        },
{
}

/// Answers from the service: a read's answer sets the counter to the value
/// read; a missing key has the node write its counter to the service; a
/// write's answer and a failed compare-and-set change nothing. None of them
/// touches the queue of adds.
pub proof fn lemma_service_answers(
    s: GCounterNode,
    t: GCounterNode,
    m: Message<GCounterPayload>,
    output: Seq<Message<GCounterPayload>>,
)
    requires
        s.stepped(t, Event::Message(m), output),
    ensures
        m.body.payload matches GCounterPayload::ReadOk { value } ==>
            t.counter == value && output.len() == 0 && t.add_queue@ == s.add_queue@ && t.msg_id == s.msg_id,
        m.body.payload is WriteOk ==> t == s && output.len() == 0,
        (m.body.payload matches GCounterPayload::Error { code, .. } && code == 22) ==> t == s && output.len() == 0,
        (m.body.payload matches GCounterPayload::Error { code, .. } && code == 20) ==> {
            &&& output.len() == 1
            &&& output[0].dst@ == "seq-kv"@
            &&& output[0].body.in_reply_to is None
            &&& output[0].body.payload matches GCounterPayload::Write { key, value }
                && key@ == "counter"@ && value == s.counter
            &&& t.counter == s.counter
            &&& t.add_queue@ == s.add_queue@
        },
{
}

/// An add raises the counter by its delta, and a read right after it
/// reports the raised counter.
pub proof fn lemma_read_after_add(
    s: GCounterNode,
    t: GCounterNode,
    u: GCounterNode,
    a: Message<GCounterPayload>,
    r: Message<GCounterPayload>,
    delta: usize,
    o1: Seq<Message<GCounterPayload>>,
    o2: Seq<Message<GCounterPayload>>,
)
    requires
        a.body.payload == (GCounterPayload::Add { delta }),
        r.body.payload is Read,
        s.stepped(t, Event::Message(a), o1),
        t.stepped(u, Event::Message(r), o2),
    ensures
        t.counter == s.counter + delta,
        writes_counter(o1[0].body.payload, t.counter),
        o2 == seq![r.reply_spec(Some(t.msg_id)).with_payload(GCounterPayload::ReadOk { value: (s.counter + delta) as usize })],
{
}

} // verus!
