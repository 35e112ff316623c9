use vstd::prelude::*;
use crate::message::{Event, Init, Message, numbered};
use crate::node::{InitError, Node};

verus! {

/// The payloads of the unique-id workload.
#[derive(Debug, Clone)]
pub enum UniquePayload {
    Generate,
    GenerateOk { guid: String },
}

/// A node that hands out identifiers unique across the whole network.
pub struct UniqueNode {
    pub node_id: String,
    pub msg_id: usize,
}

/// The character of a decimal digit.
pub open spec fn digit_char(d: nat) -> char {
    if d == 0 { '0' }
    else if d == 1 { '1' }
    else if d == 2 { '2' }
    else if d == 3 { '3' }
    else if d == 4 { '4' }
    else if d == 5 { '5' }
    else if d == 6 { '6' }
    else if d == 7 { '7' }
    else if d == 8 { '8' }
    else { '9' }
}

/// The decimal notation of `n`, without leading zeros.
pub open spec fn decimal(n: nat) -> Seq<char>
    decreases n,
{
    if n < 10 {
        seq![digit_char(n)]
    } else {
        decimal(n / 10).push(digit_char(n % 10))
    }
}

/// The identifier that node `node_id` hands out when its counter is `id`:
/// the node's name, a dash, and the counter in decimal.
pub open spec fn guid_spec(node_id: Seq<char>, id: nat) -> Seq<char> {
    node_id + seq!['-'] + decimal(id)
}

fn digit_str(d: usize) -> (s: &'static str)
    requires
        d < 10,
    ensures
        s@ == seq![digit_char(d as nat)],
{
    proof {
        reveal_strlit("0");
        reveal_strlit("1");
        reveal_strlit("2");
        reveal_strlit("3");
        reveal_strlit("4");
        reveal_strlit("5");
        reveal_strlit("6");
        reveal_strlit("7");
        reveal_strlit("8");
        reveal_strlit("9");
    }
    if d == 0 { "0" }
    else if d == 1 { "1" }
    else if d == 2 { "2" }
    else if d == 3 { "3" }
    else if d == 4 { "4" }
    else if d == 5 { "5" }
    else if d == 6 { "6" }
    else if d == 7 { "7" }
    else if d == 8 { "8" }
    else { "9" }
}

/// Appends the decimal notation of `n` to `s`.
fn append_decimal(s: &mut String, n: usize)
    ensures
        final(s)@ == old(s)@ + decimal(n as nat),
    decreases n,
{
    if n >= 10 {
        append_decimal(s, n / 10);
    }
    s.append(digit_str(n % 10));
    if n >= 10 {
        assert(old(s)@ + decimal(n as nat) =~= old(s)@ + decimal((n / 10) as nat) + seq![digit_char((n % 10) as nat)]);
    }
}

/// The identifier handed out by node `node_id` when its counter is `id`.
pub fn guid(node_id: &String, id: usize) -> (g: String)
    ensures
        g@ == guid_spec(node_id@, id as nat),
{
    let mut g = node_id.clone();
    proof { reveal_strlit("-"); }
    g.append("-");
    append_decimal(&mut g, id);
    assert(g@ =~= guid_spec(node_id@, id as nat));
    g
}

impl UniqueNode {
    /// One step of the node from `self` to `next` on `input`, sending
    /// `output`: a `generate` is answered with the identifier drawn at the
    /// current counter, which then advances.
    pub open spec fn stepped(self, next: Self, input: Event<UniquePayload>, output: Seq<Message<UniquePayload>>) -> bool {
        &&& next.node_id == self.node_id
        &&& input matches Event::Message(m) ==> match m.body.payload {
            UniquePayload::Generate => {
                &&& next.msg_id == self.msg_id + 1
                &&& output.len() == 1
                &&& output[0] == m.reply_spec(Some(self.msg_id)).with_payload(output[0].body.payload)
                &&& output[0].body.payload matches UniquePayload::GenerateOk { guid }
                    && guid@ == guid_spec(self.node_id@, self.msg_id as nat)
            },
            UniquePayload::GenerateOk { .. } => {
                &&& next.msg_id == self.msg_id
                &&& output == Seq::<Message<UniquePayload>>::empty()
            },
        }
        &&& !(input is Message) ==> next == self && output == Seq::<Message<UniquePayload>>::empty()
    }
}

impl Node<(), UniquePayload> for UniqueNode {
    open spec fn accepts(&self, input: Event<UniquePayload>) -> bool {
        input matches Event::Message(m) && (m.body.payload is Generate ==> self.msg_id < usize::MAX)
    }

    fn from_init(state: (), init: Init) -> (node: Result<Self, InitError>)
        ensures
            node matches Ok(n) && n.node_id == init.node_id && n.msg_id == 1,
    {
        Ok(UniqueNode { node_id: init.node_id, msg_id: 1 })
    }

    fn can_step(&self, input: &Event<UniquePayload>) -> (ok: bool) {
        match input {
            Event::Message(m) => match m.body.payload {
                UniquePayload::Generate => self.msg_id < usize::MAX,
                UniquePayload::GenerateOk { .. } => true,
            },
            _ => false,
        }
    }

    /// Answers `generate` with the identifier made of the node's name and its
    /// current counter, and advances the counter.
    fn step(&mut self, input: Event<UniquePayload>) -> (output: Vec<Message<UniquePayload>>)
        ensures
            old(self).stepped(*final(self), input, output@),
    {
        let mut output: Vec<Message<UniquePayload>> = Vec::new();
        let message = match input {
            Event::Message(message) => message,
            _ => { return output; },
        };
        let mut reply = message.reply_with_id(self.msg_id);
        match reply.body.payload {
            UniquePayload::Generate => {
                let g = guid(&self.node_id, self.msg_id);
                reply.body.payload = UniquePayload::GenerateOk { guid: g };
                reply.send(&mut output, &mut self.msg_id);
            },
            UniquePayload::GenerateOk { .. } => {},
        }
        output
    }
}

/// The number that a string of decimal digits denotes.
pub open spec fn decimal_value(s: Seq<char>) -> int
    decreases s.len(),
{
    if s.len() == 0 {
        0
    } else {
        decimal_value(s.drop_last()) * 10 + ((s.last() as int) - ('0' as int))
    }
}

/// The decimal notation reads back as the number: its characters are the
/// digits `0` to `9`, it starts with `0` only for zero, and it denotes `n`.
pub proof fn lemma_decimal_reads_back(n: nat)
    ensures
        decimal_value(decimal(n)) == n,
        forall|i: int| 0 <= i < decimal(n).len() ==> '0' <= #[trigger] decimal(n)[i] <= '9',
        decimal(n)[0] == '0' ==> n == 0,
    decreases n,
{
    if n >= 10 {
        lemma_decimal_reads_back(n / 10);
        let d = decimal(n);
        assert(d.drop_last() =~= decimal(n / 10));
        assert(d.last() == digit_char(n % 10));
        assert forall|i: int| 0 <= i < d.len() implies '0' <= #[trigger] d[i] <= '9' by {
            if i < d.len() - 1 {
                assert(d[i] == decimal(n / 10)[i]);
            }
        }
        assert(d[0] == decimal(n / 10)[0]);
        assert(decimal_value(d) == decimal_value(d.drop_last()) * 10 + ((d.last() as int) - ('0' as int)));
        assert((digit_char(n % 10) as int) - ('0' as int) == n % 10);
        assert(n == (n / 10) * 10 + n % 10);
    } else {
        assert(decimal(n) == seq![digit_char(n)]);
        assert(decimal(n).drop_last() =~= Seq::<char>::empty());
        assert(decimal(n).last() == digit_char(n));
        assert((digit_char(n) as int) - ('0' as int) == n);
        assert(decimal_value(decimal(n)) == decimal_value(decimal(n).drop_last()) * 10 + ((decimal(n).last() as int) - ('0' as int)));
    }
}

/// A decimal notation holds digits only, at least one.
pub proof fn lemma_decimal_digits(n: nat)
    ensures
        decimal(n).len() >= 1,
        n >= 10 ==> decimal(n).len() >= 2,
        forall|i: int| 0 <= i < decimal(n).len() ==> decimal(n)[i] != '-',
    decreases n,
{
    if n >= 10 {
        lemma_decimal_digits(n / 10);
        assert forall|i: int| 0 <= i < decimal(n).len() implies decimal(n)[i] != '-' by {
            if i < decimal(n).len() - 1 {
                assert(decimal(n)[i] == decimal(n / 10)[i]);
            }
        }
    }
}

/// Two numbers with the same decimal notation are equal.
pub proof fn lemma_decimal_injective(a: nat, b: nat)
    requires
        decimal(a) == decimal(b),
    ensures
        a == b,
    decreases a,
{
    lemma_decimal_digits(a);
    lemma_decimal_digits(b);
    if a >= 10 && b >= 10 {
        assert(decimal(a)[decimal(a).len() - 1] == digit_char(a % 10));
        assert(decimal(b)[decimal(b).len() - 1] == digit_char(b % 10));
        assert(decimal(a / 10) =~= decimal(a).drop_last());
        assert(decimal(b / 10) =~= decimal(b).drop_last());
        assert(digit_char(a % 10) == digit_char(b % 10));
        assert(a % 10 == b % 10);
        lemma_decimal_injective(a / 10, b / 10);
        assert(a == 10 * (a / 10) + a % 10);
        assert(b == 10 * (b / 10) + b % 10);
    } else if a < 10 && b < 10 {
        assert(decimal(a) == seq![digit_char(a)]);
        assert(decimal(b) == seq![digit_char(b)]);
        assert(seq![digit_char(a)][0] == digit_char(a));
        assert(seq![digit_char(b)][0] == digit_char(b));
        assert(digit_char(a) == digit_char(b));
    } else {
        assert(decimal(a).len() != decimal(b).len());
    }
}

/// Distinct (node, counter) pairs give distinct identifiers: the last dash of
/// an identifier separates the node's name from the counter.
pub proof fn lemma_guid_injective(n1: Seq<char>, a: nat, n2: Seq<char>, b: nat)
    requires
        guid_spec(n1, a) == guid_spec(n2, b),
    ensures
        n1 == n2,
        a == b,
{
    let s = guid_spec(n1, a);
    let d1 = decimal(a);
    let d2 = decimal(b);
    lemma_decimal_digits(a);
    lemma_decimal_digits(b);
    let len = s.len();
    if d1.len() < d2.len() {
        let p = len - d1.len() - 1;
        assert(s[p] == '-');
        assert(guid_spec(n2, b)[p] == d2[p - (len - d2.len())]);
    } else if d2.len() < d1.len() {
        let p = len - d2.len() - 1;
        assert(guid_spec(n2, b)[p] == '-');
        assert(s[p] == d1[p - (len - d1.len())]);
    }
    assert(d1.len() == d2.len());
    assert(n1 =~= s.subrange(0, n1.len() as int));
    assert(n2 =~= guid_spec(n2, b).subrange(0, n2.len() as int));
    assert(d1 =~= s.subrange(len - d1.len(), len as int));
    assert(d2 =~= guid_spec(n2, b).subrange(len - d2.len(), len as int));
    lemma_decimal_injective(a, b);
}

/// A node never hands out the same identifier twice: identifiers drawn at two
/// different counter values differ, whatever the names of the nodes.
pub proof fn lemma_guids_distinct(n1: Seq<char>, a: nat, n2: Seq<char>, b: nat)
    requires
        n1 != n2 || a != b,
    ensures
        guid_spec(n1, a) != guid_spec(n2, b),
{
    if guid_spec(n1, a) == guid_spec(n2, b) {
        lemma_guid_injective(n1, a, n2, b);
    }
}

/// Every message that the node sends carries a fresh id.
pub proof fn lemma_step_numbered(s: UniqueNode, t: UniqueNode, input: Event<UniquePayload>, output: Seq<Message<UniquePayload>>)
    requires
        s.stepped(t, input, output),
    ensures
        numbered(s.msg_id, t.msg_id, output),
{
}

/// The node takes every message while its counter has room: a `generate`
/// whenever the counter is below `usize::MAX`, a `generate_ok` always; and it
/// takes nothing but messages.
pub proof fn lemma_accepts_messages(n: UniqueNode, m: Message<UniquePayload>)
    ensures
        n.msg_id < usize::MAX ==> n.accepts(Event::Message(m)),
        m.body.payload is GenerateOk ==> n.accepts(Event::Message(m)),
        !n.accepts(Event::EOF),
{
}

/// A `generate` is answered to its sender with an identifier made of the
/// node's name, a dash and the node's counter in decimal, and the counter
/// moves on by one.
pub proof fn lemma_generate_answered(s: UniqueNode, t: UniqueNode, m: Message<UniquePayload>, output: Seq<Message<UniquePayload>>)
    requires
        m.body.payload is Generate,
        s.stepped(t, Event::Message(m), output),
    ensures
        output.len() == 1,
        output[0].dst == m.src,
        output[0].src == m.dst,
        output[0].body.in_reply_to == m.body.msg_id,
        output[0].body.msg_id == Some(s.msg_id),
        output[0].body.payload matches UniquePayload::GenerateOk { guid }
            && guid@ == s.node_id@ + seq!['-'] + decimal(s.msg_id as nat),
        t.msg_id == s.msg_id + 1,
        t.node_id == s.node_id,
{
}

/// A run of the node: `states[k]` steps to `states[k + 1]` on `inputs[k]`,
/// sending `outputs[k]`.
pub open spec fn is_run(
    states: Seq<UniqueNode>,
    inputs: Seq<Event<UniquePayload>>,
    outputs: Seq<Seq<Message<UniquePayload>>>,
) -> bool {
    &&& states.len() == inputs.len() + 1
    &&& outputs.len() == inputs.len()
    &&& forall|k: int| 0 <= k < inputs.len() ==> (#[trigger] states[k]).stepped(states[k + 1], inputs[k], outputs[k])
}

/// Along a run the name stays and the counter never goes back; it moves on
/// past every `generate`.
pub proof fn lemma_run_counter(
    states: Seq<UniqueNode>,
    inputs: Seq<Event<UniquePayload>>,
    outputs: Seq<Seq<Message<UniquePayload>>>,
    i: int,
    j: int,
)
    requires
        is_run(states, inputs, outputs),
        0 <= i <= j < states.len(),
    ensures
        states[j].node_id == states[i].node_id,
        states[i].msg_id <= states[j].msg_id,
        i < j && (inputs[i] matches Event::Message(m) && m.body.payload is Generate) ==> states[i].msg_id < states[j].msg_id,
    decreases j - i,
{
    if i < j {
        lemma_run_counter(states, inputs, outputs, i, j - 1);
        assert(states[j - 1].stepped(states[j], inputs[j - 1], outputs[j - 1]));
        assert(states[i].stepped(states[i + 1], inputs[i], outputs[i]));
        if i + 1 < j {
            lemma_run_counter(states, inputs, outputs, i + 1, j);
        }
    }
}

/// Along a run, no identifier is handed out twice.
pub proof fn lemma_run_guids_distinct(
    states: Seq<UniqueNode>,
    inputs: Seq<Event<UniquePayload>>,
    outputs: Seq<Seq<Message<UniquePayload>>>,
    i: int,
    j: int,
)
    requires
        is_run(states, inputs, outputs),
        0 <= i < j < inputs.len(),
        inputs[i] matches Event::Message(m) && m.body.payload is Generate,
        inputs[j] matches Event::Message(m) && m.body.payload is Generate,
    ensures
        outputs[i].len() == 1,
        outputs[j].len() == 1,
        outputs[i][0].body.payload matches UniquePayload::GenerateOk { guid: g1 }
            && outputs[j][0].body.payload matches UniquePayload::GenerateOk { guid: g2 }
            && g1@ != g2@,
{
    assert(states[i].stepped(states[i + 1], inputs[i], outputs[i]));
    assert(states[j].stepped(states[j + 1], inputs[j], outputs[j]));
    lemma_run_counter(states, inputs, outputs, i, j);
    lemma_guids_distinct(states[i].node_id@, states[i].msg_id as nat, states[j].node_id@, states[j].msg_id as nat);
}

/// Nodes with distinct names never hand out the same identifier, whatever
/// their runs: each identifier carries the name of the node that drew it.
pub proof fn lemma_runs_of_distinct_nodes_disjoint(
    states1: Seq<UniqueNode>,
    inputs1: Seq<Event<UniquePayload>>,
    outputs1: Seq<Seq<Message<UniquePayload>>>,
    states2: Seq<UniqueNode>,
    inputs2: Seq<Event<UniquePayload>>,
    outputs2: Seq<Seq<Message<UniquePayload>>>,
    i: int,
    j: int,
)
    requires
        is_run(states1, inputs1, outputs1),
        is_run(states2, inputs2, outputs2),
        states1[0].node_id@ != states2[0].node_id@,
        0 <= i < inputs1.len(),
        0 <= j < inputs2.len(),
        inputs1[i] matches Event::Message(m) && m.body.payload is Generate,
        inputs2[j] matches Event::Message(m) && m.body.payload is Generate,
    ensures
        outputs1[i].len() == 1,
        outputs2[j].len() == 1,
        outputs1[i][0].body.payload matches UniquePayload::GenerateOk { guid: g1 }
            && outputs2[j][0].body.payload matches UniquePayload::GenerateOk { guid: g2 }
            && g1@ != g2@,
{
    assert(states1[i].stepped(states1[i + 1], inputs1[i], outputs1[i]));
    assert(states2[j].stepped(states2[j + 1], inputs2[j], outputs2[j]));
    lemma_run_counter(states1, inputs1, outputs1, 0, i);
    lemma_run_counter(states2, inputs2, outputs2, 0, j);
    lemma_guids_distinct(states1[i].node_id@, states1[i].msg_id as nat, states2[j].node_id@, states2[j].msg_id as nat);
}

} // verus!
