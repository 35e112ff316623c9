use vstd::prelude::*;
use vstd::std_specs::iter::IteratorSpec;
use std::collections::{BTreeSet, HashMap};
use rand::rngs::{StdRng, SysRng};
use rand::seq::IndexedRandom;
use rand::SeedableRng;
use crate::message::{Body, Event, Init, Message, numbered};
use crate::node::{InitError, Node};

verus! {

broadcast use vstd::std_specs::btree::group_btree_axioms, vstd::laws_cmp::group_laws_cmp;

/// How many neighbours one round of gossip reaches at most.
pub const NUM_GOSSIP_RECEIVERS: usize = 2;

/// How many of `n` candidates a round of gossip reaches at most.
pub open spec fn gossip_fanout(n: nat) -> nat {
    if n < NUM_GOSSIP_RECEIVERS { n } else { NUM_GOSSIP_RECEIVERS as nat }
}

/// The payloads of the broadcast workload.
#[derive(Debug, Clone)]
pub enum BroadcastPayload {
    Broadcast { message: usize },
    BroadcastOk,
    Read,
    ReadOk { messages: BTreeSet<usize> },
    Topology { topology: HashMap<String, Vec<String>> },
    TopologyOk,
    Gossip { unseen_by_receiver: BTreeSet<usize> },
    GossipOk { received: BTreeSet<usize> },
}

/// The events that a broadcast node injects into its own input.
#[derive(Debug, Clone)]
pub enum InjectedPayload {
    Gossip,
}

/// A node that keeps every value broadcast to the network and spreads it to
/// the other nodes by gossip.
///
/// `known[i]` holds what the node knows the node named `node_ids[i]` to have
/// seen; where a name occurs twice, its first position counts.
pub struct BroadcastNode {
    pub node_id: String,
    pub node_ids: Vec<String>,
    pub msg_id: usize,
    pub messages: BTreeSet<usize>,
    pub known: Vec<BTreeSet<usize>>,
    pub topology: HashMap<String, Vec<String>>,
    pub neighborhood: Vec<String>,
}

/// `a` minus `b`.
fn difference(a: &BTreeSet<usize>, b: &BTreeSet<usize>) -> (r: BTreeSet<usize>)
    ensures
        r@ == a@.difference(b@),
{
    let mut r: BTreeSet<usize> = BTreeSet::new();
    let ghost keys: Seq<usize> = vstd::std_specs::btree::spec_btree_keys_iter(a).remaining().unref();
    for x in it: a.iter()
        invariant
            it.seq().unref() == keys,
            keys.to_set() == a@,
            r@ == keys.take(it.index()).to_set().difference(b@),
    {
        let ghost i = it.index();
        if !b.contains(x) {
            r.insert(*x);
        }
        assert(keys.take(i + 1) == keys.take(i).push(*x));
        proof { keys.take(i).lemma_push_to_set_commute(*x); }
    }
    assert(keys.take(keys.len() as int) == keys);
    r
}

/// Adds every element of `src` to `dst`.
fn extend(dst: &mut BTreeSet<usize>, src: &BTreeSet<usize>)
    ensures
        final(dst)@ == old(dst)@.union(src@),
{
    let ghost keys: Seq<usize> = vstd::std_specs::btree::spec_btree_keys_iter(src).remaining().unref();
    for x in it: src.iter()
        invariant
            it.seq().unref() == keys,
            keys.to_set() == src@,
            dst@ == old(dst)@.union(keys.take(it.index()).to_set()),
    {
        let ghost i = it.index();
        dst.insert(*x);
        assert(keys.take(i + 1) == keys.take(i).push(*x));
        proof { keys.take(i).lemma_push_to_set_commute(*x); }
    }
    assert(keys.take(keys.len() as int) == keys);
}

/// Names as character sequences.
pub open spec fn names(v: Seq<String>) -> Seq<Seq<char>> {
    v.map_values(|s: String| s@)
}

impl BroadcastNode {
    /// The names of all nodes of the network.
    pub open spec fn ids(self) -> Seq<Seq<char>> {
        names(self.node_ids@)
    }

    /// What the node knows `name` to have seen.
    pub open spec fn known_of(self, name: Seq<char>) -> Set<usize> {
        self.known@[self.ids().index_of_first(name).unwrap()]@
    }

    /// The knowledge about the other nodes, by name.
    pub open spec fn known_view(self) -> Map<Seq<char>, Set<usize>> {
        Map::new(|name: Seq<char>| self.ids().contains(name), |name: Seq<char>| self.known_of(name))
    }

    /// One entry of knowledge per name, and neighbours among the known names.
    pub open spec fn wf(self) -> bool {
        &&& self.known@.len() == self.node_ids@.len()
        &&& forall|k: int| 0 <= k < self.neighborhood@.len() ==> self.ids().contains(#[trigger] self.neighborhood@[k]@)
    }

    /// The other nodes of the network, as a `topology` message sets them.
    pub open spec fn neighbours_of(node_id: Seq<char>, node_ids: Seq<String>) -> Seq<String> {
        node_ids.filter(|n: String| n@ != node_id)
    }
}

/// The first position of `name` in `ids`.
proof fn lemma_first_position(ids: Seq<Seq<char>>, name: Seq<char>, i: int)
    requires
        0 <= i < ids.len(),
        ids[i] == name,
        forall|j: int| 0 <= j < i ==> ids[j] != name,
    ensures
        ids.index_of_first(name) == Some(i),
{
    ids.index_of_first_ensures(name);
    assert(ids.contains(name));
}

/// The first position of `name` among `v`.
fn position(v: &Vec<String>, name: &String) -> (r: Option<usize>)
    ensures
        r is Some <==> names(v@).contains(name@),
        match r {
            Some(i) => names(v@).index_of_first(name@) == Some(i as int),
            None => !names(v@).contains(name@),
        },
{
    let mut i: usize = 0;
    while i < v.len()
        invariant
            i <= v.len(),
            forall|j: int| 0 <= j < i ==> names(v@)[j] != name@,
        decreases v.len() - i,
    {
        if v[i] == *name {
            proof {
                lemma_first_position(names(v@), name@, i as int);
                assert(names(v@)[i as int] == name@);
            }
            return Some(i);
        }
        i = i + 1;
    }
    proof {
        if names(v@).contains(name@) {
            let k = choose|k: int| 0 <= k < names(v@).len() && names(v@)[k] == name@;
            assert(names(v@)[k] != name@);
        }
    }
    None
}

impl BroadcastNode {
    /// Records that the node named `name` has seen every value of `seen`.
    fn learn(&mut self, name: &String, seen: &BTreeSet<usize>)
        requires
            old(self).wf(),
            old(self).ids().contains(name@),
        ensures
            final(self).wf(),
            final(self).known_view() == old(self).known_view().insert(name@, old(self).known_of(name@).union(seen@)),
            final(self).node_id == old(self).node_id,
            final(self).node_ids == old(self).node_ids,
            final(self).msg_id == old(self).msg_id,
            final(self).messages == old(self).messages,
            final(self).topology == old(self).topology,
            final(self).neighborhood == old(self).neighborhood,
    {
        let i = match position(&self.node_ids, name) {
            Some(i) => i,
            None => { return; },
        };
        proof { self.ids().index_of_first_ensures(name@); }
        let mut entry = self.known[i].clone();
        extend(&mut entry, seen);
        self.known.set(i, entry);
        let ghost ids = self.ids();
        assert(ids == old(self).ids());
        assert forall|k: Seq<char>| ids.contains(k) implies
            #[trigger] self.known_of(k) == (if k == name@ { old(self).known_of(name@).union(seen@) } else { old(self).known_of(k) })
        by {
            ids.index_of_first_ensures(k);
        }
        assert(self.known_view() =~= old(self).known_view().insert(name@, old(self).known_of(name@).union(seen@)));
    }
}

/// The names of `node_ids` other than `node_id`, in order.
fn others(node_ids: &Vec<String>, node_id: &String) -> (r: Vec<String>)
    ensures
        r@ == BroadcastNode::neighbours_of(node_id@, node_ids@),
        forall|k: int| 0 <= k < r@.len() ==> names(node_ids@).contains(#[trigger] r@[k]@),
{
    let mut r: Vec<String> = Vec::new();
    let mut i: usize = 0;
    while i < node_ids.len()
        invariant
            i <= node_ids.len(),
            r@ == BroadcastNode::neighbours_of(node_id@, node_ids@.take(i as int)),
            forall|k: int| 0 <= k < r@.len() ==> names(node_ids@).contains(#[trigger] r@[k]@),
        decreases node_ids.len() - i,
    {
        proof {
            reveal(Seq::filter);
            assert(node_ids@.take(i + 1).drop_last() == node_ids@.take(i as int));
            assert(names(node_ids@)[i as int] == node_ids@[i as int]@);
        }
        if node_ids[i] != *node_id {
            r.push(node_ids[i].clone());
        }
        i = i + 1;
    }
    assert(node_ids@.take(node_ids@.len() as int) == node_ids@);
    r
}

impl BroadcastNode {
    /// The values that `name` is not known to have seen.
    pub open spec fn unseen_by(self, name: Seq<char>) -> Set<usize> {
        self.messages@.difference(self.known_of(name))
    }

    /// Everything but the id counter is as in `self`.
    pub open spec fn same_but_counter(self, next: Self) -> bool {
        &&& next.node_id == self.node_id
        &&& next.node_ids == self.node_ids
        &&& next.messages == self.messages
        &&& next.known == self.known
        &&& next.topology == self.topology
        &&& next.neighborhood == self.neighborhood
    }

    /// The answer of the node in state `self`, which is `next` afterwards, to
    /// message `m`, where `output` is what it sends.
    pub open spec fn answered(self, next: Self, m: Message<BroadcastPayload>, output: Seq<Message<BroadcastPayload>>) -> bool {
        let reply = m.reply_spec(Some(self.msg_id));
        &&& next.node_id == self.node_id
        &&& next.node_ids == self.node_ids
        &&& match m.body.payload {
            BroadcastPayload::Gossip { unseen_by_receiver } => {
                &&& next.messages@ == self.messages@.union(unseen_by_receiver@)
                &&& next.known_view() == self.known_view().insert(m.src@, self.known_of(m.src@).union(unseen_by_receiver@))
                &&& next.topology == self.topology
                &&& next.neighborhood == self.neighborhood
                &&& next.msg_id == self.msg_id + 1
                &&& output == seq![reply.with_payload(BroadcastPayload::GossipOk { received: unseen_by_receiver })]
            },
            BroadcastPayload::GossipOk { received } => {
                &&& next.messages == self.messages
                &&& next.known_view() == self.known_view().insert(m.src@, self.known_of(m.src@).union(received@))
                &&& next.topology == self.topology
                &&& next.neighborhood == self.neighborhood
                &&& next.msg_id == self.msg_id
                &&& output == Seq::<Message<BroadcastPayload>>::empty()
            },
            BroadcastPayload::Broadcast { message } => {
                &&& next.messages@ == self.messages@.insert(message)
                &&& next.known == self.known
                &&& next.topology == self.topology
                &&& next.neighborhood == self.neighborhood
                &&& next.msg_id == self.msg_id + 1
                &&& output == seq![reply.with_payload(BroadcastPayload::BroadcastOk)]
            },
            BroadcastPayload::Read => {
                &&& self.same_but_counter(next)
                &&& next.msg_id == self.msg_id + 1
                &&& output.len() == 1
                &&& output[0] == reply.with_payload(output[0].body.payload)
                &&& output[0].body.payload matches BroadcastPayload::ReadOk { messages } && messages@ == self.messages@
            },
            BroadcastPayload::Topology { topology } => {
                &&& next.messages == self.messages
                &&& next.known == self.known
                &&& next.topology == topology
                &&& next.neighborhood@ == Self::neighbours_of(self.node_id@, self.node_ids@)
                &&& next.msg_id == self.msg_id + 1
                &&& output == seq![reply.with_payload(BroadcastPayload::TopologyOk)]
            },
            _ => {
                &&& next == self
                &&& output == Seq::<Message<BroadcastPayload>>::empty()
            },
        }
    }

    /// Whether the node takes message `m`: gossip must come from a known node,
    /// and the counter must leave room for an answer.
    pub open spec fn takes_message(self, m: Message<BroadcastPayload>) -> bool {
        match m.body.payload {
            BroadcastPayload::Gossip { .. } => self.ids().contains(m.src@) && self.msg_id < usize::MAX,
            BroadcastPayload::GossipOk { .. } => self.ids().contains(m.src@),
            BroadcastPayload::Broadcast { .. } | BroadcastPayload::Read | BroadcastPayload::Topology { .. } =>
                self.msg_id < usize::MAX,
            _ => true,
        }
    }

    /// Handles a message from the network.
    fn on_message(&mut self, message: Message<BroadcastPayload>) -> (output: Vec<Message<BroadcastPayload>>)
        requires
            old(self).wf(),
            old(self).takes_message(message),
        ensures
            final(self).wf(),
            old(self).answered(*final(self), message, output@),
    {
        let ghost m = message;
        let mut output: Vec<Message<BroadcastPayload>> = Vec::new();
        let mut reply = message.reply_with_id(self.msg_id);
        match reply.body.payload {
            BroadcastPayload::Gossip { unseen_by_receiver } => {
                self.learn(&reply.dst, &unseen_by_receiver);
                let ghost learned = *self;
                extend(&mut self.messages, &unseen_by_receiver);
                assert(self.known_view() =~= learned.known_view());
                reply.body.payload = BroadcastPayload::GossipOk { received: unseen_by_receiver };
                reply.send(&mut output, &mut self.msg_id);
                assert(m.body.payload == BroadcastPayload::Gossip { unseen_by_receiver });
                assert(self.known_view() == old(self).known_view().insert(m.src@, old(self).known_of(m.src@).union(unseen_by_receiver@)));
                assert(output@ == seq![m.reply_spec(Some(old(self).msg_id)).with_payload(BroadcastPayload::GossipOk { received: unseen_by_receiver })]);
            },
            BroadcastPayload::GossipOk { received } => {
                self.learn(&reply.dst, &received);
            },
            BroadcastPayload::Broadcast { message } => {
                self.messages.insert(message);
                reply.body.payload = BroadcastPayload::BroadcastOk;
                reply.send(&mut output, &mut self.msg_id);
            },
            BroadcastPayload::Read => {
                reply.body.payload = BroadcastPayload::ReadOk { messages: self.messages.clone() };
                reply.send(&mut output, &mut self.msg_id);
            },
            BroadcastPayload::Topology { topology } => {
                self.topology = topology;
                self.neighborhood = others(&self.node_ids, &self.node_id);
                reply.body.payload = BroadcastPayload::TopologyOk;
                reply.send(&mut output, &mut self.msg_id);
            },
            BroadcastPayload::BroadcastOk | BroadcastPayload::ReadOk { .. } | BroadcastPayload::TopologyOk => {},
        }
        output
    }
}

/// The positions of `s` whose entry satisfies `p`.
pub open spec fn hits<A>(s: Seq<A>, p: spec_fn(A) -> bool) -> Set<int> {
    Set::new(|j: int| 0 <= j < s.len() && p(s[j]))
}

/// A filter keeps as many entries as there are positions that satisfy the
/// predicate.
proof fn lemma_filter_counts_hits<A>(s: Seq<A>, p: spec_fn(A) -> bool)
    ensures
        hits(s, p).finite(),
        s.filter(p).len() == hits(s, p).len(),
        hits(s, p).len() <= s.len(),
    decreases s.len(),
{
    vstd::set_lib::lemma_int_range(0, s.len() as int);
    assert(hits(s, p).subset_of(vstd::set_lib::set_int_range(0, s.len() as int)));
    vstd::set_lib::lemma_len_subset(hits(s, p), vstd::set_lib::set_int_range(0, s.len() as int));
    reveal(Seq::filter);
    if s.len() > 0 {
        let rest = s.drop_last();
        lemma_filter_counts_hits(rest, p);
        if p(s.last()) {
            assert(hits(s, p) =~= hits(rest, p).insert(s.len() - 1));
        } else {
            assert(hits(s, p) =~= hits(rest, p));
        }
    } else {
        assert(hits(s, p) =~= Set::<int>::empty());
    }
}

/// Filtering a prefix keeps no more than filtering the whole.
proof fn lemma_filter_prefix<A>(s: Seq<A>, p: spec_fn(A) -> bool, j: int)
    requires
        0 <= j <= s.len(),
    ensures
        s.take(j).filter(p).len() <= s.filter(p).len(),
{
    lemma_filter_counts_hits(s.take(j), p);
    lemma_filter_counts_hits(s, p);
    assert(hits(s.take(j), p).subset_of(hits(s, p)));
    vstd::set_lib::lemma_len_subset(hits(s.take(j), p), hits(s, p));
}

/// Every entry is kept by a predicate or by its negation.
proof fn lemma_filter_partition<A>(s: Seq<A>, p: spec_fn(A) -> bool, q: spec_fn(A) -> bool)
    requires
        forall|x: A| #[trigger] q(x) == !p(x),
    ensures
        s.filter(p).len() + s.filter(q).len() == s.len(),
    decreases s.len(),
{
    reveal(Seq::filter);
    if s.len() > 0 {
        lemma_filter_partition(s.drop_last(), p, q);
    }
}

/// Entries drawn at distinct positions of `from` satisfy `p` no more often
/// than the entries of `from` do.
proof fn lemma_filter_of_draw<A>(from: Seq<A>, chosen: Seq<A>, pos: Seq<int>, p: spec_fn(A) -> bool)
    requires
        pos.len() == chosen.len(),
        pos.no_duplicates(),
        forall|k: int| 0 <= k < pos.len() ==> 0 <= #[trigger] pos[k] < from.len() && chosen[k] == from[pos[k]],
    ensures
        chosen.filter(p).len() <= from.filter(p).len(),
{
    lemma_filter_counts_hits(chosen, p);
    lemma_filter_counts_hits(from, p);
    let f = |k: int| pos[k];
    let image = hits(chosen, p).map(f);
    assert(vstd::relations::injective_on(f, hits(chosen, p)));
    vstd::set_lib::lemma_map_size(hits(chosen, p), image, f);
    assert(image.subset_of(hits(from, p)));
    vstd::set_lib::lemma_len_subset(image, hits(from, p));
}

/// Whether `chosen` is a draw of `min(amount, from.len())` entries of `from`
/// at distinct positions, in any order.
pub open spec fn sampled(from: Seq<String>, amount: nat, chosen: Seq<String>) -> bool {
    &&& chosen.len() == (if amount < from.len() { amount } else { from.len() })
    &&& exists|pos: Seq<int>| {
        &&& pos.len() == chosen.len()
        &&& pos.no_duplicates()
        &&& forall|k: int| 0 <= k < pos.len() ==> 0 <= #[trigger] pos[k] < from.len() && chosen[k] == from[pos[k]]
    }
}

/// rand's standard generator, carried from where it is seeded to where it
/// draws.
#[verifier::external_type_specification]
#[verifier::external_body]
pub struct ExStdRng(StdRng);

/// Seeds rand's `StdRng` from the operating system with
/// `SeedableRng::try_from_rng(&mut SysRng)`; `None` where the system's source
/// of randomness fails. Nothing is stated of the generator.
#[verifier::external_body]
fn seeded_rng() -> Option<StdRng> {
    StdRng::try_from_rng(&mut SysRng).ok()
}

/// The first `min(amount, len)` entries of `neighborhood`: the draw taken
/// where no generator could be seeded.
fn first_receivers(neighborhood: &Vec<String>, amount: usize) -> (chosen: Vec<String>)
    ensures
        sampled(neighborhood@, amount as nat, chosen@),
{
    let n = if amount < neighborhood.len() { amount } else { neighborhood.len() };
    let mut chosen: Vec<String> = Vec::new();
    let mut k: usize = 0;
    while k < n
        invariant
            n <= neighborhood@.len(),
            k <= n,
            chosen@ == neighborhood@.take(k as int),
        decreases n - k,
    {
        chosen.push(neighborhood[k].clone());
        k = k + 1;
        assert(chosen@ =~= neighborhood@.take(k as int));
    }
    let ghost pos = Seq::new(n as nat, |k: int| k);
    assert(pos.no_duplicates());
    assert(forall|k: int| 0 <= k < pos.len() ==> 0 <= #[trigger] pos[k] < neighborhood@.len() && chosen@[k] == neighborhood@[pos[k]]);
    chosen
}

/// Draws the receivers of a round of gossip with rand's
/// `IndexedRandom::sample`, cloning the names drawn. rand documents the draw
/// as `min(amount, len)` elements taken at distinct positions, in random
/// order; the contract states that, and nothing of which positions are drawn.
#[verifier::external_body]
fn sample_receivers(neighborhood: &Vec<String>, rng: &mut StdRng, amount: usize) -> (chosen: Vec<String>)
    ensures
        sampled(neighborhood@, amount as nat, chosen@),
{
    neighborhood.sample(rng, amount).cloned().collect()
}

impl BroadcastNode {
    /// The receivers among `receivers` that have something to learn, in order.
    pub open spec fn gossip_targets(self, receivers: Seq<String>) -> Seq<String> {
        receivers.filter(self.has_news())
    }

    /// Whether a receiver has something to learn from the node.
    pub open spec fn has_news(self) -> spec_fn(String) -> bool {
        |r: String| !self.unseen_by(r@).is_empty()
    }

    /// How many entries of the neighbourhood have something to learn: a round
    /// of gossip sends at most `gossip_fanout` of this many messages.
    pub open spec fn eager_count(self) -> nat {
        self.gossip_targets(self.neighborhood@).len()
    }

    /// `output` is the gossip of the node in state `self` to `targets`: one
    /// message each, numbered from the node's counter on, carrying what the
    /// target is not known to have seen.
    pub open spec fn gossip_sent(self, targets: Seq<String>, output: Seq<Message<BroadcastPayload>>) -> bool {
        &&& output.len() == targets.len()
        &&& forall|k: int| 0 <= k < output.len() ==> {
            &&& (#[trigger] output[k]).src == self.node_id
            &&& output[k].dst == targets[k]
            &&& output[k].body.msg_id == Some((self.msg_id + k) as usize)
            &&& output[k].body.in_reply_to is None
            &&& output[k].body.payload matches BroadcastPayload::Gossip { unseen_by_receiver }
                && unseen_by_receiver@ == self.unseen_by(targets[k]@)
        }
    }

    /// A round of gossip from state `self` to `receivers`, ending in `next`
    /// and sending `output`.
    pub open spec fn gossiped(self, next: Self, output: Seq<Message<BroadcastPayload>>, receivers: Seq<String>) -> bool {
        let targets = self.gossip_targets(receivers);
        &&& self.same_but_counter(next)
        &&& next.msg_id == self.msg_id + targets.len()
        &&& self.gossip_sent(targets, output)
    }

    /// Gossips to each of `receivers` the values it is not known to have seen,
    /// skipping those that have seen everything.
    fn gossip_to(&mut self, receivers: &Vec<String>) -> (output: Vec<Message<BroadcastPayload>>)
        requires
            old(self).wf(),
            forall|k: int| 0 <= k < receivers@.len() ==> old(self).ids().contains(#[trigger] receivers@[k]@),
            old(self).msg_id + old(self).gossip_targets(receivers@).len() <= usize::MAX,
        ensures
            final(self).wf(),
            old(self).gossiped(*final(self), output@, receivers@),
    {
        let ghost start = *self;
        let mut output: Vec<Message<BroadcastPayload>> = Vec::new();
        let mut j: usize = 0;
        while j < receivers.len()
            invariant
                j <= receivers@.len(),
                start.wf(),
                start == *old(self),
                forall|k: int| 0 <= k < receivers@.len() ==> start.ids().contains(#[trigger] receivers@[k]@),
                start.msg_id + start.gossip_targets(receivers@).len() <= usize::MAX,
                start.same_but_counter(*self),
                self.msg_id == start.msg_id + output@.len(),
                start.gossip_sent(start.gossip_targets(receivers@.take(j as int)), output@),
                output@.len() <= j,
            decreases receivers@.len() - j,
        {
            let n = &receivers[j];
            proof {
                reveal(Seq::filter);
                assert(receivers@.take(j + 1).drop_last() == receivers@.take(j as int));
                assert(start.ids().contains(receivers@[j as int]@));
                lemma_filter_prefix(receivers@, start.has_news(), j + 1);
            }
            let i = match position(&self.node_ids, n) {
                Some(i) => i,
                None => { return output; },
            };
            proof { start.ids().index_of_first_ensures(n@); }
            let unseen_by_receiver = difference(&self.messages, &self.known[i]);
            assert(unseen_by_receiver@ == start.unseen_by(n@));
            if !unseen_by_receiver.is_empty() {
                let ghost before = output@;
                let msg = Message {
                    src: self.node_id.clone(),
                    dst: n.clone(),
                    body: Body {
                        msg_id: Some(self.msg_id),
                        in_reply_to: None,
                        payload: BroadcastPayload::Gossip { unseen_by_receiver },
                    },
                };
                msg.send(&mut output, &mut self.msg_id);
                proof {
                    let targets = start.gossip_targets(receivers@.take(j + 1));
                    assert(targets == start.gossip_targets(receivers@.take(j as int)).push(receivers@[j as int]));
                    assert forall|k: int| 0 <= k < output@.len() implies {
                        &&& (#[trigger] output@[k]).src == start.node_id
                        &&& output@[k].dst == targets[k]
                        &&& output@[k].body.msg_id == Some((start.msg_id + k) as usize)
                        &&& output@[k].body.in_reply_to is None
                        &&& output@[k].body.payload matches BroadcastPayload::Gossip { unseen_by_receiver }
                            && unseen_by_receiver@ == start.unseen_by(targets[k]@)
                    } by {
                        if k < before.len() {
                            assert(output@[k] == before[k]);
                        }
                    }
                }
            } else {
                assert(start.gossip_targets(receivers@.take(j + 1)) == start.gossip_targets(receivers@.take(j as int)));
            }
            j = j + 1;
        }
        assert(receivers@.take(receivers@.len() as int) == receivers@);
        output
    }
}

impl BroadcastNode {
    /// Checks `wf`.
    pub fn is_wf(&self) -> (ok: bool)
        ensures
            ok == self.wf(),
    {
        if self.known.len() != self.node_ids.len() {
            return false;
        }
        let mut k: usize = 0;
        while k < self.neighborhood.len()
            invariant
                k <= self.neighborhood@.len(),
                forall|l: int| 0 <= l < k ==> self.ids().contains(#[trigger] self.neighborhood@[l]@),
            decreases self.neighborhood@.len() - k,
        {
            if position(&self.node_ids, &self.neighborhood[k]).is_none() {
                return false;
            }
            k = k + 1;
        }
        true
    }

    /// One step of the node from `self` to `next` on `input`, sending
    /// `output`: a message is answered (see `answered`); a tick of gossip
    /// reaches a draw of at most `NUM_GOSSIP_RECEIVERS` neighbours: a random
    /// one, or the first neighbours where no generator could be seeded.
    pub open spec fn stepped(self, next: Self, input: Event<BroadcastPayload, InjectedPayload>, output: Seq<Message<BroadcastPayload>>) -> bool {
        match input {
            Event::Message(m) => self.answered(next, m, output),
            Event::Injected(InjectedPayload::Gossip) => exists|receivers: Seq<String>| {
                &&& sampled(self.neighborhood@, NUM_GOSSIP_RECEIVERS as nat, receivers)
                &&& self.gossiped(next, output, receivers)
            },
            Event::EOF => next == self && output == Seq::<Message<BroadcastPayload>>::empty(),
        }
    }

    /// Counts the entries of the neighbourhood that have something to learn.
    fn count_eager(&self) -> (n: usize)
        requires
            self.wf(),
        ensures
            n == self.eager_count(),
    {
        let mut n: usize = 0;
        let mut k: usize = 0;
        while k < self.neighborhood.len()
            invariant
                self.wf(),
                k <= self.neighborhood@.len(),
                n == self.gossip_targets(self.neighborhood@.take(k as int)).len(),
                n <= k,
            decreases self.neighborhood@.len() - k,
        {
            proof {
                reveal(Seq::filter);
                assert(self.neighborhood@.take(k + 1).drop_last() == self.neighborhood@.take(k as int));
                assert(self.ids().contains(self.neighborhood@[k as int]@));
            }
            let i = match position(&self.node_ids, &self.neighborhood[k]) {
                Some(i) => i,
                None => { return n; },
            };
            proof { self.ids().index_of_first_ensures(self.neighborhood@[k as int]@); }
            let unseen = difference(&self.messages, &self.known[i]);
            if !unseen.is_empty() {
                n = n + 1;
            }
            k = k + 1;
        }
        assert(self.neighborhood@.take(self.neighborhood@.len() as int) == self.neighborhood@);
        n
    }

    /// The knowledge of a fresh node: nothing about anyone.
    pub open spec fn knows_nothing(self) -> bool {
        self.known_view() == Map::new(|name: Seq<char>| self.ids().contains(name), |name: Seq<char>| Set::<usize>::empty())
    }
}

impl Node<(), BroadcastPayload, InjectedPayload> for BroadcastNode {
    open spec fn accepts(&self, input: Event<BroadcastPayload, InjectedPayload>) -> bool {
        &&& self.wf()
        &&& match input {
            Event::Message(m) => self.takes_message(m),
            Event::Injected(InjectedPayload::Gossip) => self.msg_id + gossip_fanout(self.eager_count()) <= usize::MAX,
            Event::EOF => true,
        }
    }

    fn from_init(state: (), init: Init) -> (node: Result<Self, InitError>)
        ensures
            node matches Ok(n) && {
                &&& n.wf()
                &&& n.node_id == init.node_id
                &&& n.node_ids == init.node_ids
                &&& n.msg_id == 1
                &&& n.messages@ == Set::<usize>::empty()
                &&& n.knows_nothing()
                &&& n.topology@ == Map::<String, Vec<String>>::empty()
                &&& n.neighborhood@ == Seq::<String>::empty()
            },
    {
        let mut known: Vec<BTreeSet<usize>> = Vec::new();
        let mut i: usize = 0;
        while i < init.node_ids.len()
            invariant
                i <= init.node_ids@.len(),
                known@.len() == i,
                forall|k: int| 0 <= k < i ==> (#[trigger] known@[k])@ == Set::<usize>::empty(),
            decreases init.node_ids@.len() - i,
        {
            known.push(BTreeSet::new());
            i = i + 1;
        }
        let node = BroadcastNode {
            node_id: init.node_id,
            node_ids: init.node_ids,
            msg_id: 1,
            messages: BTreeSet::new(),
            known,
            topology: HashMap::new(),
            neighborhood: Vec::new(),
        };
        assert forall|name: Seq<char>| node.ids().contains(name) implies #[trigger] node.known_of(name) == Set::<usize>::empty() by {
            node.ids().index_of_first_ensures(name);
        }
        assert(node.known_view() =~= Map::new(|name: Seq<char>| node.ids().contains(name), |name: Seq<char>| Set::<usize>::empty()));
        Ok(node)
    }

    fn can_step(&self, input: &Event<BroadcastPayload, InjectedPayload>) -> (ok: bool) {
        if !self.is_wf() {
            return false;
        }
        match input {
            Event::Message(m) => match &m.body.payload {
                BroadcastPayload::Gossip { .. } => position(&self.node_ids, &m.src).is_some() && self.msg_id < usize::MAX,
                BroadcastPayload::GossipOk { .. } => position(&self.node_ids, &m.src).is_some(),
                BroadcastPayload::Broadcast { .. } | BroadcastPayload::Read | BroadcastPayload::Topology { .. } =>
                    self.msg_id < usize::MAX,
                _ => true,
            },
            Event::Injected(InjectedPayload::Gossip) => {
                let eager = self.count_eager();
                let fanout = if eager < NUM_GOSSIP_RECEIVERS { eager } else { NUM_GOSSIP_RECEIVERS };
                self.msg_id <= usize::MAX - fanout
            },
            Event::EOF => true,
        }
    }

    /// On a tick of gossip, picks up to `NUM_GOSSIP_RECEIVERS` neighbours at
    /// random (the first ones where no generator can be seeded) and tells each
    /// what it is not known to have seen; on a message, answers it (see
    /// `answered`).
    fn step(&mut self, input: Event<BroadcastPayload, InjectedPayload>) -> (output: Vec<Message<BroadcastPayload>>)
        ensures
            final(self).wf(),
            old(self).stepped(*final(self), input, output@),
    {
        match input {
            Event::Message(m) => self.on_message(m),
            Event::Injected(InjectedPayload::Gossip) => {
                let receivers = match seeded_rng() {
                    Some(mut rng) => sample_receivers(&self.neighborhood, &mut rng, NUM_GOSSIP_RECEIVERS),
                    None => first_receivers(&self.neighborhood, NUM_GOSSIP_RECEIVERS),
                };
                proof {
                    let pos = choose|pos: Seq<int>| {
                        &&& pos.len() == receivers@.len()
                        &&& pos.no_duplicates()
                        &&& forall|k: int| 0 <= k < pos.len() ==> 0 <= #[trigger] pos[k] < self.neighborhood@.len()
                            && receivers@[k] == self.neighborhood@[pos[k]]
                    };
                    assert forall|k: int| 0 <= k < receivers@.len() implies self.ids().contains(#[trigger] receivers@[k]@) by {
                        assert(self.ids().contains(self.neighborhood@[pos[k]]@));
                    }
                    lemma_filter_of_draw(self.neighborhood@, receivers@, pos, self.has_news());
                    lemma_filter_counts_hits(receivers@, self.has_news());
                }
                self.gossip_to(&receivers)
            },
            Event::EOF => Vec::new(),
        }
    }
}

/// No step forgets: the values kept never shrink, what the node knows of each
/// peer never shrinks, and the names of the peers stay.
pub proof fn lemma_step_monotone(
    s: BroadcastNode,
    t: BroadcastNode,
    input: Event<BroadcastPayload, InjectedPayload>,
    output: Seq<Message<BroadcastPayload>>,
)
    requires
        s.stepped(t, input, output),
    ensures
        t.ids() == s.ids(),
        s.messages@.subset_of(t.messages@),
        forall|name: Seq<char>| s.ids().contains(name) ==> (#[trigger] s.known_of(name)).subset_of(t.known_of(name)),
{
    match input {
        Event::Message(m) => {
            match m.body.payload {
                BroadcastPayload::Gossip { unseen_by_receiver } => {
                    assert forall|name: Seq<char>| s.ids().contains(name) implies
                        (#[trigger] s.known_of(name)).subset_of(t.known_of(name)) by {
                        assert(t.known_view()[name] == t.known_of(name));
                        assert(s.known_view()[name] == s.known_of(name));
                    }
                },
                BroadcastPayload::GossipOk { received } => {
                    assert forall|name: Seq<char>| s.ids().contains(name) implies
                        (#[trigger] s.known_of(name)).subset_of(t.known_of(name)) by {
                        assert(t.known_view()[name] == t.known_of(name));
                        assert(s.known_view()[name] == s.known_of(name));
                    }
                },
                _ => {},
            }
        },
        _ => {},
    }
}

/// Every message that the node sends carries a fresh id.
pub proof fn lemma_step_numbered(
    s: BroadcastNode,
    t: BroadcastNode,
    input: Event<BroadcastPayload, InjectedPayload>,
    output: Seq<Message<BroadcastPayload>>,
)
    requires
        s.stepped(t, input, output),
    ensures
        numbered(s.msg_id, t.msg_id, output),
{
    if input is Injected {
        let receivers = choose|receivers: Seq<String>| {
            &&& sampled(s.neighborhood@, NUM_GOSSIP_RECEIVERS as nat, receivers)
            &&& s.gossiped(t, output, receivers)
        };
        assert(s.gossip_sent(s.gossip_targets(receivers), output));
    }
}

/// A gossip tick reaches its draw: every neighbour it writes to is a
/// neighbour that lacks some value, and gets exactly the values it is not
/// known to have seen; and it writes to at least `min(2, n)` neighbours less
/// those of the `n` that already have everything.
pub proof fn lemma_gossip_reaches(
    s: BroadcastNode,
    t: BroadcastNode,
    output: Seq<Message<BroadcastPayload>>,
)
    requires
        s.wf(),
        s.stepped(t, Event::Injected(InjectedPayload::Gossip), output),
    ensures
        output.len() + s.neighborhood@.filter(|n: String| s.messages@.subset_of(s.known_of(n@))).len()
            >= (if s.neighborhood@.len() < 2 { s.neighborhood@.len() } else { 2 }),
        forall|k: int| 0 <= k < output.len() ==> {
            &&& s.neighborhood@.contains((#[trigger] output[k]).dst)
            &&& output[k].src == s.node_id
            &&& output[k].body.payload matches BroadcastPayload::Gossip { unseen_by_receiver }
                && unseen_by_receiver@ == s.messages@.difference(s.known_of(output[k].dst@))
                && !unseen_by_receiver@.is_empty()
        },
{
    let receivers = choose|receivers: Seq<String>| {
        &&& sampled(s.neighborhood@, NUM_GOSSIP_RECEIVERS as nat, receivers)
        &&& s.gossiped(t, output, receivers)
    };
    let pos = choose|pos: Seq<int>| {
        &&& pos.len() == receivers.len()
        &&& pos.no_duplicates()
        &&& forall|k: int| 0 <= k < pos.len() ==> 0 <= #[trigger] pos[k] < s.neighborhood@.len()
            && receivers[k] == s.neighborhood@[pos[k]]
    };
    let news = s.has_news();
    let quiet = |n: String| s.messages@.subset_of(s.known_of(n@));
    assert forall|x: String| #[trigger] quiet(x) == !news(x) by {
        if !news(x) {
            assert(s.messages@.difference(s.known_of(x@)) =~= Set::<usize>::empty());
            assert forall|v: usize| s.messages@.contains(v) implies s.known_of(x@).contains(v) by {
                assert(!s.messages@.difference(s.known_of(x@)).contains(v));
            }
        }
        if quiet(x) {
            assert(s.messages@.difference(s.known_of(x@)) =~= Set::<usize>::empty());
        }
    }
    lemma_filter_partition(receivers, news, quiet);
    lemma_filter_of_draw(s.neighborhood@, receivers, pos, quiet);
    let targets = s.gossip_targets(receivers);
    assert(s.gossip_sent(targets, output));
    assert forall|k: int| 0 <= k < output.len() implies {
        &&& s.neighborhood@.contains((#[trigger] output[k]).dst)
        &&& output[k].src == s.node_id
        &&& output[k].body.payload matches BroadcastPayload::Gossip { unseen_by_receiver }
            && unseen_by_receiver@ == s.messages@.difference(s.known_of(output[k].dst@))
            && !unseen_by_receiver@.is_empty()
    } by {
        receivers.lemma_filter_pred(news, k);
        assert(targets.contains(targets[k]));
        receivers.lemma_filter_contains_rev(news, targets[k]);
        let j = choose|j: int| 0 <= j < receivers.len() && receivers[j] == targets[k];
        assert(s.neighborhood@[pos[j]] == targets[k]);
    }
}

/// After a `topology` message the neighbourhood is every other node: a name
/// of the network is a neighbour exactly when it is not the node's own, and
/// every neighbour is such a name.
pub proof fn lemma_topology_sets_all_others(
    s: BroadcastNode,
    t: BroadcastNode,
    m: Message<BroadcastPayload>,
    output: Seq<Message<BroadcastPayload>>,
)
    requires
        m.body.payload is Topology,
        s.answered(t, m, output),
    ensures
        forall|j: int| 0 <= j < s.node_ids@.len() ==>
            (names(t.neighborhood@).contains(#[trigger] s.node_ids@[j]@) <==> s.node_ids@[j]@ != s.node_id@),
        forall|k: int| 0 <= k < t.neighborhood@.len() ==>
            (#[trigger] t.neighborhood@[k])@ != s.node_id@ && names(s.node_ids@).contains(t.neighborhood@[k]@),
{
    let p = |n: String| n@ != s.node_id@;
    let nb = t.neighborhood@;
    assert(nb == s.node_ids@.filter(p));
    assert forall|k: int| 0 <= k < nb.len() implies
        (#[trigger] nb[k])@ != s.node_id@ && names(s.node_ids@).contains(nb[k]@) by {
        s.node_ids@.lemma_filter_pred(p, k);
        assert(nb.contains(nb[k]));
        s.node_ids@.lemma_filter_contains_rev(p, nb[k]);
        let j = choose|j: int| 0 <= j < s.node_ids@.len() && s.node_ids@[j] == nb[k];
        assert(names(s.node_ids@)[j] == nb[k]@);
    }
    assert forall|j: int| 0 <= j < s.node_ids@.len() implies
        (names(nb).contains(#[trigger] s.node_ids@[j]@) <==> s.node_ids@[j]@ != s.node_id@) by {
        if s.node_ids@[j]@ != s.node_id@ {
            s.node_ids@.lemma_filter_contains(p, j);
            let k = choose|k: int| 0 <= k < nb.len() && nb[k] == s.node_ids@[j];
            assert(names(nb)[k] == s.node_ids@[j]@);
        }
        if names(nb).contains(s.node_ids@[j]@) {
            let k = choose|k: int| 0 <= k < names(nb).len() && names(nb)[k] == s.node_ids@[j]@;
            s.node_ids@.lemma_filter_pred(p, k);
        }
    }
}

/// Gossip from a peer is absorbed: the node keeps the values it carries,
/// records that the peer has them, and acknowledges them to the peer.
pub proof fn lemma_gossip_absorbed(
    s: BroadcastNode,
    t: BroadcastNode,
    m: Message<BroadcastPayload>,
    output: Seq<Message<BroadcastPayload>>,
    values: BTreeSet<usize>,
)
    requires
        s.ids().contains(m.src@),
        m.body.payload == (BroadcastPayload::Gossip { unseen_by_receiver: values }),
        s.answered(t, m, output),
    ensures
        t.messages@ == s.messages@.union(values@),
        t.known_of(m.src@) == s.known_of(m.src@).union(values@),
        forall|name: Seq<char>| s.ids().contains(name) && name != m.src@ ==> #[trigger] t.known_of(name) == s.known_of(name),
        output.len() == 1,
        output[0].dst == m.src,
        output[0].body.in_reply_to == m.body.msg_id,
        output[0].body.payload == (BroadcastPayload::GossipOk { received: values }),
{
    assert(t.known_view()[m.src@] == t.known_of(m.src@));
    assert forall|name: Seq<char>| s.ids().contains(name) && name != m.src@ implies #[trigger] t.known_of(name) == s.known_of(name) by {
        assert(t.known_view()[name] == t.known_of(name));
        assert(s.known_view()[name] == s.known_of(name));
    }
}

/// A `read` is answered to its sender with exactly the values kept, and a
/// `broadcast` is kept and acknowledged to its sender.
pub proof fn lemma_read_and_broadcast_answered(
    s: BroadcastNode,
    t: BroadcastNode,
    m: Message<BroadcastPayload>,
    output: Seq<Message<BroadcastPayload>>,
)
    requires
        s.answered(t, m, output),
    ensures
        m.body.payload is Read ==> {
            &&& output.len() == 1
            &&& output[0].dst == m.src
            &&& output[0].body.in_reply_to == m.body.msg_id
            &&& output[0].body.payload matches BroadcastPayload::ReadOk { messages } && messages@ == s.messages@
            &&& t.messages@ == s.messages@
        },
        m.body.payload matches BroadcastPayload::Broadcast { message } ==> {
            &&& output.len() == 1
            &&& output[0].dst == m.src
            &&& output[0].body.in_reply_to == m.body.msg_id
            &&& output[0].body.payload is BroadcastOk
            &&& t.messages@.contains(message)
            &&& forall|v: usize| t.messages@.contains(v) <==> (s.messages@.contains(v) || v == message)
        },
{
}

/// A well-formed node takes every event on which it does not give up: the
/// end of the input and answers it ignores always; gossip from a node of the
/// network; and requests and gossip ticks while ids remain.
pub proof fn lemma_accepts_when_room(n: BroadcastNode, m: Message<BroadcastPayload>)
    requires
        n.wf(),
    ensures
        n.accepts(Event::EOF),
        (m.body.payload is BroadcastOk || m.body.payload is ReadOk || m.body.payload is TopologyOk)
            ==> n.accepts(Event::Message(m)),
        (m.body.payload is GossipOk && names(n.node_ids@).contains(m.src@)) ==> n.accepts(Event::Message(m)),
        n.msg_id < usize::MAX ==> {
            &&& (m.body.payload is Broadcast || m.body.payload is Read || m.body.payload is Topology)
                ==> n.accepts(Event::Message(m))
            &&& (m.body.payload is Gossip && names(n.node_ids@).contains(m.src@)) ==> n.accepts(Event::Message(m))
        },
        n.msg_id + 2 <= usize::MAX ==> n.accepts(Event::Injected(InjectedPayload::Gossip)),
{
}

/// Broadcasting a value the node already keeps changes nothing it keeps, and
/// is still acknowledged.
pub proof fn lemma_broadcast_idempotent(
    s: BroadcastNode,
    t: BroadcastNode,
    m: Message<BroadcastPayload>,
    output: Seq<Message<BroadcastPayload>>,
    value: usize,
)
    requires
        s.messages@.contains(value),
        m.body.payload == (BroadcastPayload::Broadcast { message: value }),
        s.answered(t, m, output),
    ensures
        t.messages@ == s.messages@,
        output == seq![m.reply_spec(Some(s.msg_id)).with_payload(BroadcastPayload::BroadcastOk)],
{
    assert(t.messages@ =~= s.messages@);
}

/// Two broadcasts leave the same values kept in either order: the old ones
/// and both new ones.
pub proof fn lemma_broadcasts_commute(
    s: BroadcastNode,
    a: Message<BroadcastPayload>,
    b: Message<BroadcastPayload>,
    x: usize,
    y: usize,
    t1: BroadcastNode,
    u1: BroadcastNode,
    t2: BroadcastNode,
    u2: BroadcastNode,
    o1: Seq<Message<BroadcastPayload>>,
    o2: Seq<Message<BroadcastPayload>>,
    o3: Seq<Message<BroadcastPayload>>,
    o4: Seq<Message<BroadcastPayload>>,
)
    requires
        a.body.payload == (BroadcastPayload::Broadcast { message: x }),
        b.body.payload == (BroadcastPayload::Broadcast { message: y }),
        s.answered(t1, a, o1),
        t1.answered(u1, b, o2),
        s.answered(t2, b, o3),
        t2.answered(u2, a, o4),
    ensures
        u1.messages@ == u2.messages@,
        u1.messages@ == s.messages@.insert(x).insert(y),
{
    assert(s.messages@.insert(x).insert(y) =~= s.messages@.insert(y).insert(x));
}

/// Once a peer acknowledges gossip, the values it acknowledged are no longer
/// among those the node would gossip to it.
pub proof fn lemma_acknowledged_not_resent(
    s: BroadcastNode,
    t: BroadcastNode,
    m: Message<BroadcastPayload>,
    output: Seq<Message<BroadcastPayload>>,
    received: BTreeSet<usize>,
)
    requires
        s.ids().contains(m.src@),
        m.body.payload == (BroadcastPayload::GossipOk { received }),
        s.answered(t, m, output),
    ensures
        t.unseen_by(m.src@) == s.unseen_by(m.src@).difference(received@),
        output.len() == 0,
{
    assert(t.known_view()[m.src@] == t.known_of(m.src@));
    assert(t.unseen_by(m.src@) =~= s.unseen_by(m.src@).difference(received@));
}

/// A run of the node: `states[k]` steps to `states[k + 1]` on `inputs[k]`,
/// sending `outputs[k]`.
pub open spec fn is_run(
    states: Seq<BroadcastNode>,
    inputs: Seq<Event<BroadcastPayload, InjectedPayload>>,
    outputs: Seq<Seq<Message<BroadcastPayload>>>,
) -> bool {
    &&& states.len() == inputs.len() + 1
    &&& outputs.len() == inputs.len()
    &&& forall|k: int| 0 <= k < inputs.len() ==> (#[trigger] states[k]).stepped(states[k + 1], inputs[k], outputs[k])
}

/// Values kept at one point of a run are kept at every later point.
pub proof fn lemma_run_keeps(
    states: Seq<BroadcastNode>,
    inputs: Seq<Event<BroadcastPayload, InjectedPayload>>,
    outputs: Seq<Seq<Message<BroadcastPayload>>>,
    i: int,
    j: int,
)
    requires
        is_run(states, inputs, outputs),
        0 <= i <= j < states.len(),
    ensures
        states[i].messages@.subset_of(states[j].messages@),
    decreases j - i,
{
    if i < j {
        lemma_run_keeps(states, inputs, outputs, i, j - 1);
        assert(states[j - 1].stepped(states[j], inputs[j - 1], outputs[j - 1]));
        lemma_step_monotone(states[j - 1], states[j], inputs[j - 1], outputs[j - 1]);
    }
}

/// Once the node has acknowledged `broadcast` of a value, every later `read`
/// is answered with a set that holds the value.
pub proof fn lemma_read_after_broadcast(
    states: Seq<BroadcastNode>,
    inputs: Seq<Event<BroadcastPayload, InjectedPayload>>,
    outputs: Seq<Seq<Message<BroadcastPayload>>>,
    i: int,
    j: int,
    value: usize,
)
    requires
        is_run(states, inputs, outputs),
        0 <= i < j < inputs.len(),
        inputs[i] matches Event::Message(m) && m.body.payload == (BroadcastPayload::Broadcast { message: value }),
        inputs[j] matches Event::Message(m) && m.body.payload is Read,
    ensures
        outputs[i] == seq![inputs[i]->Message_0.reply_spec(Some(states[i].msg_id)).with_payload(BroadcastPayload::BroadcastOk)],
        outputs[j].len() == 1,
        outputs[j][0].body.payload matches BroadcastPayload::ReadOk { messages } && messages@.contains(value),
{
    assert(states[i].stepped(states[i + 1], inputs[i], outputs[i]));
    lemma_run_keeps(states, inputs, outputs, i + 1, j);
    assert(states[j].stepped(states[j + 1], inputs[j], outputs[j]));
}

} // verus!
