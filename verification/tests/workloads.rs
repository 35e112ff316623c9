use std::collections::{BTreeSet, HashMap, VecDeque};

use eddy::broadcast_node::{BroadcastNode, BroadcastPayload, InjectedPayload as BroadcastTick};
use eddy::echo::{EchoNode, EchoPayload};
use eddy::gcounter::{AddInstruction, GCounterNode, GCounterPayload, InjectedPayload as CounterTick};
use eddy::unique_ids::{guid, UniqueNode, UniquePayload};
use eddy::{Body, Event, Init, Message, Node};

fn msg<P>(src: &str, dst: &str, msg_id: Option<usize>, in_reply_to: Option<usize>, payload: P) -> Message<P> {
    Message {
        src: src.to_string(),
        dst: dst.to_string(),
        body: Body { msg_id, in_reply_to, payload },
    }
}

fn init(node_id: &str, node_ids: &[&str]) -> Init {
    Init {
        node_id: node_id.to_string(),
        node_ids: node_ids.iter().map(|s| s.to_string()).collect(),
    }
}

fn set(values: &[usize]) -> BTreeSet<usize> {
    values.iter().copied().collect()
}

// ---------------------------------------------------------------- echo

#[test]
fn echo_answers_with_same_text() {
    let mut node = EchoNode::from_init((), init("n1", &["n1"])).expect("node starts");
    assert_eq!(node.msg_id, 1);
    let input = Event::Message(msg("c1", "n1", Some(3), None, EchoPayload::Echo { echo: "hello".to_string() }));
    assert!(node.can_step(&input));
    let out = node.step(input);
    assert_eq!(out.len(), 1);
    assert_eq!(out[0].src, "n1");
    assert_eq!(out[0].dst, "c1");
    assert_eq!(out[0].body.msg_id, Some(1));
    assert_eq!(out[0].body.in_reply_to, Some(3));
    match &out[0].body.payload {
        EchoPayload::EchoOk { echo } => assert_eq!(echo, "hello"),
        _ => panic!("expected echo_ok"),
    }
    assert_eq!(node.msg_id, 2);
}

#[test]
fn echo_ok_is_not_answered_but_counts() {
    let mut node = EchoNode::from_init((), init("n1", &["n1"])).expect("node starts");
    let out = node.step(Event::Message(msg("c1", "n1", Some(3), None, EchoPayload::EchoOk { echo: "x".to_string() })));
    assert!(out.is_empty());
    assert_eq!(node.msg_id, 2);
}

#[test]
fn echo_refuses_injected_events() {
    let node = EchoNode::from_init((), init("n1", &["n1"])).expect("node starts");
    assert!(!node.can_step(&Event::Injected(EchoPayload::Echo { echo: "x".to_string() })));
    assert!(!node.can_step(&Event::EOF));
}

// ---------------------------------------------------------------- unique ids

#[test]
fn guid_joins_name_and_counter() {
    assert_eq!(guid(&"n3".to_string(), 1234), "n3-1234");
    assert_eq!(guid(&"n0".to_string(), 0), "n0-0");
    assert_eq!(guid(&"a-b".to_string(), 10), "a-b-10");
    assert_eq!(guid(&"x".to_string(), usize::MAX), format!("x-{}", usize::MAX));
}

#[test]
fn unique_ids_are_distinct() {
    let mut node = UniqueNode::from_init((), init("n1", &["n1", "n2"])).expect("node starts");
    let mut seen = Vec::new();
    for k in 0..5usize {
        let out = node.step(Event::Message(msg("c1", "n1", Some(k), None, UniquePayload::Generate)));
        assert_eq!(out.len(), 1);
        assert_eq!(out[0].body.in_reply_to, Some(k));
        match &out[0].body.payload {
            UniquePayload::GenerateOk { guid } => seen.push(guid.clone()),
            _ => panic!("expected generate_ok"),
        }
    }
    assert_eq!(seen, vec!["n1-1", "n1-2", "n1-3", "n1-4", "n1-5"]);
    assert_eq!(node.msg_id, 6);
}

#[test]
fn unique_generate_ok_taken_at_full_counter() {
    let mut node = UniqueNode { node_id: "n1".to_string(), msg_id: usize::MAX };
    let input = Event::Message(msg("c1", "n1", Some(1), None, UniquePayload::GenerateOk { guid: "z".to_string() }));
    assert!(node.can_step(&input));
    assert!(node.step(input).is_empty());
    assert!(!node.can_step(&Event::Message(msg("c1", "n1", Some(1), None, UniquePayload::Generate))));
}

#[test]
fn unique_ids_of_two_nodes_differ() {
    let mut a = UniqueNode::from_init((), init("n1", &["n1", "n11"])).expect("node starts");
    let mut b = UniqueNode::from_init((), init("n11", &["n1", "n11"])).expect("node starts");
    let mut ids = Vec::new();
    for k in 0..12usize {
        for node in [&mut a, &mut b] {
            let out = node.step(Event::Message(msg("c1", "x", Some(k), None, UniquePayload::Generate)));
            if let UniquePayload::GenerateOk { guid } = &out[0].body.payload {
                ids.push(guid.clone());
            }
        }
    }
    let mut sorted = ids.clone();
    sorted.sort();
    sorted.dedup();
    assert_eq!(sorted.len(), ids.len());
}

#[test]
fn unique_generate_ok_changes_nothing() {
    let mut node = UniqueNode::from_init((), init("n1", &["n1"])).expect("node starts");
    let out = node.step(Event::Message(msg("c1", "n1", Some(1), None, UniquePayload::GenerateOk { guid: "z".to_string() })));
    assert!(out.is_empty());
    assert_eq!(node.msg_id, 1);
    assert!(!node.can_step(&Event::EOF));
}

// ---------------------------------------------------------------- broadcast

fn broadcast_node() -> BroadcastNode {
    BroadcastNode::from_init((), init("n1", &["n1", "n2", "n3"])).expect("node starts")
}

#[test]
fn broadcast_then_read() {
    let mut node = broadcast_node();
    let out = node.step(Event::Message(msg("c1", "n1", Some(1), None, BroadcastPayload::Broadcast { message: 7 })));
    assert_eq!(out.len(), 1);
    assert!(matches!(out[0].body.payload, BroadcastPayload::BroadcastOk));
    assert_eq!(out[0].body.in_reply_to, Some(1));
    assert_eq!(out[0].body.msg_id, Some(1));
    let out = node.step(Event::Message(msg("c1", "n1", Some(2), None, BroadcastPayload::Read)));
    match &out[0].body.payload {
        BroadcastPayload::ReadOk { messages } => assert_eq!(*messages, set(&[7])),
        _ => panic!("expected read_ok"),
    }
    assert_eq!(out[0].body.msg_id, Some(2));
    assert_eq!(node.msg_id, 3);
}

#[test]
fn topology_sets_neighbourhood_to_the_others() {
    let mut node = broadcast_node();
    let mut topology = HashMap::new();
    topology.insert("n1".to_string(), vec!["n2".to_string()]);
    let out = node.step(Event::Message(msg("c1", "n1", Some(1), None, BroadcastPayload::Topology { topology: topology.clone() })));
    assert!(matches!(out[0].body.payload, BroadcastPayload::TopologyOk));
    assert_eq!(node.neighborhood, vec!["n2".to_string(), "n3".to_string()]);
    assert_eq!(node.topology, topology);
}

#[test]
fn gossip_is_absorbed_and_acknowledged() {
    let mut node = broadcast_node();
    let out = node.step(Event::Message(msg("n2", "n1", Some(4), None, BroadcastPayload::Gossip { unseen_by_receiver: set(&[1, 2]) })));
    assert_eq!(out.len(), 1);
    assert_eq!(out[0].dst, "n2");
    match &out[0].body.payload {
        BroadcastPayload::GossipOk { received } => assert_eq!(*received, set(&[1, 2])),
        _ => panic!("expected gossip_ok"),
    }
    assert_eq!(node.messages, set(&[1, 2]));
    assert_eq!(node.known[1], set(&[1, 2]));
    assert!(node.known[0].is_empty());
    assert!(node.known[2].is_empty());
}

#[test]
fn gossip_ok_updates_knowledge_silently() {
    let mut node = broadcast_node();
    let out = node.step(Event::Message(msg("n3", "n1", Some(4), Some(1), BroadcastPayload::GossipOk { received: set(&[5]) })));
    assert!(out.is_empty());
    assert_eq!(node.known[2], set(&[5]));
    assert_eq!(node.msg_id, 1);
}

#[test]
fn gossip_from_unknown_node_is_refused() {
    let node = broadcast_node();
    let input = Event::Message(msg("n9", "n1", Some(4), None, BroadcastPayload::Gossip { unseen_by_receiver: set(&[1]) }));
    assert!(!node.can_step(&input));
}

#[test]
fn gossip_tick_sends_only_what_is_unseen() {
    let mut node = BroadcastNode::from_init((), init("n1", &["n1", "n2"])).expect("node starts");
    node.step(Event::Message(msg("c1", "n1", Some(1), None, BroadcastPayload::Topology { topology: HashMap::new() })));
    node.step(Event::Message(msg("c1", "n1", Some(2), None, BroadcastPayload::Broadcast { message: 10 })));
    node.step(Event::Message(msg("c1", "n1", Some(3), None, BroadcastPayload::Broadcast { message: 11 })));
    node.step(Event::Message(msg("n2", "n1", None, Some(1), BroadcastPayload::GossipOk { received: set(&[10]) })));
    let before = node.msg_id;
    let out = node.step(Event::Injected(BroadcastTick::Gossip));
    assert_eq!(out.len(), 1);
    assert_eq!(out[0].src, "n1");
    assert_eq!(out[0].dst, "n2");
    assert_eq!(out[0].body.msg_id, Some(before));
    assert_eq!(out[0].body.in_reply_to, None);
    match &out[0].body.payload {
        BroadcastPayload::Gossip { unseen_by_receiver } => assert_eq!(*unseen_by_receiver, set(&[11])),
        _ => panic!("expected gossip"),
    }
    assert_eq!(node.msg_id, before + 1);
    node.step(Event::Message(msg("n2", "n1", None, Some(before), BroadcastPayload::GossipOk { received: set(&[11]) })));
    let out = node.step(Event::Injected(BroadcastTick::Gossip));
    assert!(out.is_empty());
}

#[test]
fn gossip_tick_without_neighbours_is_silent() {
    let mut node = broadcast_node();
    node.step(Event::Message(msg("c1", "n1", Some(2), None, BroadcastPayload::Broadcast { message: 1 })));
    let out = node.step(Event::Injected(BroadcastTick::Gossip));
    assert!(out.is_empty());
    let out = node.step(Event::EOF);
    assert!(out.is_empty());
}

#[test]
fn broadcast_acks_are_ignored() {
    let mut node = broadcast_node();
    for payload in [BroadcastPayload::BroadcastOk, BroadcastPayload::TopologyOk, BroadcastPayload::ReadOk { messages: set(&[3]) }] {
        let out = node.step(Event::Message(msg("c1", "n1", Some(1), None, payload)));
        assert!(out.is_empty());
    }
    assert!(node.messages.is_empty());
    assert_eq!(node.msg_id, 1);
}

// ---------------------------------------------------------------- g-counter

fn counter_node() -> GCounterNode {
    GCounterNode::from_init((), init("n1", &["n1", "n2"])).expect("node starts")
}

fn kv_write(p: &GCounterPayload) -> (String, usize) {
    match p {
        GCounterPayload::Write { key, value } => (key.clone(), *value),
        _ => panic!("expected write"),
    }
}

#[test]
fn add_grows_counter_and_writes_it_to_the_service() {
    let mut node = counter_node();
    let out = node.step(Event::Message(msg("c1", "n1", Some(7), None, GCounterPayload::Add { delta: 5 })));
    assert_eq!(node.counter, 5);
    assert_eq!(out.len(), 1);
    assert_eq!(out[0].src, "n1");
    assert_eq!(out[0].dst, "seq-kv");
    assert_eq!(out[0].body.msg_id, Some(1));
    assert_eq!(out[0].body.in_reply_to, None);
    assert_eq!(kv_write(&out[0].body.payload), ("counter".to_string(), 5));
    let out = node.step(Event::Message(msg("c2", "n1", None, None, GCounterPayload::Add { delta: 3 })));
    assert_eq!(kv_write(&out[0].body.payload), ("counter".to_string(), 8));
    assert_eq!(out[0].body.msg_id, Some(2));
    assert_eq!(node.msg_id, 3);
    assert!(node.add_queue.is_empty());
    let out = node.step(Event::Message(msg("c1", "n1", Some(9), None, GCounterPayload::Read { key: None })));
    assert!(matches!(out[0].body.payload, GCounterPayload::ReadOk { value: 8 }));
}

#[test]
fn queued_add_is_answered_after_cas() {
    let mut node = counter_node();
    node.add_queue = VecDeque::from(vec![AddInstruction { delta: 5, rcvd_add_msg_id: 7, sent_cas_msg_id: None, client: "c1".to_string() }]);
    assert_eq!(node.pending_add(), Some(5));
    let out = node.step(Event::Injected(CounterTick::ReadKVCounter));
    assert_eq!(out[0].dst, "seq-kv");
    node.step(Event::Message(msg("seq-kv", "n1", None, out[0].body.msg_id, GCounterPayload::ReadOk { value: 10 })));
    assert_eq!(node.counter, 10);
    let out = node.step(Event::Injected(CounterTick::Cas { delta: 5 }));
    let cas_id = out[0].body.msg_id;
    assert_eq!(out[0].dst, "seq-kv");
    match &out[0].body.payload {
        GCounterPayload::CompareAndSet { key, from, to, create_if_not_exists } => {
            assert_eq!(key, "counter");
            assert_eq!((*from, *to), (10, 15));
            assert_eq!(*create_if_not_exists, Some(true));
        }
        _ => panic!("expected cas"),
    }
    assert_eq!(node.pending_add(), None);
    let out = node.step(Event::Message(msg("seq-kv", "n1", Some(40), cas_id, GCounterPayload::CompareAndSetOk)));
    assert_eq!(out.len(), 1);
    assert_eq!(out[0].src, "n1");
    assert_eq!(out[0].dst, "c1");
    assert_eq!(out[0].body.in_reply_to, Some(7));
    assert!(matches!(out[0].body.payload, GCounterPayload::AddOk));
    assert!(node.add_queue.is_empty());
}

#[test]
fn failed_cas_error_leaves_queue() {
    let mut node = counter_node();
    node.add_queue = VecDeque::from(vec![AddInstruction { delta: 4, rcvd_add_msg_id: 3, sent_cas_msg_id: None, client: "c1".to_string() }]);
    let out = node.step(Event::Injected(CounterTick::Cas { delta: 4 }));
    let cas_id = out[0].body.msg_id;
    let out = node.step(Event::Message(msg("seq-kv", "n1", None, cas_id, GCounterPayload::Error { code: 22, text: "current value is not from".to_string() })));
    assert!(out.is_empty());
    assert_eq!(node.add_queue[0].sent_cas_msg_id, cas_id);
    assert_eq!(node.pending_add(), None);
}

#[test]
fn read_reports_counter() {
    let mut node = counter_node();
    node.step(Event::Message(msg("seq-kv", "n1", None, Some(1), GCounterPayload::ReadOk { value: 42 })));
    assert_eq!(node.counter, 42);
    assert_eq!(node.msg_id, 1);
    let out = node.step(Event::Message(msg("c1", "n1", Some(9), None, GCounterPayload::Read { key: None })));
    match out[0].body.payload {
        GCounterPayload::ReadOk { value } => assert_eq!(value, 42),
        _ => panic!("expected read_ok"),
    }
    assert_eq!(out[0].body.in_reply_to, Some(9));
}

#[test]
fn missing_key_error_writes_counter_to_service() {
    let mut node = counter_node();
    node.step(Event::Message(msg("seq-kv", "n1", None, Some(1), GCounterPayload::ReadOk { value: 2 })));
    let out = node.step(Event::Message(msg("seq-kv", "n1", None, Some(1), GCounterPayload::Error { code: 20, text: "key does not exist".to_string() })));
    assert_eq!(out.len(), 1);
    assert_eq!(out[0].src, "n1");
    assert_eq!(out[0].dst, "seq-kv");
    assert_eq!(out[0].body.in_reply_to, None);
    assert_eq!(out[0].body.msg_id, Some(1));
    assert_eq!(kv_write(&out[0].body.payload), ("counter".to_string(), 2));
}

#[test]
fn failed_cas_error_changes_nothing() {
    let mut node = counter_node();
    let out = node.step(Event::Message(msg("seq-kv", "n1", None, Some(1), GCounterPayload::Error { code: 22, text: "no".to_string() })));
    assert!(out.is_empty());
    assert_eq!(node.msg_id, 1);
    assert!(!node.can_step(&Event::Message(msg("seq-kv", "n1", None, Some(1), GCounterPayload::Error { code: 11, text: "?".to_string() }))));
}

#[test]
fn counter_refuses_its_own_requests() {
    let node = counter_node();
    assert!(!node.can_step(&Event::Message(msg("c1", "n1", None, None, GCounterPayload::AddOk))));
    assert!(!node.can_step(&Event::Message(msg("c1", "n1", None, None, GCounterPayload::Write { key: "k".to_string(), value: 1 }))));
    assert!(!node.can_step(&Event::Injected(CounterTick::Cas { delta: 1 })));
    assert!(node.can_step(&Event::Injected(CounterTick::ReadKVCounter)));
}

#[test]
fn read_tick_asks_service() {
    let mut node = counter_node();
    let out = node.step(Event::Injected(CounterTick::ReadKVCounter));
    assert_eq!(out[0].dst, "seq-kv");
    assert_eq!(out[0].body.msg_id, Some(1));
    assert!(matches!(&out[0].body.payload, GCounterPayload::Read { key: Some(k) } if k == "counter"));
    assert_eq!(node.msg_id, 2);
}

#[test]
fn stray_cas_ok_changes_nothing() {
    let mut node = counter_node();
    node.add_queue = VecDeque::from(vec![AddInstruction { delta: 4, rcvd_add_msg_id: 17, sent_cas_msg_id: Some(8), client: "c9".to_string() }]);
    let out = node.step(Event::Message(msg("seq-kv", "n1", None, Some(99), GCounterPayload::CompareAndSetOk)));
    assert!(out.is_empty());
    assert_eq!(node.add_queue.len(), 1);
    // a cas_ok without in_reply_to is refused while a cas is out
    assert!(!node.can_step(&Event::Message(msg("seq-kv", "n1", None, None, GCounterPayload::CompareAndSetOk))));
    // with no cas out, a cas_ok changes nothing either
    let mut idle = counter_node();
    let out = idle.step(Event::Message(msg("seq-kv", "n1", None, None, GCounterPayload::CompareAndSetOk)));
    assert!(out.is_empty());
}

#[test]
fn counter_overflow_is_refused() {
    let mut node = counter_node();
    node.counter = usize::MAX;
    assert!(!node.can_step(&Event::Message(msg("c1", "n1", None, None, GCounterPayload::Add { delta: 1 }))));
    assert!(node.can_step(&Event::Message(msg("c1", "n1", None, None, GCounterPayload::Add { delta: 0 }))));
    node.add_queue.push_back(AddInstruction { delta: 1, rcvd_add_msg_id: 1, sent_cas_msg_id: None, client: "c1".to_string() });
    assert!(!node.can_step(&Event::Injected(CounterTick::Cas { delta: 1 })));
    assert!(node.can_step(&Event::Injected(CounterTick::Cas { delta: 0 })));
}

#[test]
fn gossip_tick_reaches_at_most_two_distinct_neighbours() {
    let mut node = BroadcastNode::from_init((), init("n1", &["n1", "n2", "n3", "n4"])).expect("node starts");
    node.step(Event::Message(msg("c1", "n1", Some(1), None, BroadcastPayload::Topology { topology: HashMap::new() })));
    node.step(Event::Message(msg("c1", "n1", Some(2), None, BroadcastPayload::Broadcast { message: 3 })));
    for _ in 0..20 {
        let before = node.msg_id;
        let out = node.step(Event::Injected(BroadcastTick::Gossip));
        assert_eq!(out.len(), 2);
        assert_ne!(out[0].dst, out[1].dst);
        for m in &out {
            assert!(["n2", "n3", "n4"].contains(&m.dst.as_str()));
        }
        assert_eq!(out[0].body.msg_id, Some(before));
        assert_eq!(out[1].body.msg_id, Some(before + 1));
    }
}

#[test]
fn repeated_broadcast_keeps_one_copy() {
    let mut node = broadcast_node();
    node.step(Event::Message(msg("c1", "n1", Some(1), None, BroadcastPayload::Broadcast { message: 4 })));
    let out = node.step(Event::Message(msg("c1", "n1", Some(2), None, BroadcastPayload::Broadcast { message: 4 })));
    assert!(matches!(out[0].body.payload, BroadcastPayload::BroadcastOk));
    assert_eq!(node.messages, set(&[4]));
}

#[test]
fn broadcasts_in_either_order_agree() {
    let mut one = broadcast_node();
    let mut two = broadcast_node();
    one.step(Event::Message(msg("c1", "n1", Some(1), None, BroadcastPayload::Broadcast { message: 1 })));
    one.step(Event::Message(msg("c1", "n1", Some(2), None, BroadcastPayload::Broadcast { message: 2 })));
    two.step(Event::Message(msg("c1", "n1", Some(1), None, BroadcastPayload::Broadcast { message: 2 })));
    two.step(Event::Message(msg("c1", "n1", Some(2), None, BroadcastPayload::Broadcast { message: 1 })));
    assert_eq!(one.messages, two.messages);
    assert_eq!(one.messages, set(&[1, 2]));
}

#[test]
fn gossip_tick_bound_counts_only_neighbours_with_news() {
    let mut node = BroadcastNode::from_init((), init("n1", &["n1", "n2", "n3"])).expect("node starts");
    node.step(Event::Message(msg("c1", "n1", Some(1), None, BroadcastPayload::Topology { topology: HashMap::new() })));
    // nothing to tell anyone: even a full counter takes the tick
    node.msg_id = usize::MAX;
    assert!(node.can_step(&Event::Injected(BroadcastTick::Gossip)));
    // one neighbour lacks a value: one id must be left
    node.msg_id = 5;
    node.step(Event::Message(msg("c1", "n1", Some(2), None, BroadcastPayload::Broadcast { message: 9 })));
    node.step(Event::Message(msg("n3", "n1", None, Some(1), BroadcastPayload::GossipOk { received: set(&[9]) })));
    node.msg_id = usize::MAX - 1;
    assert!(node.can_step(&Event::Injected(BroadcastTick::Gossip)));
    let out = node.step(Event::Injected(BroadcastTick::Gossip));
    assert_eq!(out.len(), 1);
    assert_eq!(out[0].dst, "n2");
    node.msg_id = usize::MAX;
    assert!(!node.can_step(&Event::Injected(BroadcastTick::Gossip)));
}
