use eddy::message::handshake;
use eddy::{Body, Event, Init, InitPayload, Message};

fn msg<P>(src: &str, dst: &str, msg_id: Option<usize>, in_reply_to: Option<usize>, payload: P) -> Message<P> {
    Message {
        src: src.to_string(),
        dst: dst.to_string(),
        body: Body { msg_id, in_reply_to, payload },
    }
}

#[test]
fn into_reply_swaps_and_numbers() {
    let m = msg("c1", "n1", Some(7), None, 42u32);
    let mut counter: usize = 3;
    let reply = m.into_reply(Some(&mut counter));
    assert_eq!(reply.src, "n1");
    assert_eq!(reply.dst, "c1");
    assert_eq!(reply.body.msg_id, Some(3));
    assert_eq!(reply.body.in_reply_to, Some(7));
    assert_eq!(reply.body.payload, 42);
    assert_eq!(counter, 4);
}

#[test]
fn into_reply_without_counter() {
    let m = msg("c1", "n1", None, Some(2), "x");
    let reply = m.into_reply(None);
    assert_eq!(reply.src, "n1");
    assert_eq!(reply.dst, "c1");
    assert_eq!(reply.body.msg_id, None);
    assert_eq!(reply.body.in_reply_to, None);
    assert_eq!(reply.body.payload, "x");
}

#[test]
fn reply_of_reply_returns_to_sender() {
    let m = msg("c1", "n1", Some(5), None, 1u8);
    let mut counter: usize = 10;
    let first = m.into_reply(Some(&mut counter));
    let second = first.into_reply(Some(&mut counter));
    assert_eq!(second.src, "c1");
    assert_eq!(second.dst, "n1");
    assert_eq!(second.body.in_reply_to, Some(10));
    assert_eq!(second.body.msg_id, Some(11));
    assert_eq!(counter, 12);
}

#[test]
fn reply_with_id_keeps_counter_out() {
    let m = msg("c2", "n2", Some(1), None, 9u8);
    let reply = m.reply_with_id(4);
    assert_eq!(reply.src, "n2");
    assert_eq!(reply.dst, "c2");
    assert_eq!(reply.body.msg_id, Some(4));
    assert_eq!(reply.body.in_reply_to, Some(1));
}

#[test]
fn send_queues_and_advances() {
    let mut out: Vec<Message<u8>> = Vec::new();
    let mut id: usize = 8;
    msg("a", "b", Some(8), None, 1u8).send(&mut out, &mut id);
    msg("a", "c", Some(9), None, 2u8).send(&mut out, &mut id);
    assert_eq!(id, 10);
    assert_eq!(out.len(), 2);
    assert_eq!(out[0].dst, "b");
    assert_eq!(out[1].dst, "c");
}

#[test]
fn handshake_answers_init() {
    let init = Init { node_id: "n1".to_string(), node_ids: vec!["n1".to_string(), "n2".to_string()] };
    let m = msg("c0", "n1", Some(1), None, InitPayload::Init(init));
    let (init, reply) = handshake(m).expect("init must be accepted");
    assert_eq!(init.node_id, "n1");
    assert_eq!(init.node_ids, vec!["n1".to_string(), "n2".to_string()]);
    assert_eq!(reply.src, "n1");
    assert_eq!(reply.dst, "c0");
    assert_eq!(reply.body.msg_id, Some(0));
    assert_eq!(reply.body.in_reply_to, Some(1));
    assert!(matches!(reply.body.payload, InitPayload::InitOk));
}

#[test]
fn handshake_refuses_other_first_message() {
    let m = msg("c0", "n1", Some(1), None, InitPayload::InitOk);
    assert!(handshake(m).is_none());
}

#[test]
fn event_variants_build() {
    let e: Event<u8, bool> = Event::Injected(true);
    assert!(matches!(e, Event::Injected(true)));
    let e: Event<u8> = Event::EOF;
    assert!(matches!(e, Event::EOF));
}
