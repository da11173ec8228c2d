use maelstrom_node::{echo, unique_ids, Body, Event, Init, Message, Node};

fn init(me: &str) -> Init {
    Init { node_id: me.to_string(), node_ids: vec![me.to_string()] }
}

#[test]
fn echo_answers_with_same_text() {
    let mut n = echo::EchoNode::from_init(init("n1"));
    let req = Message::new("c1".to_string(), "n1".to_string(), Body::new(Some(3), echo::Payload::Echo { echo: "hi".to_string() }));
    let out = n.process_message(Event::Message(req));
    assert_eq!(out.len(), 1);
    assert_eq!(out[0].src, "n1");
    assert_eq!(out[0].dest, "c1");
    assert_eq!(out[0].body.id, Some(1));
    assert_eq!(out[0].body.reply_to, Some(3));
    assert!(matches!(&out[0].body.payload, echo::Payload::EchoOk { echo } if echo == "hi"));
    let again = Message::new("c1".to_string(), "n1".to_string(), Body::new(Some(4), echo::Payload::Echo { echo: "x".to_string() }));
    assert_eq!(n.process_message(Event::Message(again))[0].body.id, Some(2));
}

#[test]
fn echo_ignores_answers_and_end_of_input() {
    let mut n = echo::EchoNode::from_init(init("n1"));
    let ok = Message::new("c1".to_string(), "n1".to_string(), Body::new(Some(3), echo::Payload::EchoOk { echo: "hi".to_string() }));
    assert!(n.process_message(Event::Message(ok)).is_empty());
    assert!(n.process_message(Event::EOF).is_empty());
    assert_eq!(n.msg_id, 1);
}

#[test]
fn generate_answers_with_distinct_ids() {
    let mut n = unique_ids::UniqueIdNode::from_init(init("n1"));
    let req = |id| Message::new("c1".to_string(), "n1".to_string(), Body::new(Some(id), unique_ids::Payload::Generate {}));
    let a = n.process_message(Event::Message(req(1)));
    let b = n.process_message(Event::Message(req(2)));
    let guid = |m: &Message<unique_ids::Payload>| match &m.body.payload {
        unique_ids::Payload::GenerateOk { guid } => guid.clone(),
        _ => panic!("expected generate_ok"),
    };
    assert_eq!(guid(&a[0]).len(), 26);
    assert_ne!(guid(&a[0]), guid(&b[0]));
    assert_eq!(a[0].body.reply_to, Some(1));
    assert_eq!(b[0].body.id, Some(2));
}

#[test]
fn reply_swaps_addresses_and_links_request() {
    let mut n = echo::EchoNode::from_init(init("n7"));
    let req = Message::new("c2".to_string(), "n7".to_string(), Body::new(Some(11), echo::Payload::Echo { echo: "a".to_string() }));
    let r = n.reply(req, echo::Payload::EchoOk { echo: "b".to_string() });
    assert_eq!(r.src, "n7");
    assert_eq!(r.dest, "c2");
    assert_eq!(r.body.id, Some(1));
    assert_eq!(r.body.reply_to, Some(11));
    assert_eq!(n.next_msg_id(), 2);
    assert_eq!(n.node_id(), "n7");
}

#[test]
fn body_new_has_no_reply_link() {
    let b = Body::new(Some(5), ());
    assert_eq!(b.id, Some(5));
    assert_eq!(b.reply_to, None);
}
