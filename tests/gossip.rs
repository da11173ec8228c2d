use maelstrom_node::gossip::{GossipNode, InjectedPayload, Payload};
use maelstrom_node::{Body, Event, Init, Message, Node};

fn node(me: &str, all: &[&str]) -> GossipNode {
    GossipNode::from_init(Init {
        node_id: me.to_string(),
        node_ids: all.iter().map(|s| s.to_string()).collect(),
    })
}

fn msg(src: &str, dest: &str, id: usize, payload: Payload) -> Message<Payload> {
    Message::new(src.to_string(), dest.to_string(), Body::new(Some(id), payload))
}

fn sorted(mut v: Vec<usize>) -> Vec<usize> {
    v.sort();
    v
}

fn read(n: &mut GossipNode) -> Vec<usize> {
    let out = n.process_message(Event::Message(msg("c9", "n", 100, Payload::Read {})));
    match &out[0].body.payload {
        Payload::ReadOk { messages } => messages.clone(),
        other => panic!("expected read_ok, got {:?}", other),
    }
}

fn exchange() -> (GossipNode, GossipNode, Vec<usize>) {
    let mut n1 = node("n1", &["n1", "n2"]);
    let mut n2 = node("n2", &["n1", "n2"]);
    n1.messages = vec![1, 2];
    n1.has_update = Some("c1".to_string());
    n2.messages = vec![2, 3];
    let round = n1.process_message(Event::Injected(InjectedPayload::GossipTrigger));
    assert_eq!(round.len(), 1);
    assert_eq!(round[0].dest, "n2");
    let answer = n2.process_message(Event::Message(round[0].clone()));
    assert_eq!(answer.len(), 1);
    let back = match &answer[0].body.payload {
        Payload::GossipOk { messages } => messages.clone(),
        other => panic!("expected gossip_ok, got {:?}", other),
    };
    assert_eq!(answer[0].dest, "n1");
    let none = n1.process_message(Event::Message(answer[0].clone()));
    assert!(none.is_empty());
    (n1, n2, back)
}

#[test]
fn gossip_exchange_returns_complement_and_merges() {
    let (n1, n2, back) = exchange();
    assert_eq!(back, vec![3]);
    assert_eq!(sorted(n1.messages.clone()), vec![1, 2, 3]);
    assert_eq!(sorted(n2.messages.clone()), vec![1, 2, 3]);
}

#[test]
fn read_after_exchange_gives_union() {
    let (mut n1, mut n2, _) = exchange();
    assert_eq!(sorted(read(&mut n1)), vec![1, 2, 3]);
    assert_eq!(sorted(read(&mut n2)), vec![1, 2, 3]);
}

#[test]
fn client_broadcast_relays_once_and_acks() {
    let mut n1 = node("n1", &["n1", "n2", "n3"]);
    let out = n1.process_message(Event::Message(msg("c1", "n1", 5, Payload::Broadcast { message: 7, check: None })));
    assert_eq!(out.len(), 3);
    for (k, dest) in ["n2", "n3"].iter().enumerate() {
        assert_eq!(out[k].dest, *dest);
        assert!(matches!(out[k].body.payload, Payload::Broadcast { message: 7, check: Some(true) }));
    }
    assert_eq!(out[2].dest, "c1");
    assert_eq!(out[2].body.reply_to, Some(5));
    assert!(matches!(out[2].body.payload, Payload::BroadcastOk {}));
    assert_eq!(n1.messages, vec![7]);
    assert_eq!(n1.has_update, Some("c1".to_string()));
}

#[test]
fn relayed_broadcast_is_neither_relayed_nor_acked() {
    let mut n2 = node("n2", &["n1", "n2", "n3"]);
    let out = n2.process_message(Event::Message(msg("n1", "n2", 5, Payload::Broadcast { message: 7, check: Some(true) })));
    assert!(out.is_empty());
    assert_eq!(n2.messages, vec![7]);
}

#[test]
fn known_value_leaves_flag_unset() {
    let mut n1 = node("n1", &["n1"]);
    n1.messages = vec![7];
    let out = n1.process_message(Event::Message(msg("n2", "n1", 5, Payload::Broadcast { message: 7, check: Some(true) })));
    assert!(out.is_empty());
    assert_eq!(n1.has_update, None);
}

#[test]
fn clean_tick_sends_nothing() {
    let mut n1 = node("n1", &["n1", "n2"]);
    n1.messages = vec![1];
    let out = n1.process_message(Event::Injected(InjectedPayload::GossipTrigger));
    assert!(out.is_empty());
}

#[test]
fn dirty_tick_skips_last_source_and_clears_flag() {
    let mut n1 = node("n1", &["n1", "n2", "n3"]);
    n1.messages = vec![4];
    n1.has_update = Some("n2".to_string());
    let out = n1.process_message(Event::Injected(InjectedPayload::GossipTrigger));
    assert_eq!(out.len(), 1);
    assert_eq!(out[0].dest, "n3");
    assert_eq!(out[0].body.reply_to, None);
    assert!(matches!(&out[0].body.payload, Payload::Gossip { messages } if messages == &vec![4]));
    assert_eq!(n1.has_update, None);
    let again = n1.process_message(Event::Injected(InjectedPayload::GossipTrigger));
    assert!(again.is_empty());
}

#[test]
fn gossip_with_nothing_new_leaves_flag_unset() {
    let mut n1 = node("n1", &["n1", "n2"]);
    n1.messages = vec![1, 2];
    let out = n1.process_message(Event::Message(msg("n2", "n1", 3, Payload::Gossip { messages: vec![2] })));
    assert!(matches!(&out[0].body.payload, Payload::GossipOk { messages } if messages == &vec![1]));
    assert_eq!(n1.has_update, None);
    assert_eq!(n1.messages, vec![1, 2]);
}

#[test]
fn gossip_topology_replaces_neighbours() {
    let mut n1 = node("n1", &["n1", "n2", "n3"]);
    let topology = vec![("n1".to_string(), vec!["n3".to_string()])];
    let out = n1.process_message(Event::Message(msg("c1", "n1", 2, Payload::Topology { topology })));
    assert_eq!(n1.neighbours, vec!["n3".to_string()]);
    assert!(matches!(out[0].body.payload, Payload::TopologyOk {}));
}

#[test]
fn end_of_input_emits_nothing() {
    let mut n1 = node("n1", &["n1", "n2"]);
    n1.has_update = Some("n2".to_string());
    let out = n1.process_message(Event::EOF);
    assert!(out.is_empty());
    assert_eq!(n1.has_update, Some("n2".to_string()));
}
