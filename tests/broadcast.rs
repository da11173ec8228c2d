use maelstrom_node::broadcast::{BroadcastNode, Callback, InjectedPayload, Payload};
use maelstrom_node::{Body, Event, Init, Message, Node};

fn node(me: &str, all: &[&str]) -> BroadcastNode {
    BroadcastNode::from_init(Init {
        node_id: me.to_string(),
        node_ids: all.iter().map(|s| s.to_string()).collect(),
    })
}

fn msg(src: &str, dest: &str, id: usize, payload: Payload) -> Message<Payload> {
    Message::new(src.to_string(), dest.to_string(), Body::new(Some(id), payload))
}

fn broadcast_of(value: usize, callback: Callback) -> Payload {
    Payload::Broadcast { message: value, callback }
}

#[test]
fn init_excludes_self_from_neighbours() {
    let n = node("n1", &["n1", "n2", "n3"]);
    assert_eq!(n.neighbours, vec!["n2".to_string(), "n3".to_string()]);
    assert_eq!(n.msg_id, 1);
}

#[test]
fn client_broadcast_fans_out_and_acks_then_retries_unacked() {
    let mut n1 = node("n1", &["n1", "n2", "n3"]);
    let out = n1.process_message(Event::Message(msg("c1", "n1", 7, broadcast_of(5, Callback::default()))));
    assert_eq!(out.len(), 3);
    assert_eq!(n1.messages, vec![5]);
    for (k, dest) in ["n2", "n3"].iter().enumerate() {
        assert_eq!(out[k].src, "n1");
        assert_eq!(out[k].dest, *dest);
        assert_eq!(out[k].body.id, Some(1 + k));
        match &out[k].body.payload {
            Payload::Broadcast { message, callback } => {
                assert_eq!(*message, 5);
                assert!(callback.nodes.contains(&"n1".to_string()));
            }
            other => panic!("expected a broadcast, got {:?}", other),
        }
    }
    assert_eq!(out[2].dest, "c1");
    assert_eq!(out[2].body.reply_to, Some(7));
    assert!(matches!(out[2].body.payload, Payload::BroadcastOk {}));
    assert_eq!(n1.callbacks.len(), 2);

    // n2 acknowledges; n3 does not.
    let ack = Message {
        src: "n2".to_string(),
        dest: "n1".to_string(),
        body: Body { id: Some(1), reply_to: out[0].body.id, payload: Payload::BroadcastOk {} },
    };
    let none = n1.process_message(Event::Message(ack));
    assert!(none.is_empty());
    assert_eq!(n1.callbacks.len(), 1);

    let retry = n1.process_message(Event::Injected(InjectedPayload::CallbackTimeout));
    assert_eq!(retry.len(), 1);
    assert_eq!(retry[0].dest, "n3");
    match (&out[1].body.payload, &retry[0].body.payload) {
        (Payload::Broadcast { callback: first, .. }, Payload::Broadcast { message, callback }) => {
            assert_eq!(*message, 5);
            assert_eq!(first.id(), callback.id());
        }
        _ => panic!("expected broadcasts"),
    }
    assert_eq!(n1.callbacks[0].msg_id, retry[0].body.id.unwrap());
}

#[test]
fn redelivery_is_idempotent_but_acknowledged() {
    let mut n1 = node("n1", &["n1", "n2", "n3"]);
    let cb = Callback::new(vec![], "corr".to_string());
    let first = n1.process_message(Event::Message(msg("c1", "n1", 1, broadcast_of(9, cb.clone()))));
    assert_eq!(first.len(), 3);
    let messages = n1.messages.clone();
    let pending = n1.callbacks.len();
    let second = n1.process_message(Event::Message(msg("c1", "n1", 2, broadcast_of(9, cb))));
    assert_eq!(second.len(), 1);
    assert!(matches!(second[0].body.payload, Payload::BroadcastOk {}));
    assert_eq!(second[0].body.reply_to, Some(2));
    assert_eq!(n1.messages, messages);
    assert_eq!(n1.callbacks.len(), pending);
}

#[test]
fn relay_skips_nodes_that_already_relayed() {
    let mut n2 = node("n2", &["n1", "n2", "n3"]);
    let cb = Callback::new(vec!["n1".to_string()], "u".to_string());
    let out = n2.process_message(Event::Message(msg("n1", "n2", 4, broadcast_of(3, cb))));
    assert_eq!(out.len(), 2);
    assert_eq!(out[0].dest, "n3");
    assert_eq!(out[1].dest, "n1");
    assert!(matches!(out[1].body.payload, Payload::BroadcastOk {}));
}

#[test]
fn same_value_under_two_ids_is_stored_once() {
    let mut n1 = node("n1", &["n1"]);
    n1.process_message(Event::Message(msg("c1", "n1", 1, broadcast_of(4, Callback::new(vec![], "a".to_string())))));
    n1.process_message(Event::Message(msg("c2", "n1", 1, broadcast_of(4, Callback::new(vec![], "b".to_string())))));
    assert_eq!(n1.messages, vec![4]);
    assert_eq!(n1.seen_uids.len(), 2);
}

#[test]
fn ack_matches_source_and_message_id() {
    let mut n1 = node("n1", &["n1", "n2", "n3"]);
    let out = n1.process_message(Event::Message(msg("c1", "n1", 1, broadcast_of(5, Callback::default()))));
    // Right id, wrong source: nothing removed.
    let wrong = Message {
        src: "n3".to_string(),
        dest: "n1".to_string(),
        body: Body { id: Some(1), reply_to: out[0].body.id, payload: Payload::BroadcastOk {} },
    };
    n1.process_message(Event::Message(wrong));
    assert_eq!(n1.callbacks.len(), 2);
    // No reply id: nothing removed.
    n1.process_message(Event::Message(msg("n2", "n1", 2, Payload::BroadcastOk {})));
    assert_eq!(n1.callbacks.len(), 2);
}

#[test]
fn tick_at_rest_sends_nothing() {
    let mut n1 = node("n1", &["n1", "n2"]);
    let out = n1.process_message(Event::Injected(InjectedPayload::CallbackTimeout));
    assert!(out.is_empty());
    assert_eq!(n1.msg_id, 1);
}

#[test]
fn read_returns_replica_set() {
    let mut n1 = node("n1", &["n1"]);
    n1.process_message(Event::Message(msg("c1", "n1", 1, broadcast_of(8, Callback::default()))));
    let out = n1.process_message(Event::Message(msg("c1", "n1", 2, Payload::Read {})));
    assert_eq!(out.len(), 1);
    assert_eq!(out[0].body.reply_to, Some(2));
    match &out[0].body.payload {
        Payload::ReadOk { messages } => assert_eq!(messages, &vec![8]),
        other => panic!("expected read_ok, got {:?}", other),
    }
}

#[test]
fn topology_replaces_neighbours_and_acks() {
    let mut n1 = node("n1", &["n1", "n2", "n3"]);
    let topology = vec![
        ("n2".to_string(), vec!["n1".to_string()]),
        ("n1".to_string(), vec!["n4".to_string()]),
    ];
    let out = n1.process_message(Event::Message(msg("c1", "n1", 3, Payload::Topology { topology })));
    assert_eq!(n1.neighbours, vec!["n4".to_string()]);
    assert_eq!(out.len(), 1);
    assert!(matches!(out[0].body.payload, Payload::TopologyOk {}));
    assert_eq!(out[0].body.reply_to, Some(3));
}

#[test]
fn topology_without_this_node_keeps_neighbours() {
    let mut n1 = node("n1", &["n1", "n2"]);
    let topology = vec![("n2".to_string(), vec!["n9".to_string()])];
    let out = n1.process_message(Event::Message(msg("c1", "n1", 3, Payload::Topology { topology })));
    assert_eq!(n1.neighbours, vec!["n2".to_string()]);
    assert!(matches!(out[0].body.payload, Payload::TopologyOk {}));
}

#[test]
fn default_callback_has_fresh_ulid() {
    let a = Callback::default();
    let b = Callback::default();
    assert!(a.nodes.is_empty());
    assert_eq!(a.id().len(), 26);
    assert_ne!(a.id(), b.id());
}

#[test]
fn acknowledging_every_retry_empties_the_table() {
    let mut n1 = node("n1", &["n1", "n2", "n3"]);
    n1.process_message(Event::Message(msg("c1", "n1", 1, broadcast_of(5, Callback::default()))));
    n1.process_message(Event::Message(msg("c1", "n1", 2, broadcast_of(6, Callback::default()))));
    assert_eq!(n1.callbacks.len(), 4);
    let retry = n1.process_message(Event::Injected(InjectedPayload::CallbackTimeout));
    assert_eq!(retry.len(), 4);
    for sent in retry.iter().rev() {
        let ack = Message {
            src: sent.dest.clone(),
            dest: "n1".to_string(),
            body: Body { id: Some(50), reply_to: sent.body.id, payload: Payload::BroadcastOk {} },
        };
        assert!(n1.process_message(Event::Message(ack)).is_empty());
    }
    assert!(n1.callbacks.is_empty());
    let quiet = n1.process_message(Event::Injected(InjectedPayload::CallbackTimeout));
    assert!(quiet.is_empty());
    assert_eq!(n1.messages, vec![5, 6]);
}
