//! Echo: every request is answered with its own text.
use vstd::prelude::*;

use crate::message::{answers, reply_from, Event, Init, Message, Node};

verus! {

#[derive(Debug, Clone)]
pub enum Payload {
    Echo { echo: String },
    EchoOk { echo: String },
}

/// A node of the echo protocol.
pub struct EchoNode {
    pub id: String,
    pub msg_id: usize,
}

impl EchoNode {
    /// The state after `event`, and the envelopes it emits.
    pub open spec fn step_spec(self, event: Event<Payload, ()>, post: Self, out: Seq<Message<Payload>>) -> bool {
        match event {
            Event::Message(msg) => match msg.body.payload {
                Payload::Echo { echo } => {
                    &&& post.id == self.id
                    &&& post.msg_id == self.msg_id + 1
                    &&& out.len() == 1
                    &&& answers(out[0], msg, self.id@, self.msg_id as nat)
                    &&& match out[0].body.payload {
                        Payload::EchoOk { echo: back } => back@ == echo@,
                        _ => false,
                    }
                },
                Payload::EchoOk { .. } => {
                    &&& post == self
                    &&& out.len() == 0
                },
            },
            _ => {
                &&& post == self
                &&& out.len() == 0
            },
        }
    }
}

impl Node<Payload, ()> for EchoNode {
    open spec fn node_id_view(&self) -> Seq<char> {
        self.id@
    }

    open spec fn next_id_view(&self) -> nat {
        self.msg_id as nat
    }

    open spec fn wf(&self) -> bool {
        true
    }

    open spec fn init_spec(init: Init, r: Self) -> bool {
        &&& r.id@ == init.node_id@
        &&& r.msg_id == 1
    }

    open spec fn has_room(&self, event: Event<Payload, ()>) -> bool {
        self.msg_id < usize::MAX
    }

    open spec fn step(&self, event: Event<Payload, ()>, post: Self, out: Seq<Message<Payload>>) -> bool {
        self.step_spec(event, post, out)
    }

    fn from_init(init: Init) -> (r: Self) {
        EchoNode { id: init.node_id, msg_id: 1 }
    }

    fn next_msg_id(&mut self) -> (r: usize) {
        let out = self.msg_id;
        self.msg_id = self.msg_id + 1;
        out
    }

    fn node_id(&self) -> (r: String) {
        self.id.clone()
    }

    fn can_handle(&self, event: &Event<Payload, ()>) -> (r: bool) {
        self.msg_id < usize::MAX
    }

    fn process_message(&mut self, event: Event<Payload, ()>) -> (out: Vec<Message<Payload>>) {
        let mut out: Vec<Message<Payload>> = Vec::new();
        if let Event::Message(msg) = event {
            let echo = match &msg.body.payload {
                Payload::Echo { echo } => echo.clone(),
                Payload::EchoOk { .. } => {
                    return out;
                },
            };
            let id = self.msg_id;
            self.msg_id = self.msg_id + 1;
            out.push(reply_from(self.id.clone(), id, msg, Payload::EchoOk { echo }));
        }
        out
    }
}

} // verus!
