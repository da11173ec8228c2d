use vstd::prelude::*;

verus! {

/// One envelope of the transport: who sent it, to whom, and what it carries.
#[derive(Debug, Clone)]
pub struct Message<Payload> {
    pub src: String,
    pub dest: String,
    pub body: Body<Payload>,
}

/// The body of an envelope: the sender's message id, the id of the request
/// it answers, and the protocol payload.
#[derive(Debug, Clone)]
pub struct Body<Payload> {
    pub id: Option<usize>,
    pub reply_to: Option<usize>,
    pub payload: Payload,
}

/// The handshake: this node's identity and the ids of every cluster member.
#[derive(Debug, Clone)]
pub struct Init {
    pub node_id: String,
    pub node_ids: Vec<String>,
}

/// What the driver hands to a node: an inbound envelope, a synthetic event
/// (a timer tick), or the end of input.
#[derive(Debug, Clone)]
pub enum Event<Payload, InjectedPayload = ()> {
    Message(Message<Payload>),
    Injected(InjectedPayload),
    EOF,
}

impl<Payload> Message<Payload> {
    pub fn new(src: String, dest: String, body: Body<Payload>) -> (r: Self)
        ensures
            r.src == src,
            r.dest == dest,
            r.body == body,
    {
        Message { src, dest, body }
    }
}

impl<Payload> Body<Payload> {
    pub fn new(id: Option<usize>, payload: Payload) -> (r: Self)
        ensures
            r.id == id,
            r.reply_to == None::<usize>,
            r.payload == payload,
    {
        Body { id, reply_to: None, payload }
    }
}

/// Whether `r` is addressed as the answer to `msg` sent by `me` under the
/// fresh id `id`: source and destination swapped, the request's id copied
/// into `reply_to`.
pub open spec fn answers<P>(r: Message<P>, msg: Message<P>, me: Seq<char>, id: nat) -> bool {
    &&& r.src@ == me
    &&& r.dest@ == msg.src@
    &&& r.body.id == Some(id as usize)
    &&& r.body.reply_to == msg.body.id
}

/// Whether `r` is the answer to `msg` sent by `me` under the fresh id `id`,
/// carrying `payload`.
pub open spec fn is_reply_to<P>(r: Message<P>, msg: Message<P>, me: Seq<char>, id: nat, payload: P) -> bool {
    &&& answers(r, msg, me, id)
    &&& r.body.payload == payload
}

/// Builds the answer to `msg` from node `me` under message id `id`.
pub fn reply_from<P>(me: String, id: usize, msg: Message<P>, payload: P) -> (r: Message<P>)
    ensures
        is_reply_to(r, msg, me@, id as nat, payload),
{
    let mut body = msg.body;
    body.reply_to = body.id;
    body.id = Some(id);
    body.payload = payload;
    Message { src: me, dest: msg.src, body }
}

/// A node of the cluster: a state machine that reacts to one event at a time
/// and emits the envelopes that the event calls for.
pub trait Node<Payload, InjectedPayload = ()>: Sized {
    /// The node's identity.
    spec fn node_id_view(&self) -> Seq<char>;

    /// The message id that the node hands out next.
    spec fn next_id_view(&self) -> nat;

    /// The node's internal invariant.
    spec fn wf(&self) -> bool;

    /// Whether `r` is the state that the handshake `init` sets up.
    spec fn init_spec(init: Init, r: Self) -> bool;

    /// Whether enough message ids are left to handle `event`.
    spec fn has_room(&self, event: Event<Payload, InjectedPayload>) -> bool;

    /// How the node moves from `self` to `post` on `event`, emitting `out`.
    spec fn step(
        &self,
        event: Event<Payload, InjectedPayload>,
        post: Self,
        out: Seq<Message<Payload>>,
    ) -> bool;

    fn from_init(init: Init) -> (r: Self)
        ensures
            Self::init_spec(init, r),
            r.wf(),
            r.node_id_view() == init.node_id@,
            r.next_id_view() == 1,
    ;

    fn next_msg_id(&mut self) -> (r: usize)
        requires
            old(self).next_id_view() < usize::MAX,
        ensures
            r as nat == old(self).next_id_view(),
            final(self).next_id_view() == old(self).next_id_view() + 1,
            final(self).node_id_view() == old(self).node_id_view(),
    ;

    fn node_id(&self) -> (r: String)
        ensures
            r@ == self.node_id_view(),
    ;

    /// Whether enough message ids are left to handle `event`.
    fn can_handle(&self, event: &Event<Payload, InjectedPayload>) -> (r: bool)
        ensures
            r == self.has_room(*event),
    ;

    fn process_message(&mut self, event: Event<Payload, InjectedPayload>) -> (out: Vec<Message<Payload>>)
        requires
            old(self).wf(),
            old(self).has_room(event),
        ensures
            final(self).wf(),
            old(self).step(event, *final(self), out@),
    ;

    /// Answers `msg` with `payload` under a fresh message id.
    fn reply(&mut self, msg: Message<Payload>, payload: Payload) -> (r: Message<Payload>)
        requires
            old(self).next_id_view() < usize::MAX,
        ensures
            is_reply_to(r, msg, old(self).node_id_view(), old(self).next_id_view(), payload),
            final(self).next_id_view() == old(self).next_id_view() + 1,
            final(self).node_id_view() == old(self).node_id_view(),
    {
        let id = self.next_msg_id();
        let me = self.node_id();
        reply_from(me, id, msg, payload)
    }
}

} // verus!
