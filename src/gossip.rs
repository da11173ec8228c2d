//! Gossip anti-entropy: client values are relayed once to every neighbour;
//! after that, replica sets are reconciled by periodic pairwise exchange,
//! gated by a dirty flag so that a converged node stays silent.
use vstd::prelude::*;

use crate::message::{answers, reply_from, Body, Event, Init, Message, Node};
use crate::seqs::{
    contains_value, copy_values, distinct, ids, lemma_merged, lemma_minus, lemma_with_value, merge_into,
    merged, minus, minus_values, with_value,
};
use crate::topology::{lookup, neighbours_in, others, without};

verus! {

#[derive(Debug, Clone)]
pub enum Payload {
    Broadcast { message: usize, check: Option<bool> },
    BroadcastOk {},
    Read {},
    ReadOk { messages: Vec<usize> },
    Topology { topology: Vec<(String, Vec<String>)> },
    TopologyOk {},
    Gossip { messages: Vec<usize> },
    GossipOk { messages: Vec<usize> },
}

/// The synthetic event of this protocol: a gossip round is due.
#[derive(Debug, Clone)]
pub enum InjectedPayload {
    GossipTrigger,
}

/// A node of the gossip protocol.
pub struct GossipNode {
    pub id: String,
    pub neighbours: Vec<String>,
    pub msg_id: usize,
    /// The replica set: every value learned, each once.
    pub messages: Vec<usize>,
    /// The dirty flag: set, to the source of the last change, when the
    /// replica set changed since the last gossip round.
    pub has_update: Option<String>,
}

/// Whether `src` names a client (client ids start with `c`).
pub open spec fn from_client(src: Seq<char>) -> bool {
    src.len() > 0 && src[0] == 'c'
}

/// The optional string as characters.
pub open spec fn opt_view(o: Option<String>) -> Option<Seq<char>> {
    match o {
        Some(s) => Some(s@),
        None => None,
    }
}

/// The neighbours, in order, that a gossip round reaches: all but `me` and
/// `last`, the source of the last update.
pub open spec fn gossip_targets(neigh: Seq<Seq<char>>, me: Seq<char>, last: Seq<char>) -> Seq<Seq<char>>
    decreases neigh.len(),
{
    if neigh.len() == 0 {
        neigh
    } else {
        let r = gossip_targets(neigh.drop_last(), me, last);
        if neigh.last() == me || neigh.last() == last {
            r
        } else {
            r.push(neigh.last())
        }
    }
}

/// Whether `m` relays the client value `value` from `src` to `dest` under
/// message id `id`, tagged as already relayed.
pub open spec fn is_relay(m: Message<Payload>, src: Seq<char>, dest: Seq<char>, id: nat, reply_to: Option<usize>, value: usize) -> bool {
    &&& m.src@ == src
    &&& m.dest@ == dest
    &&& m.body.id == Some(id as usize)
    &&& m.body.reply_to == reply_to
    &&& m.body.payload == (Payload::Broadcast { message: value, check: Some(true) })
}

/// Whether `m` gossips the value list `values` from `src` to `dest` under
/// message id `id`.
pub open spec fn is_gossip(m: Message<Payload>, src: Seq<char>, dest: Seq<char>, id: nat, values: Seq<usize>) -> bool {
    &&& m.src@ == src
    &&& m.dest@ == dest
    &&& m.body.id == Some(id as usize)
    &&& m.body.reply_to == None::<usize>
    &&& match m.body.payload {
        Payload::Gossip { messages } => messages@ == values,
        _ => false,
    }
}

/// The dirty flag after merging `theirs` from `src`: set to `src` if the
/// replica set changed, else left as it was.
pub open spec fn flag_after(pre: Option<String>, before: Seq<usize>, after: Seq<usize>, src: Seq<char>) -> Option<Seq<char>> {
    if after != before {
        Some(src)
    } else {
        opt_view(pre)
    }
}

impl GossipNode {
    /// The state after `event`, and the envelopes it emits.
    pub open spec fn step_spec(self, event: Event<Payload, InjectedPayload>, post: Self, out: Seq<Message<Payload>>) -> bool {
        let me = self.id@;
        match event {
            Event::Message(msg) => match msg.body.payload {
                Payload::Broadcast { message, check } => {
                    let fan = if check is None {
                        ids(self.neighbours@)
                    } else {
                        Seq::empty()
                    };
                    let n = fan.len();
                    let acked = from_client(msg.src@);
                    &&& post.id == self.id
                    &&& post.neighbours == self.neighbours
                    &&& post.messages@ == with_value(self.messages@, message)
                    &&& opt_view(post.has_update) == flag_after(self.has_update, self.messages@, post.messages@, msg.src@)
                    &&& post.msg_id == self.msg_id + n + if acked { 1int } else { 0int }
                    &&& out.len() == n + if acked { 1int } else { 0int }
                    &&& forall|j: int|
                        0 <= j < n ==> is_relay(#[trigger] out[j], me, fan[j], (self.msg_id + j) as nat, msg.body.id, message)
                    &&& acked ==> answers(out[n as int], msg, me, (self.msg_id + n) as nat)
                    &&& acked ==> out[n as int].body.payload == (Payload::BroadcastOk {})
                },
                Payload::Gossip { messages } => {
                    &&& post.id == self.id
                    &&& post.neighbours == self.neighbours
                    &&& post.messages@ == merged(self.messages@, messages@)
                    &&& opt_view(post.has_update) == flag_after(self.has_update, self.messages@, post.messages@, msg.src@)
                    &&& post.msg_id == self.msg_id + 1
                    &&& out.len() == 1
                    &&& answers(out[0], msg, me, self.msg_id as nat)
                    &&& match out[0].body.payload {
                        Payload::GossipOk { messages: back } => back@ == minus(self.messages@, messages@),
                        _ => false,
                    }
                },
                Payload::GossipOk { messages } => {
                    &&& post.id == self.id
                    &&& post.neighbours == self.neighbours
                    &&& post.messages@ == merged(self.messages@, messages@)
                    &&& opt_view(post.has_update) == flag_after(self.has_update, self.messages@, post.messages@, msg.src@)
                    &&& post.msg_id == self.msg_id
                    &&& out.len() == 0
                },
                Payload::Read {} => {
                    &&& post.id == self.id
                    &&& post.neighbours == self.neighbours
                    &&& post.messages == self.messages
                    &&& post.has_update == self.has_update
                    &&& post.msg_id == self.msg_id + 1
                    &&& out.len() == 1
                    &&& answers(out[0], msg, me, self.msg_id as nat)
                    &&& match out[0].body.payload {
                        Payload::ReadOk { messages } => messages@ == self.messages@,
                        _ => false,
                    }
                },
                Payload::Topology { topology } => {
                    &&& post.id == self.id
                    &&& post.messages == self.messages
                    &&& post.has_update == self.has_update
                    &&& match lookup(topology@, me) {
                        Some(ns) => ids(post.neighbours@) == ns,
                        None => post.neighbours == self.neighbours,
                    }
                    &&& post.msg_id == self.msg_id + 1
                    &&& out.len() == 1
                    &&& answers(out[0], msg, me, self.msg_id as nat)
                    &&& out[0].body.payload == (Payload::TopologyOk {})
                },
                Payload::BroadcastOk {} | Payload::ReadOk { .. } | Payload::TopologyOk {} => {
                    &&& post == self
                    &&& out.len() == 0
                },
            },
            Event::Injected(_) => match self.has_update {
                None => {
                    &&& post == self
                    &&& out.len() == 0
                },
                Some(last) => {
                    let targets = gossip_targets(ids(self.neighbours@), me, last@);
                    &&& post.id == self.id
                    &&& post.neighbours == self.neighbours
                    &&& post.messages == self.messages
                    &&& post.has_update is None
                    &&& post.msg_id == self.msg_id + targets.len()
                    &&& out.len() == targets.len()
                    &&& forall|j: int|
                        0 <= j < targets.len() ==> is_gossip(
                            #[trigger] out[j],
                            me,
                            targets[j],
                            (self.msg_id + j) as nat,
                            self.messages@,
                        )
                },
            },
            Event::EOF => {
                &&& post == self
                &&& out.len() == 0
            },
        }
    }

    /// Hands out the next message id.
    fn fresh_id(&mut self) -> (r: usize)
        requires
            old(self).msg_id < usize::MAX,
        ensures
            r == old(self).msg_id,
            final(self).msg_id == old(self).msg_id + 1,
            final(self).id == old(self).id,
            final(self).neighbours == old(self).neighbours,
            final(self).messages == old(self).messages,
            final(self).has_update == old(self).has_update,
    {
        let out = self.msg_id;
        self.msg_id = self.msg_id + 1;
        out
    }

    /// Relays the client value `message` to every neighbour, tagged so that
    /// no receiver relays it again.
    fn broadcast(&mut self, reply_to: Option<usize>, message: usize, out: &mut Vec<Message<Payload>>)
        requires
            old(self).msg_id + old(self).neighbours.len() < usize::MAX,
            old(out)@.len() == 0,
        ensures
            final(self).id == old(self).id,
            final(self).neighbours == old(self).neighbours,
            final(self).messages == old(self).messages,
            final(self).has_update == old(self).has_update,
            final(self).msg_id == old(self).msg_id + old(self).neighbours.len(),
            final(out)@.len() == old(self).neighbours.len(),
            forall|j: int|
                0 <= j < old(self).neighbours.len() ==> is_relay(
                    #[trigger] final(out)@[j],
                    old(self).id@,
                    ids(old(self).neighbours@)[j],
                    (old(self).msg_id + j) as nat,
                    reply_to,
                    message,
                ),
    {
        let ghost pre = *self;
        let mut i: usize = 0;
        while i < self.neighbours.len()
            invariant
                0 <= i <= self.neighbours.len(),
                self.id == pre.id,
                self.neighbours == pre.neighbours,
                self.messages == pre.messages,
                self.has_update == pre.has_update,
                self.msg_id == pre.msg_id + i,
                pre.msg_id + pre.neighbours.len() < usize::MAX,
                out@.len() == i,
                forall|j: int|
                    0 <= j < i ==> is_relay(
                        #[trigger] out@[j],
                        pre.id@,
                        ids(pre.neighbours@)[j],
                        (pre.msg_id + j) as nat,
                        reply_to,
                        message,
                    ),
            decreases self.neighbours.len() - i,
        {
            let id = self.fresh_id();
            let m = Message {
                src: self.id.clone(),
                dest: self.neighbours[i].clone(),
                body: Body { id: Some(id), reply_to, payload: Payload::Broadcast { message, check: Some(true) } },
            };
            out.push(m);
            i = i + 1;
        }
    }

    /// Handles a `Broadcast`: relays a client-origin value once, applies it,
    /// and acknowledges it to a client.
    fn on_broadcast(&mut self, msg: Message<Payload>) -> (out: Vec<Message<Payload>>)
        requires
            msg.body.payload is Broadcast,
            distinct(old(self).messages@),
            old(self).msg_id + old(self).neighbours.len() + 1 < usize::MAX,
        ensures
            distinct(final(self).messages@),
            old(self).step_spec(Event::Message(msg), *final(self), out@),
    {
        let ghost pre = *self;
        let (message, relayed) = match &msg.body.payload {
            Payload::Broadcast { message, check } => (*message, check.is_some()),
            _ => {
                return Vec::new();
            },
        };
        let mut out: Vec<Message<Payload>> = Vec::new();
        if !relayed {
            self.broadcast(msg.body.id, message, &mut out);
        }
        proof {
            lemma_with_value(pre.messages@, message);
        }
        if !contains_value(&self.messages, message) {
            self.messages.push(message);
            self.has_update = Some(msg.src.clone());
        }
        let ghost mid = out@;
        if from_client_id(&msg.src) {
            let id = self.fresh_id();
            let me = self.id.clone();
            out.push(reply_from(me, id, msg, Payload::BroadcastOk {}));
            assert forall|j: int| 0 <= j < mid.len() implies out@[j] == mid[j] by {}
        }
        out
    }

    /// Handles a `Gossip`: answers with the values the sender lacks, then
    /// merges the sender's values.
    fn on_gossip(&mut self, msg: Message<Payload>) -> (out: Vec<Message<Payload>>)
        requires
            msg.body.payload is Gossip,
            distinct(old(self).messages@),
            old(self).msg_id < usize::MAX,
        ensures
            distinct(final(self).messages@),
            old(self).step_spec(Event::Message(msg), *final(self), out@),
    {
        let ghost pre = *self;
        let theirs = match &msg.body.payload {
            Payload::Gossip { messages } => copy_values(messages),
            _ => {
                return Vec::new();
            },
        };
        let back = minus_values(&self.messages, &theirs);
        let src = msg.src.clone();
        let id = self.fresh_id();
        let me = self.id.clone();
        let mut out: Vec<Message<Payload>> = Vec::new();
        out.push(reply_from(me, id, msg, Payload::GossipOk { messages: back }));
        proof {
            lemma_merged(pre.messages@, theirs@);
        }
        if merge_into(&mut self.messages, &theirs) {
            self.has_update = Some(src);
        }
        out
    }

    /// Handles a `GossipOk`: merges the values that the peer sent back.
    fn on_gossip_ok(&mut self, msg: Message<Payload>)
        requires
            msg.body.payload is GossipOk,
            distinct(old(self).messages@),
        ensures
            distinct(final(self).messages@),
            old(self).step_spec(Event::Message(msg), *final(self), Seq::empty()),
    {
        let ghost pre = *self;
        if let Payload::GossipOk { messages } = &msg.body.payload {
            proof {
                lemma_merged(pre.messages@, messages@);
            }
            if merge_into(&mut self.messages, messages) {
                self.has_update = Some(msg.src.clone());
            }
        }
    }

    /// Handles a `Read`: answers with a copy of the replica set.
    fn on_read(&mut self, msg: Message<Payload>) -> (out: Vec<Message<Payload>>)
        requires
            msg.body.payload is Read,
            old(self).msg_id < usize::MAX,
        ensures
            old(self).step_spec(Event::Message(msg), *final(self), out@),
    {
        let messages = copy_values(&self.messages);
        let id = self.fresh_id();
        let me = self.id.clone();
        let mut out: Vec<Message<Payload>> = Vec::new();
        out.push(reply_from(me, id, msg, Payload::ReadOk { messages }));
        out
    }

    /// Handles a `Topology` update: takes the list given to this node, if
    /// any, as the new neighbour set, and acknowledges.
    fn on_topology(&mut self, msg: Message<Payload>) -> (out: Vec<Message<Payload>>)
        requires
            msg.body.payload is Topology,
            old(self).msg_id < usize::MAX,
        ensures
            old(self).step_spec(Event::Message(msg), *final(self), out@),
    {
        if let Payload::Topology { topology } = &msg.body.payload {
            if let Some(neighbours) = neighbours_in(topology, &self.id) {
                self.neighbours = neighbours;
            }
        }
        let id = self.fresh_id();
        let me = self.id.clone();
        let mut out: Vec<Message<Payload>> = Vec::new();
        out.push(reply_from(me, id, msg, Payload::TopologyOk {}));
        out
    }

    /// Handles a gossip tick: if the replica set changed since the last
    /// round, clears the flag and sends the whole set to every neighbour but
    /// the source of the last update.
    fn on_tick(&mut self) -> (out: Vec<Message<Payload>>)
        requires
            old(self).msg_id + old(self).neighbours.len() < usize::MAX,
        ensures
            old(self).step_spec(Event::Injected(InjectedPayload::GossipTrigger), *final(self), out@),
    {
        let mut out: Vec<Message<Payload>> = Vec::new();
        let last = match self.has_update.take() {
            Some(last) => last,
            None => {
                return out;
            },
        };
        let ghost pre = *self;
        let ghost neigh = ids(self.neighbours@);
        let mut i: usize = 0;
        while i < self.neighbours.len()
            invariant
                0 <= i <= self.neighbours.len(),
                self.id == pre.id,
                self.neighbours == pre.neighbours,
                self.messages == pre.messages,
                self.has_update == pre.has_update,
                neigh == ids(self.neighbours@),
                pre.msg_id + pre.neighbours.len() < usize::MAX,
                ({
                    let t = gossip_targets(neigh.take(i as int), pre.id@, last@);
                    &&& t.len() <= i
                    &&& self.msg_id == pre.msg_id + t.len()
                    &&& out@.len() == t.len()
                    &&& forall|j: int|
                        0 <= j < t.len() ==> is_gossip(
                            #[trigger] out@[j],
                            pre.id@,
                            t[j],
                            (pre.msg_id + j) as nat,
                            pre.messages@,
                        )
                }),
            decreases self.neighbours.len() - i,
        {
            let ghost t = gossip_targets(neigh.take(i as int), pre.id@, last@);
            let ghost o0 = out@;
            assert(neigh.take(i as int + 1).drop_last() =~= neigh.take(i as int));
            assert(neigh.take(i as int + 1).last() == neigh[i as int]);
            assert(neigh[i as int] == self.neighbours@[i as int]@);
            if !(self.neighbours[i] == self.id || self.neighbours[i] == last) {
                let id = self.fresh_id();
                let m = Message::new(
                    self.id.clone(),
                    self.neighbours[i].clone(),
                    Body::new(Some(id), Payload::Gossip { messages: copy_values(&self.messages) }),
                );
                out.push(m);
                proof {
                    let t2 = gossip_targets(neigh.take(i as int + 1), pre.id@, last@);
                    assert(t2 == t.push(neigh[i as int]));
                    assert forall|j: int| 0 <= j < t2.len() implies is_gossip(
                        #[trigger] out@[j],
                        pre.id@,
                        t2[j],
                        (pre.msg_id + j) as nat,
                        pre.messages@,
                    ) by {
                        if j < t.len() {
                            assert(out@[j] == o0[j]);
                        }
                    }
                }
            }
            i = i + 1;
        }
        assert(neigh.take(self.neighbours.len() as int) =~= neigh);
        out
    }
}

/// Whether `src` names a client.
fn from_client_id(src: &String) -> (r: bool)
    ensures
        r == from_client(src@),
{
    let s = src.as_str();
    s.unicode_len() > 0 && s.get_char(0) == 'c'
}

impl Node<Payload, InjectedPayload> for GossipNode {
    open spec fn node_id_view(&self) -> Seq<char> {
        self.id@
    }

    open spec fn next_id_view(&self) -> nat {
        self.msg_id as nat
    }

    open spec fn wf(&self) -> bool {
        distinct(self.messages@)
    }

    open spec fn init_spec(init: Init, r: Self) -> bool {
        &&& r.id@ == init.node_id@
        &&& ids(r.neighbours@) == without(ids(init.node_ids@), init.node_id@)
        &&& r.msg_id == 1
        &&& r.messages@.len() == 0
        &&& r.has_update is None
    }

    open spec fn has_room(&self, event: Event<Payload, InjectedPayload>) -> bool {
        self.msg_id + self.neighbours.len() + 1 < usize::MAX
    }

    open spec fn step(&self, event: Event<Payload, InjectedPayload>, post: Self, out: Seq<Message<Payload>>) -> bool {
        self.step_spec(event, post, out)
    }

    fn from_init(init: Init) -> (r: Self) {
        let neighbours = others(&init.node_ids, &init.node_id);
        GossipNode { id: init.node_id, neighbours, msg_id: 1, messages: Vec::new(), has_update: None }
    }

    fn next_msg_id(&mut self) -> (r: usize) {
        self.fresh_id()
    }

    fn node_id(&self) -> (r: String) {
        self.id.clone()
    }

    fn can_handle(&self, event: &Event<Payload, InjectedPayload>) -> (r: bool) {
        (self.msg_id as u128) + (self.neighbours.len() as u128) + 1 < usize::MAX as u128
    }

    fn process_message(&mut self, event: Event<Payload, InjectedPayload>) -> (out: Vec<Message<Payload>>) {
        match event {
            Event::Message(msg) => {
                if matches!(msg.body.payload, Payload::Broadcast { .. }) {
                    self.on_broadcast(msg)
                } else if matches!(msg.body.payload, Payload::Gossip { .. }) {
                    self.on_gossip(msg)
                } else if matches!(msg.body.payload, Payload::GossipOk { .. }) {
                    self.on_gossip_ok(msg);
                    Vec::new()
                } else if matches!(msg.body.payload, Payload::Read { .. }) {
                    self.on_read(msg)
                } else if matches!(msg.body.payload, Payload::Topology { .. }) {
                    self.on_topology(msg)
                } else {
                    Vec::new()
                }
            },
            Event::Injected(InjectedPayload::GossipTrigger) => self.on_tick(),
            Event::EOF => Vec::new(),
        }
    }
}

/// The values that a `Gossip` or `GossipOk` payload carries.
pub open spec fn carried(p: Payload) -> Seq<usize> {
    match p {
        Payload::Gossip { messages } => messages@,
        Payload::GossipOk { messages } => messages@,
        _ => Seq::empty(),
    }
}

/// Reconciliation: when node `a` gossips its whole replica set to node `b`
/// and merges `b`'s answer, `b`'s answer holds exactly the values that `a`
/// lacked, and both replica sets become the union of the two.
pub proof fn lemma_gossip_exchange_reconciles(
    a: GossipNode,
    b: GossipNode,
    gossip: Message<Payload>,
    b_post: GossipNode,
    b_out: Seq<Message<Payload>>,
    a_post: GossipNode,
    a_out: Seq<Message<Payload>>,
)
    requires
        a.wf(),
        b.wf(),
        gossip.body.payload is Gossip,
        carried(gossip.body.payload) == a.messages@,
        b.step_spec(Event::Message(gossip), b_post, b_out),
        a.step_spec(Event::Message(b_out[0]), a_post, a_out),
    ensures
        carried(b_out[0].body.payload).to_set() == b.messages@.to_set().difference(a.messages@.to_set()),
        b_post.messages@.to_set() == a.messages@.to_set().union(b.messages@.to_set()),
        a_post.messages@.to_set() == a.messages@.to_set().union(b.messages@.to_set()),
        a_out.len() == 0,
{
    let av = a.messages@;
    let bv = b.messages@;
    let back = carried(b_out[0].body.payload);
    lemma_minus(bv, av);
    lemma_merged(bv, av);
    lemma_merged(av, back);
    assert(b_post.messages@.to_set() =~= av.to_set().union(bv.to_set()));
    assert(a_post.messages@.to_set() =~= av.to_set().union(bv.to_set()));
}

/// No work at rest: with the dirty flag clear, a gossip tick emits nothing
/// and changes nothing.
pub proof fn lemma_tick_at_rest_is_silent(s: GossipNode, tick: InjectedPayload, post: GossipNode, out: Seq<Message<Payload>>)
    requires
        s.has_update is None,
        s.step_spec(Event::Injected(tick), post, out),
    ensures
        out.len() == 0,
        post == s,
{
}

/// A dirty round: with the dirty flag set, a tick clears it and sends the
/// whole replica set to every neighbour but this node and the source of the
/// last update.
pub proof fn lemma_dirty_tick_pushes_whole_set(
    s: GossipNode,
    tick: InjectedPayload,
    post: GossipNode,
    out: Seq<Message<Payload>>,
    j: int,
)
    requires
        s.has_update is Some,
        s.step_spec(Event::Injected(tick), post, out),
        0 <= j < out.len(),
    ensures
        post.has_update is None,
        carried(out[j].body.payload) == s.messages@,
        out[j].dest@ != s.id@,
        out[j].dest@ != s.has_update->Some_0@,
        ids(s.neighbours@).contains(out[j].dest@),
{
    let last = s.has_update->Some_0@;
    lemma_gossip_targets_in(ids(s.neighbours@), s.id@, last, j);
}

/// Every target of a gossip round is a neighbour other than `me` and `last`.
pub proof fn lemma_gossip_targets_in(neigh: Seq<Seq<char>>, me: Seq<char>, last: Seq<char>, j: int)
    requires
        0 <= j < gossip_targets(neigh, me, last).len(),
    ensures
        neigh.contains(gossip_targets(neigh, me, last)[j]),
        gossip_targets(neigh, me, last)[j] != me,
        gossip_targets(neigh, me, last)[j] != last,
    decreases neigh.len(),
{
    let rest = neigh.drop_last();
    let r = gossip_targets(rest, me, last);
    if j < r.len() {
        lemma_gossip_targets_in(rest, me, last, j);
        let k = choose|k: int| 0 <= k < rest.len() && rest[k] == r[j];
        assert(neigh[k] == rest[k]);
    } else {
        assert(neigh[neigh.len() - 1] == neigh.last());
    }
}

/// Topology replacement: an update that names this node makes its
/// neighbour set exactly the list given for it.
pub proof fn lemma_topology_replaces_neighbours(
    s: GossipNode,
    update: Message<Payload>,
    post: GossipNode,
    out: Seq<Message<Payload>>,
    given: Seq<Seq<char>>,
)
    requires
        update.body.payload matches Payload::Topology { topology } && lookup(topology@, s.id@) == Some(given),
        s.step_spec(Event::Message(update), post, out),
    ensures
        ids(post.neighbours@) == given,
        out.len() == 1,
        out[0].body.payload == (Payload::TopologyOk {}),
{
}

/// Growth: no event removes a value from the replica set.
pub proof fn lemma_replica_set_only_grows(
    s: GossipNode,
    event: Event<Payload, InjectedPayload>,
    post: GossipNode,
    out: Seq<Message<Payload>>,
)
    requires
        s.wf(),
        s.step_spec(event, post, out),
    ensures
        s.messages@.to_set().subset_of(post.messages@.to_set()),
{
    match event {
        Event::Message(msg) => match msg.body.payload {
            Payload::Broadcast { message, .. } => {
                lemma_with_value(s.messages@, message);
            },
            Payload::Gossip { messages } => {
                lemma_merged(s.messages@, messages@);
            },
            Payload::GossipOk { messages } => {
                lemma_merged(s.messages@, messages@);
            },
            _ => {},
        },
        _ => {},
    }
}

/// The values that an event brings in: a broadcast's value, or the values
/// a gossip exchange carries.
pub open spec fn brought(event: Event<Payload, InjectedPayload>) -> Set<usize> {
    match event {
        Event::Message(msg) => match msg.body.payload {
            Payload::Broadcast { message, .. } => set![message],
            Payload::Gossip { messages } => messages@.to_set(),
            Payload::GossipOk { messages } => messages@.to_set(),
            _ => Set::empty(),
        },
        _ => Set::empty(),
    }
}

/// No invented values: after any event the replica set holds only what it
/// held before and what the event brought in, so no node ever holds more
/// than the union of the values broadcast by clients.
pub proof fn lemma_replica_set_learns_only_brought_values(
    s: GossipNode,
    event: Event<Payload, InjectedPayload>,
    post: GossipNode,
    out: Seq<Message<Payload>>,
)
    requires
        s.wf(),
        s.step_spec(event, post, out),
    ensures
        post.messages@.to_set() == s.messages@.to_set().union(brought(event)),
{
    match event {
        Event::Message(msg) => match msg.body.payload {
            Payload::Broadcast { message, .. } => {
                lemma_with_value(s.messages@, message);
                assert(s.messages@.to_set().insert(message) =~= s.messages@.to_set().union(set![message]));
            },
            Payload::Gossip { messages } => {
                lemma_merged(s.messages@, messages@);
            },
            Payload::GossipOk { messages } => {
                lemma_merged(s.messages@, messages@);
            },
            _ => {
                assert(s.messages@.to_set().union(Set::empty()) =~= s.messages@.to_set());
            },
        },
        _ => {
            assert(s.messages@.to_set().union(Set::empty()) =~= s.messages@.to_set());
        },
    }
}

} // verus!
