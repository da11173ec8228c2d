//! Reliable broadcast: each new value is applied locally, fanned out to the
//! neighbours that have not relayed it yet, and re-sent on every timer tick to
//! each neighbour until that neighbour acknowledges it.
use vstd::prelude::*;

use crate::message::{answers, reply_from, Body, Event, Init, Message, Node};
use crate::seqs::{contains_id, contains_value, copy_ids, copy_values, distinct, ids, lemma_with_value, with_value};
use crate::topology::{lookup, neighbours_in, others, without};
use crate::unique::generate_unique_id;

verus! {

/// The correlation data that travels with a broadcast: the nodes that have
/// already relayed it, and the id that names this broadcast cluster-wide.
#[derive(Debug, Clone)]
pub struct Callback {
    pub nodes: Vec<String>,
    pub uid: String,
}

impl Callback {
    /// The correlation id.
    pub open spec fn uid_view(&self) -> Seq<char> {
        self.uid@
    }

    pub fn new(nodes: Vec<String>, uid: String) -> (r: Self)
        ensures
            r.nodes == nodes,
            r.uid_view() == uid@,
    {
        Callback { nodes, uid }
    }

    pub fn id(&self) -> (r: &String)
        ensures
            r@ == self.uid_view(),
    {
        &self.uid
    }

    /// A copy that keeps the relay list and the correlation id.
    pub fn copy(&self) -> (r: Self)
        ensures
            ids(r.nodes@) == ids(self.nodes@),
            r.uid_view() == self.uid_view(),
    {
        Callback { nodes: copy_ids(&self.nodes), uid: self.uid.clone() }
    }
}

impl Default for Callback {
    /// No relay yet, under a freshly generated correlation id.
    fn default() -> (r: Self)
        ensures
            r.nodes@.len() == 0,
            r.uid_view().len() == 26,
    {
        Callback { nodes: Vec::new(), uid: generate_unique_id() }
    }
}

#[derive(Debug, Clone)]
pub enum Payload {
    Broadcast { message: usize, callback: Callback },
    BroadcastOk {},
    Read {},
    ReadOk { messages: Vec<usize> },
    Topology { topology: Vec<(String, Vec<String>)> },
    TopologyOk {},
}

/// The synthetic event of this protocol: the retry timer fired.
#[derive(Debug, Clone)]
pub enum InjectedPayload {
    CallbackTimeout,
}

/// A broadcast sent to `node` as message `msg_id` and not acknowledged yet.
#[derive(Debug, Clone)]
pub struct Pending {
    pub message: usize,
    pub node: String,
    pub msg_id: usize,
    pub uid: String,
}

/// The value, neighbour, outbound id and correlation id of an entry.
pub type PendingView = (usize, Seq<char>, usize, Seq<char>);

pub open spec fn pending_view(p: Pending) -> PendingView {
    (p.message, p.node@, p.msg_id, p.uid@)
}

pub open spec fn pendings(s: Seq<Pending>) -> Seq<PendingView> {
    s.map_values(|p: Pending| pending_view(p))
}

/// A node of the reliable-broadcast protocol.
pub struct BroadcastNode {
    pub id: String,
    pub neighbours: Vec<String>,
    pub msg_id: usize,
    /// The replica set: every value learned, each once.
    pub messages: Vec<usize>,
    /// The correlation ids already applied.
    pub seen_uids: Vec<String>,
    /// The outstanding deliveries.
    pub callbacks: Vec<Pending>,
}

/// The neighbours, in order, that are not among `visited`.
pub open spec fn fanout(neigh: Seq<Seq<char>>, visited: Seq<Seq<char>>) -> Seq<Seq<char>>
    decreases neigh.len(),
{
    if neigh.len() == 0 {
        neigh
    } else {
        let r = fanout(neigh.drop_last(), visited);
        if visited.contains(neigh.last()) {
            r
        } else {
            r.push(neigh.last())
        }
    }
}

/// A fan-out reaches each neighbour at most once.
pub proof fn lemma_fanout_len(neigh: Seq<Seq<char>>, visited: Seq<Seq<char>>)
    ensures
        fanout(neigh, visited).len() <= neigh.len(),
    decreases neigh.len(),
{
    if neigh.len() > 0 {
        lemma_fanout_len(neigh.drop_last(), visited);
    }
}

/// The outstanding entries that an acknowledgment from `src` answering
/// `reply_to` leaves: all but those sent to `src` as that very message.
pub open spec fn unacked(s: Seq<PendingView>, src: Seq<char>, reply_to: Option<usize>) -> Seq<PendingView>
    decreases s.len(),
{
    if s.len() == 0 {
        s
    } else {
        let r = unacked(s.drop_last(), src, reply_to);
        if s.last().1 == src && reply_to == Some(s.last().2) {
            r
        } else {
            r.push(s.last())
        }
    }
}

/// Whether `m` is a broadcast of `value` from `src` to `dest` under message
/// id `id`, with correlation id `uid` and relay list `visited`.
pub open spec fn is_broadcast(
    m: Message<Payload>,
    src: Seq<char>,
    dest: Seq<char>,
    id: nat,
    reply_to: Option<usize>,
    value: usize,
    uid: Seq<char>,
    visited: Seq<Seq<char>>,
) -> bool {
    &&& m.src@ == src
    &&& m.dest@ == dest
    &&& m.body.id == Some(id as usize)
    &&& m.body.reply_to == reply_to
    &&& match m.body.payload {
        Payload::Broadcast { message, callback } => {
            &&& message == value
            &&& callback.uid_view() == uid
            &&& ids(callback.nodes@) == visited
        },
        _ => false,
    }
}

/// The entries recorded for a fan-out of `value` under `uid` to `targets`,
/// the first sent as message `first`.
pub open spec fn sent_entries(value: usize, targets: Seq<Seq<char>>, first: nat, uid: Seq<char>) -> Seq<PendingView> {
    Seq::new(targets.len(), |j: int| (value, targets[j], (first + j) as usize, uid))
}

/// The entries after a retry round that re-sent `s` from message id `first` on.
pub open spec fn resent_entries(s: Seq<PendingView>, first: nat) -> Seq<PendingView> {
    Seq::new(s.len(), |j: int| (s[j].0, s[j].1, (first + j) as usize, s[j].3))
}

impl BroadcastNode {
    /// The fields that only handshake and topology change.
    pub open spec fn same_place(&self, post: Self) -> bool {
        &&& post.id == self.id
        &&& post.neighbours == self.neighbours
    }

    /// Nothing changes but the message counter.
    pub open spec fn same_data(&self, post: Self) -> bool {
        &&& post.id == self.id
        &&& post.neighbours == self.neighbours
        &&& post.messages == self.messages
        &&& post.seen_uids == self.seen_uids
        &&& post.callbacks == self.callbacks
    }

    /// The state after `event`, and the envelopes it emits.
    pub open spec fn step_spec(self, event: Event<Payload, InjectedPayload>, post: Self, out: Seq<Message<Payload>>) -> bool {
        let me = self.id@;
        match event {
            Event::Message(msg) => match msg.body.payload {
                Payload::Broadcast { message, callback } => {
                    let uid = callback.uid_view();
                    if ids(self.seen_uids@).contains(uid) {
                        &&& self.same_data(post)
                        &&& post.msg_id == self.msg_id + 1
                        &&& out.len() == 1
                        &&& answers(out[0], msg, me, self.msg_id as nat)
                        &&& out[0].body.payload == (Payload::BroadcastOk {})
                    } else {
                        let visited = ids(callback.nodes@).push(me);
                        let targets = fanout(ids(self.neighbours@), visited);
                        let n = targets.len();
                        &&& self.same_place(post)
                        &&& post.messages@ == with_value(self.messages@, message)
                        &&& ids(post.seen_uids@) == ids(self.seen_uids@).push(uid)
                        &&& pendings(post.callbacks@) == pendings(self.callbacks@) + sent_entries(
                            message,
                            targets,
                            self.msg_id as nat,
                            uid,
                        )
                        &&& post.msg_id == self.msg_id + n + 1
                        &&& out.len() == n + 1
                        &&& forall|j: int|
                            0 <= j < n ==> is_broadcast(
                                #[trigger] out[j],
                                me,
                                targets[j],
                                (self.msg_id + j) as nat,
                                msg.body.id,
                                message,
                                uid,
                                visited,
                            )
                        &&& answers(out[n as int], msg, me, (self.msg_id + n) as nat)
                        &&& out[n as int].body.payload == (Payload::BroadcastOk {})
                    }
                },
                Payload::BroadcastOk {} => {
                    &&& self.same_place(post)
                    &&& post.messages == self.messages
                    &&& post.seen_uids == self.seen_uids
                    &&& post.msg_id == self.msg_id
                    &&& pendings(post.callbacks@) == unacked(pendings(self.callbacks@), msg.src@, msg.body.reply_to)
                    &&& out.len() == 0
                },
                Payload::Read {} => {
                    &&& self.same_data(post)
                    &&& post.msg_id == self.msg_id + 1
                    &&& out.len() == 1
                    &&& answers(out[0], msg, me, self.msg_id as nat)
                    &&& match out[0].body.payload {
                        Payload::ReadOk { messages } => messages@ == self.messages@,
                        _ => false,
                    }
                },
                Payload::Topology { topology } => {
                    &&& post.id == self.id
                    &&& post.messages == self.messages
                    &&& post.seen_uids == self.seen_uids
                    &&& post.callbacks == self.callbacks
                    &&& match lookup(topology@, me) {
                        Some(ns) => ids(post.neighbours@) == ns,
                        None => post.neighbours == self.neighbours,
                    }
                    &&& post.msg_id == self.msg_id + 1
                    &&& out.len() == 1
                    &&& answers(out[0], msg, me, self.msg_id as nat)
                    &&& out[0].body.payload == (Payload::TopologyOk {})
                },
                Payload::ReadOk { .. } | Payload::TopologyOk {} => {
                    &&& post == self
                    &&& out.len() == 0
                },
            },
            Event::Injected(_) => {
                let n = self.callbacks.len();
                &&& self.same_place(post)
                &&& post.messages == self.messages
                &&& post.seen_uids == self.seen_uids
                &&& pendings(post.callbacks@) == resent_entries(pendings(self.callbacks@), self.msg_id as nat)
                &&& post.msg_id == self.msg_id + n
                &&& out.len() == n
                &&& forall|j: int|
                    0 <= j < n ==> is_broadcast(
                        #[trigger] out[j],
                        me,
                        self.callbacks@[j].node@,
                        (self.msg_id + j) as nat,
                        None,
                        self.callbacks@[j].message,
                        self.callbacks@[j].uid@,
                        seq![self.callbacks@[j].node@],
                    )
            },
            Event::EOF => {
                &&& post == self
                &&& out.len() == 0
            },
        }
    }

    /// Hands out the next message id.
    fn fresh_id(&mut self) -> (r: usize)
        requires
            old(self).msg_id < usize::MAX,
        ensures
            r == old(self).msg_id,
            final(self).msg_id == old(self).msg_id + 1,
            old(self).same_data(*final(self)),
    {
        let out = self.msg_id;
        self.msg_id = self.msg_id + 1;
        out
    }

    /// Sends `message` under `callback` to every neighbour not on its relay
    /// list, and records each delivery as outstanding.
    fn broadcast(
        &mut self,
        reply_to: Option<usize>,
        message: usize,
        callback: &Callback,
        out: &mut Vec<Message<Payload>>,
    )
        requires
            old(self).msg_id + old(self).neighbours.len() < usize::MAX,
        ensures
            ({
                let targets = fanout(ids(old(self).neighbours@), ids(callback.nodes@));
                let n = targets.len();
                &&& old(self).same_place(*final(self))
                &&& final(self).messages == old(self).messages
                &&& final(self).seen_uids == old(self).seen_uids
                &&& final(self).msg_id == old(self).msg_id + n
                &&& pendings(final(self).callbacks@) == pendings(old(self).callbacks@) + sent_entries(
                    message,
                    targets,
                    old(self).msg_id as nat,
                    callback.uid_view(),
                )
                &&& final(out)@.len() == old(out)@.len() + n
                &&& final(out)@.subrange(0, old(out)@.len() as int) == old(out)@
                &&& forall|j: int|
                    0 <= j < n ==> is_broadcast(
                        #[trigger] final(out)@[old(out)@.len() + j],
                        old(self).id@,
                        targets[j],
                        (old(self).msg_id + j) as nat,
                        reply_to,
                        message,
                        callback.uid_view(),
                        ids(callback.nodes@),
                    )
            }),
    {
        let ghost pre = *self;
        let ghost out0 = out@;
        let ghost neigh = ids(self.neighbours@);
        let ghost visited = ids(callback.nodes@);
        let ghost uid = callback.uid_view();
        let mut i: usize = 0;
        while i < self.neighbours.len()
            invariant
                0 <= i <= self.neighbours.len(),
                pre.same_place(*self),
                neigh == ids(self.neighbours@),
                visited == ids(callback.nodes@),
                uid == callback.uid_view(),
                self.messages == pre.messages,
                self.seen_uids == pre.seen_uids,
                pre.msg_id + self.neighbours.len() < usize::MAX,
                ({
                    let t = fanout(neigh.take(i as int), visited);
                    &&& t.len() <= i
                    &&& self.msg_id == pre.msg_id + t.len()
                    &&& pendings(self.callbacks@) == pendings(pre.callbacks@) + sent_entries(
                        message,
                        t,
                        pre.msg_id as nat,
                        uid,
                    )
                    &&& out@.len() == out0.len() + t.len()
                    &&& out@.subrange(0, out0.len() as int) == out0
                    &&& forall|j: int|
                        0 <= j < t.len() ==> is_broadcast(
                            #[trigger] out@[out0.len() + j],
                            pre.id@,
                            t[j],
                            (pre.msg_id + j) as nat,
                            reply_to,
                            message,
                            uid,
                            visited,
                        )
                }),
            decreases self.neighbours.len() - i,
        {
            let ghost t = fanout(neigh.take(i as int), visited);
            let ghost cb0 = self.callbacks@;
            let ghost o0 = out@;
            assert(neigh.take(i as int + 1).drop_last() =~= neigh.take(i as int));
            assert(neigh.take(i as int + 1).last() == neigh[i as int]);
            assert(neigh[i as int] == self.neighbours@[i as int]@);
            assert(neigh.take(i as int + 1).len() == i + 1);
            let listed = contains_id(&callback.nodes, &self.neighbours[i]);
            if !listed {
                let target = self.neighbours[i].clone();
                assert(target@ == neigh[i as int]);
                let id = self.fresh_id();
                let m = Message {
                    src: self.id.clone(),
                    dest: target.clone(),
                    body: Body { id: Some(id), reply_to, payload: Payload::Broadcast { message, callback: callback.copy() } },
                };
                out.push(m);
                let ghost cb1 = self.callbacks@;
                self.callbacks.push(Pending { message, node: target, msg_id: id, uid: callback.id().clone() });
                proof {
                    let t2 = fanout(neigh.take(i as int + 1), visited);
                    assert(t2 == t.push(neigh[i as int]));
                    assert(sent_entries(message, t2, pre.msg_id as nat, uid) =~= sent_entries(
                        message,
                        t,
                        pre.msg_id as nat,
                        uid,
                    ).push((message, neigh[i as int], id, uid)));
                    assert(pendings(self.callbacks@) =~= pendings(cb0).push((message, neigh[i as int], id, uid)));
                    assert(out@.subrange(0, out0.len() as int) =~= o0.subrange(0, out0.len() as int));
                    assert forall|j: int| 0 <= j < t2.len() implies is_broadcast(
                        #[trigger] out@[out0.len() + j],
                        pre.id@,
                        t2[j],
                        (pre.msg_id + j) as nat,
                        reply_to,
                        message,
                        uid,
                        visited,
                    ) by {
                        if j < t.len() {
                            assert(out@[out0.len() + j] == o0[out0.len() + j]);
                        }
                    }
                }
            }
            i = i + 1;
        }
        assert(neigh.take(self.neighbours.len() as int) =~= neigh);
    }

    /// Handles a `Broadcast`: applies and fans out a correlation id seen for
    /// the first time, and acknowledges it in every case.
    fn on_broadcast(&mut self, msg: Message<Payload>) -> (out: Vec<Message<Payload>>)
        requires
            msg.body.payload is Broadcast,
            distinct(old(self).messages@),
            old(self).msg_id + old(self).neighbours.len() + 1 < usize::MAX,
        ensures
            distinct(final(self).messages@),
            old(self).step_spec(Event::Message(msg), *final(self), out@),
    {
        let (message, callback) = match &msg.body.payload {
            Payload::Broadcast { message, callback } => (*message, callback.copy()),
            _ => {
                return Vec::new();
            },
        };
        let mut out: Vec<Message<Payload>> = Vec::new();
        let ghost pre = *self;
        let ghost m0 = msg;
        if !contains_id(&self.seen_uids, callback.id()) {
            let mut relay = callback.copy();
            relay.nodes.push(self.id.clone());
            assert(ids(relay.nodes@) =~= ids(callback.nodes@).push(self.id@));
            if !contains_value(&self.messages, message) {
                self.messages.push(message);
            }
            let ghost seen0 = self.seen_uids@;
            self.seen_uids.push(callback.id().clone());
            assert(ids(self.seen_uids@) =~= ids(seen0).push(callback.uid_view()));
            proof {
                lemma_fanout_len(ids(self.neighbours@), ids(relay.nodes@));
            }
            self.broadcast(msg.body.id, message, &relay, &mut out);
            proof {
                let targets = fanout(ids(pre.neighbours@), ids(relay.nodes@));
                assert forall|j: int| 0 <= j < targets.len() implies is_broadcast(
                    #[trigger] out@[j],
                    pre.id@,
                    targets[j],
                    (pre.msg_id + j) as nat,
                    m0.body.id,
                    message,
                    callback.uid_view(),
                    ids(relay.nodes@),
                ) by {
                    assert(out@[0 + j] == out@[j]);
                }
            }
        }
        let ghost mid = out@;
        let id = self.fresh_id();
        let me = self.id.clone();
        out.push(reply_from(me, id, msg, Payload::BroadcastOk {}));
        proof {
            assert forall|j: int| 0 <= j < mid.len() implies out@[j] == mid[j] by {}
            assert(answers(out@[mid.len() as int], m0, pre.id@, (self.msg_id - 1) as nat));
            if !ids(pre.seen_uids@).contains(callback.uid_view()) {
                let visited = ids(callback.nodes@).push(pre.id@);
                let targets = fanout(ids(pre.neighbours@), visited);
                let n = targets.len();
                assert(mid.len() == targets.len());
                assert(forall|j: int| 0 <= j < targets.len() ==> #[trigger] out@[j] == mid[j]);
                assert(self.msg_id == pre.msg_id + n + 1);
                assert(out@.len() == n + 1);
                assert(answers(out@[n as int], m0, pre.id@, (pre.msg_id + n) as nat));
                assert(forall|j: int|
                    0 <= j < n ==> is_broadcast(
                        #[trigger] out@[j],
                        pre.id@,
                        targets[j],
                        (pre.msg_id + j) as nat,
                        m0.body.id,
                        message,
                        callback.uid_view(),
                        visited,
                    ));
                assert(pendings(self.callbacks@) == pendings(pre.callbacks@) + sent_entries(
                    message,
                    targets,
                    pre.msg_id as nat,
                    callback.uid_view(),
                ));
                assert(ids(self.seen_uids@) == ids(pre.seen_uids@).push(callback.uid_view()));
                assert(self.messages@ == with_value(pre.messages@, message));
                if !pre.messages@.contains(message) {
                    assert forall|a: int, b: int| 0 <= a < b < self.messages@.len() implies self.messages@[a] != self.messages@[b] by {
                        if b == self.messages@.len() - 1 {
                            assert(pre.messages@[a] == self.messages@[a]);
                        }
                    }
                }
            } else {
                assert(mid.len() == 0);
            }
        }
        out
    }

    /// Handles a `BroadcastOk`: drops the outstanding entry sent to its source
    /// as the message it answers.
    fn on_ack(&mut self, msg: Message<Payload>)
        requires
            msg.body.payload is BroadcastOk,
        ensures
            old(self).step_spec(Event::Message(msg), *final(self), Seq::empty()),
    {
        let mut kept: Vec<Pending> = Vec::new();
        let mut i: usize = 0;
        while i < self.callbacks.len()
            invariant
                0 <= i <= self.callbacks.len(),
                pendings(kept@) == unacked(pendings(self.callbacks@.take(i as int)), msg.src@, msg.body.reply_to),
            decreases self.callbacks.len() - i,
        {
            let ghost before = kept@;
            let p = &self.callbacks[i];
            assert(pendings(self.callbacks@.take(i as int + 1)).drop_last() =~= pendings(self.callbacks@.take(i as int)));
            assert(pendings(self.callbacks@.take(i as int + 1)).last() == pending_view(self.callbacks@[i as int]));
            let answered = match msg.body.reply_to {
                Some(r) => r == p.msg_id,
                None => false,
            };
            if !(p.node == msg.src && answered) {
                kept.push(Pending { message: p.message, node: p.node.clone(), msg_id: p.msg_id, uid: p.uid.clone() });
                assert(pendings(kept@) =~= pendings(before).push(pending_view(self.callbacks@[i as int])));
            }
            i = i + 1;
        }
        assert(self.callbacks@.take(self.callbacks.len() as int) =~= self.callbacks@);
        self.callbacks = kept;
    }

    /// Handles a timer tick: re-sends every outstanding entry to its
    /// neighbour under a fresh message id, keeping value and correlation id.
    fn on_tick(&mut self) -> (out: Vec<Message<Payload>>)
        requires
            old(self).msg_id + old(self).callbacks.len() < usize::MAX,
        ensures
            old(self).step_spec(Event::Injected(InjectedPayload::CallbackTimeout), *final(self), out@),
    {
        let ghost pre = *self;
        let mut out: Vec<Message<Payload>> = Vec::new();
        let mut resent: Vec<Pending> = Vec::new();
        let mut next: usize = self.msg_id;
        let mut i: usize = 0;
        while i < self.callbacks.len()
            invariant
                *self == pre,
                0 <= i <= self.callbacks.len(),
                next == self.msg_id + i,
                self.msg_id + self.callbacks.len() < usize::MAX,
                out@.len() == i,
                pendings(resent@) == resent_entries(pendings(self.callbacks@), self.msg_id as nat).take(i as int),
                forall|j: int|
                    0 <= j < i ==> is_broadcast(
                        #[trigger] out@[j],
                        self.id@,
                        self.callbacks@[j].node@,
                        (self.msg_id + j) as nat,
                        None,
                        self.callbacks@[j].message,
                        self.callbacks@[j].uid@,
                        seq![self.callbacks@[j].node@],
                    ),
            decreases self.callbacks.len() - i,
        {
            let p = &self.callbacks[i];
            let callback = Callback { nodes: vec![p.node.clone()], uid: p.uid.clone() };
            assert(ids(callback.nodes@) =~= seq![p.node@]);
            let m = Message::new(
                self.id.clone(),
                p.node.clone(),
                Body::new(Some(next), Payload::Broadcast { message: p.message, callback }),
            );
            out.push(m);
            let ghost r0 = resent@;
            resent.push(Pending { message: p.message, node: p.node.clone(), msg_id: next, uid: p.uid.clone() });
            assert(pendings(resent@) =~= pendings(r0).push(pending_view(resent@.last())));
            assert(resent_entries(pendings(self.callbacks@), self.msg_id as nat).take(i as int + 1) =~= resent_entries(
                pendings(self.callbacks@),
                self.msg_id as nat,
            ).take(i as int).push(pending_view(resent@.last())));
            next = next + 1;
            i = i + 1;
        }
        assert(resent_entries(pendings(self.callbacks@), self.msg_id as nat).take(i as int) =~= resent_entries(
            pendings(self.callbacks@),
            self.msg_id as nat,
        ));
        self.callbacks = resent;
        self.msg_id = next;
        out
    }

    /// Handles a `Read`: answers with a copy of the replica set.
    fn on_read(&mut self, msg: Message<Payload>) -> (out: Vec<Message<Payload>>)
        requires
            msg.body.payload is Read,
            old(self).msg_id < usize::MAX,
        ensures
            old(self).step_spec(Event::Message(msg), *final(self), out@),
    {
        let messages = copy_values(&self.messages);
        let id = self.fresh_id();
        let me = self.id.clone();
        let mut out: Vec<Message<Payload>> = Vec::new();
        out.push(reply_from(me, id, msg, Payload::ReadOk { messages }));
        out
    }

    /// Handles a `Topology` update: takes the list given to this node, if
    /// any, as the new neighbour set, and acknowledges.
    fn on_topology(&mut self, msg: Message<Payload>) -> (out: Vec<Message<Payload>>)
        requires
            msg.body.payload is Topology,
            old(self).msg_id < usize::MAX,
        ensures
            old(self).step_spec(Event::Message(msg), *final(self), out@),
    {
        if let Payload::Topology { topology } = &msg.body.payload {
            if let Some(neighbours) = neighbours_in(topology, &self.id) {
                self.neighbours = neighbours;
            }
        }
        let id = self.fresh_id();
        let me = self.id.clone();
        let mut out: Vec<Message<Payload>> = Vec::new();
        out.push(reply_from(me, id, msg, Payload::TopologyOk {}));
        out
    }
}

impl Node<Payload, InjectedPayload> for BroadcastNode {
    open spec fn node_id_view(&self) -> Seq<char> {
        self.id@
    }

    open spec fn next_id_view(&self) -> nat {
        self.msg_id as nat
    }

    open spec fn wf(&self) -> bool {
        distinct(self.messages@)
    }

    open spec fn init_spec(init: Init, r: Self) -> bool {
        &&& r.id@ == init.node_id@
        &&& ids(r.neighbours@) == without(ids(init.node_ids@), init.node_id@)
        &&& r.msg_id == 1
        &&& r.messages@.len() == 0
        &&& r.seen_uids@.len() == 0
        &&& r.callbacks@.len() == 0
    }

    open spec fn has_room(&self, event: Event<Payload, InjectedPayload>) -> bool {
        self.msg_id + self.neighbours.len() + self.callbacks.len() + 1 < usize::MAX
    }

    open spec fn step(&self, event: Event<Payload, InjectedPayload>, post: Self, out: Seq<Message<Payload>>) -> bool {
        self.step_spec(event, post, out)
    }

    fn from_init(init: Init) -> (r: Self) {
        let neighbours = others(&init.node_ids, &init.node_id);
        BroadcastNode {
            id: init.node_id,
            neighbours,
            msg_id: 1,
            messages: Vec::new(),
            seen_uids: Vec::new(),
            callbacks: Vec::new(),
        }
    }

    fn next_msg_id(&mut self) -> (r: usize) {
        self.fresh_id()
    }

    fn node_id(&self) -> (r: String) {
        self.id.clone()
    }

    fn can_handle(&self, event: &Event<Payload, InjectedPayload>) -> (r: bool) {
        (self.msg_id as u128) + (self.neighbours.len() as u128) + (self.callbacks.len() as u128) + 1 < usize::MAX as u128
    }

    fn process_message(&mut self, event: Event<Payload, InjectedPayload>) -> (out: Vec<Message<Payload>>) {
        match event {
            Event::Message(msg) => {
                if matches!(msg.body.payload, Payload::Broadcast { .. }) {
                    self.on_broadcast(msg)
                } else if matches!(msg.body.payload, Payload::BroadcastOk { .. }) {
                    self.on_ack(msg);
                    Vec::new()
                } else if matches!(msg.body.payload, Payload::Read { .. }) {
                    self.on_read(msg)
                } else if matches!(msg.body.payload, Payload::Topology { .. }) {
                    self.on_topology(msg)
                } else {
                    Vec::new()
                }
            },
            Event::Injected(InjectedPayload::CallbackTimeout) => self.on_tick(),
            Event::EOF => Vec::new(),
        }
    }
}


/// The correlation id of a `Broadcast` payload.
pub open spec fn correlation(p: Payload) -> Seq<char> {
    match p {
        Payload::Broadcast { callback, .. } => callback.uid_view(),
        _ => Seq::empty(),
    }
}

/// Idempotence: once a node has handled a broadcast, a second delivery of
/// the same correlation id leaves the replica set, the seen set and the
/// outstanding deliveries as they were and forwards nothing; it still
/// answers with exactly one acknowledgment.
pub proof fn lemma_redelivery_is_idempotent(
    s0: BroadcastNode,
    first: Message<Payload>,
    s1: BroadcastNode,
    out1: Seq<Message<Payload>>,
    second: Message<Payload>,
    s2: BroadcastNode,
    out2: Seq<Message<Payload>>,
)
    requires
        first.body.payload is Broadcast,
        second.body.payload is Broadcast,
        correlation(first.body.payload) == correlation(second.body.payload),
        s0.step_spec(Event::Message(first), s1, out1),
        s1.step_spec(Event::Message(second), s2, out2),
    ensures
        s2.messages == s1.messages,
        s2.seen_uids == s1.seen_uids,
        s2.callbacks == s1.callbacks,
        s2.neighbours == s1.neighbours,
        out2.len() == 1,
        answers(out2[0], second, s1.id@, s1.msg_id as nat),
        out2[0].body.payload == (Payload::BroadcastOk {}),
{
    let uid = correlation(first.body.payload);
    if !ids(s0.seen_uids@).contains(uid) {
        assert(ids(s1.seen_uids@)[ids(s0.seen_uids@).len() as int] == uid);
    }
    assert(ids(s1.seen_uids@).contains(uid));
}

/// Membership in what an acknowledgment leaves: an entry stays exactly
/// when it was outstanding and was not sent to that source as that message.
pub proof fn lemma_unacked_contains(s: Seq<PendingView>, src: Seq<char>, reply_to: Option<usize>, e: PendingView)
    ensures
        unacked(s, src, reply_to).contains(e) <==> (s.contains(e) && !(e.1 == src && reply_to == Some(e.2))),
    decreases s.len(),
{
    if s.len() > 0 {
        let rest = s.drop_last();
        lemma_unacked_contains(rest, src, reply_to, e);
        assert(s =~= rest.push(s.last()));
        if s.contains(e) && !rest.contains(e) {
            let k = choose|k: int| 0 <= k < s.len() && s[k] == e;
            if k < rest.len() {
                assert(rest[k] == e);
            }
        }
        if rest.contains(e) {
            let k = choose|k: int| 0 <= k < rest.len() && rest[k] == e;
            assert(s[k] == e);
        }
        let r = unacked(rest, src, reply_to);
        if unacked(s, src, reply_to) != r {
            assert(unacked(s, src, reply_to) == r.push(s.last()));
            if r.push(s.last()).contains(e) && !r.contains(e) {
                let k = choose|k: int| 0 <= k < r.push(s.last()).len() && r.push(s.last())[k] == e;
                if k < r.len() {
                    assert(r[k] == e);
                }
            }
            if r.contains(e) {
                let k = choose|k: int| 0 <= k < r.len() && r[k] == e;
                assert(r.push(s.last())[k] == e);
            }
            assert(r.push(s.last())[r.len() as int] == s.last());
        }
    }
}

/// Acknowledgment: an acknowledgment removes exactly the outstanding
/// entries sent to its source as the message it answers, matched on both
/// fields, and keeps every other entry; it emits nothing.
pub proof fn lemma_ack_removes_exactly_its_entry(
    s: BroadcastNode,
    ack: Message<Payload>,
    post: BroadcastNode,
    out: Seq<Message<Payload>>,
    e: PendingView,
)
    requires
        ack.body.payload is BroadcastOk,
        s.step_spec(Event::Message(ack), post, out),
    ensures
        out.len() == 0,
        pendings(post.callbacks@).contains(e) <==> (pendings(s.callbacks@).contains(e) && !(e.1 == ack.src@
            && ack.body.reply_to == Some(e.2))),
{
    lemma_unacked_contains(pendings(s.callbacks@), ack.src@, ack.body.reply_to, e);
}

/// Retry: a timer tick keeps every outstanding delivery, with its value,
/// neighbour and correlation id, and re-sends each one to its neighbour
/// under the new message id recorded for it.
pub proof fn lemma_tick_resends_every_entry(
    s: BroadcastNode,
    tick: InjectedPayload,
    post: BroadcastNode,
    out: Seq<Message<Payload>>,
    j: int,
)
    requires
        s.step_spec(Event::Injected(tick), post, out),
        0 <= j < s.callbacks.len(),
    ensures
        post.callbacks.len() == s.callbacks.len(),
        pending_view(post.callbacks@[j]).0 == s.callbacks@[j].message,
        pending_view(post.callbacks@[j]).1 == s.callbacks@[j].node@,
        pending_view(post.callbacks@[j]).3 == s.callbacks@[j].uid@,
        out[j].dest@ == s.callbacks@[j].node@,
        out[j].body.id == Some(post.callbacks@[j].msg_id),
        correlation(out[j].body.payload) == s.callbacks@[j].uid@,
{
    assert(pendings(post.callbacks@).len() == post.callbacks@.len());
    assert(resent_entries(pendings(s.callbacks@), s.msg_id as nat).len() == s.callbacks@.len());
    assert(pendings(post.callbacks@)[j] == pending_view(post.callbacks@[j]));
    assert(is_broadcast(
        out[j],
        s.id@,
        s.callbacks@[j].node@,
        (s.msg_id + j) as nat,
        None,
        s.callbacks@[j].message,
        s.callbacks@[j].uid@,
        seq![s.callbacks@[j].node@],
    ));
}

/// No work at rest: with no outstanding delivery, a timer tick emits
/// nothing and changes nothing.
pub proof fn lemma_tick_at_rest_is_silent(s: BroadcastNode, tick: InjectedPayload, post: BroadcastNode, out: Seq<Message<Payload>>)
    requires
        s.callbacks.len() == 0,
        s.step_spec(Event::Injected(tick), post, out),
    ensures
        out.len() == 0,
        post.callbacks.len() == 0,
        post.msg_id == s.msg_id,
        post.messages == s.messages,
        post.neighbours == s.neighbours,
{
    assert(pendings(post.callbacks@).len() == 0);
}

/// Topology replacement: an update that names this node makes its
/// neighbour set exactly the list given for it.
pub proof fn lemma_topology_replaces_neighbours(
    s: BroadcastNode,
    update: Message<Payload>,
    post: BroadcastNode,
    out: Seq<Message<Payload>>,
    given: Seq<Seq<char>>,
)
    requires
        update.body.payload matches Payload::Topology { topology } && lookup(topology@, s.id@) == Some(given),
        s.step_spec(Event::Message(update), post, out),
    ensures
        ids(post.neighbours@) == given,
        out.len() == 1,
        out[0].body.payload == (Payload::TopologyOk {}),
{
}

/// Whether the acknowledgment `ack` answers the outstanding entry `e`.
pub open spec fn acknowledges(ack: Message<Payload>, e: PendingView) -> bool {
    ack.src@ == e.1 && ack.body.reply_to == Some(e.2)
}

/// What a run of acknowledgments leaves: an entry present after the first
/// `k` of them was outstanding at the start and none of them answered it.
proof fn lemma_ack_run_prefix(
    states: Seq<BroadcastNode>,
    acks: Seq<Message<Payload>>,
    outs: Seq<Seq<Message<Payload>>>,
    k: int,
    e: PendingView,
)
    requires
        states.len() == acks.len() + 1,
        outs.len() == acks.len(),
        forall|i: int|
            0 <= i < acks.len() ==> (#[trigger] acks[i]).body.payload is BroadcastOk && states[i].step_spec(
                Event::Message(acks[i]),
                states[i + 1],
                outs[i],
            ),
        0 <= k <= acks.len(),
    ensures
        pendings(states[k].callbacks@).contains(e) ==> (pendings(states[0].callbacks@).contains(e) && forall|i: int|
            0 <= i < k ==> !acknowledges(#[trigger] acks[i], e)),
    decreases k,
{
    if k > 0 {
        lemma_ack_run_prefix(states, acks, outs, k - 1, e);
        let prev = states[k - 1];
        assert(acks[k - 1].body.payload is BroadcastOk);
        lemma_unacked_contains(pendings(prev.callbacks@), acks[k - 1].src@, acks[k - 1].body.reply_to, e);
    }
}

/// Convergence of the outstanding-delivery table: once every entry that was
/// outstanding has been acknowledged by its neighbour, answering the message
/// id recorded for it, in any order and among any other acknowledgments,
/// the table is empty.
pub proof fn lemma_acknowledged_table_empties(
    states: Seq<BroadcastNode>,
    acks: Seq<Message<Payload>>,
    outs: Seq<Seq<Message<Payload>>>,
)
    requires
        states.len() == acks.len() + 1,
        outs.len() == acks.len(),
        forall|i: int|
            0 <= i < acks.len() ==> (#[trigger] acks[i]).body.payload is BroadcastOk && states[i].step_spec(
                Event::Message(acks[i]),
                states[i + 1],
                outs[i],
            ),
        forall|j: int|
            0 <= j < states[0].callbacks.len() ==> exists|i: int|
                0 <= i < acks.len() && acknowledges(acks[i], #[trigger] pending_view(states[0].callbacks@[j])),
    ensures
        states.last().callbacks.len() == 0,
{
    let n = acks.len() as int;
    let last = pendings(states[n].callbacks@);
    if last.len() > 0 {
        let e = last[0];
        assert(last.contains(e));
        lemma_ack_run_prefix(states, acks, outs, n, e);
        let first = pendings(states[0].callbacks@);
        let j = choose|j: int| 0 <= j < first.len() && first[j] == e;
        assert(first[j] == pending_view(states[0].callbacks@[j]));
        let i = choose|i: int| 0 <= i < acks.len() && acknowledges(acks[i], pending_view(states[0].callbacks@[j]));
        assert(!acknowledges(acks[i], e));
    }
    assert(states.last() == states[n]);
}

/// Growth: no event removes a value from the replica set.
pub proof fn lemma_replica_set_only_grows(
    s: BroadcastNode,
    event: Event<Payload, InjectedPayload>,
    post: BroadcastNode,
    out: Seq<Message<Payload>>,
)
    requires
        s.wf(),
        s.step_spec(event, post, out),
    ensures
        s.messages@.to_set().subset_of(post.messages@.to_set()),
{
    if let Event::Message(msg) = event {
        if let Payload::Broadcast { message, .. } = msg.body.payload {
            lemma_with_value(s.messages@, message);
        }
    }
}

} // verus!
