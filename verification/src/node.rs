//! The node engine: what a node does with each envelope it receives, and
//! what it sends when the gossip timer fires.
//!
//! Until a topology has been received a node has no neighbours, so values
//! broadcast to it are recorded but queued for nobody.

use crate::envelope::{following, nth_id, reply_to, Envelope, EnvelopeView, MessageIds};
use crate::message_set::MessageSet;
use crate::names::{clone_names, names_of};
use crate::outbox::{acknowledge_for, batch_views, fan_out, is_flush_of, NeighborOutbox};
use crate::protocol::{Error, Message, MessageView};
use crate::topology::{resolve, resolve_neighbors, STRIDE};
use vstd::prelude::*;

verus! {

/// What a node knows.
pub struct NodeView {
    /// Whether the node has been told who it is.
    pub initialized: bool,
    /// The node's identifier.
    pub id: Seq<char>,
    /// Every member of the cluster.
    pub node_ids: Seq<Seq<char>>,
    /// The peers this node gossips with.
    pub neighbors: Seq<Seq<char>>,
    /// The values this node has seen.
    pub messages: Set<usize>,
    /// For each neighbour, the values it has not yet confirmed.
    pub outbox: Map<Seq<char>, Seq<usize>>,
}

impl NodeView {
    /// A node that has not been initialised and has seen nothing.
    pub open spec fn fresh() -> NodeView {
        NodeView {
            initialized: false,
            id: Seq::empty(),
            node_ids: Seq::empty(),
            neighbors: Seq::empty(),
            messages: Set::empty(),
            outbox: Map::empty(),
        }
    }

    /// After `Init`: the first one sets the identity, later ones change
    /// nothing.
    pub open spec fn init(self, node_id: Seq<char>, node_ids: Seq<Seq<char>>) -> NodeView {
        if self.initialized {
            self
        } else {
            NodeView { initialized: true, id: node_id, node_ids, ..self }
        }
    }

    /// After `Topology`: the neighbours are resolved anew.
    pub open spec fn topology(self, adjacency: Seq<(Seq<char>, Seq<Seq<char>>)>) -> NodeView {
        NodeView { neighbors: resolve(self.id, self.node_ids, adjacency, STRIDE as int), ..self }
    }

    /// After seeing `value`: a new value is recorded and queued for every
    /// neighbour but `except`; a known value changes nothing.
    pub open spec fn observe(self, except: Option<Seq<char>>, value: usize) -> NodeView {
        if self.messages.contains(value) {
            self
        } else {
            NodeView {
                messages: self.messages.insert(value),
                outbox: fan_out(self.outbox, self.neighbors, except, value),
                ..self
            }
        }
    }

    /// After a client's `Broadcast`.
    pub open spec fn broadcast(self, value: usize) -> NodeView {
        self.observe(None, value)
    }

    /// After a `Sync` from `sender`: each value is seen in turn, and none is
    /// queued back to the sender.
    pub open spec fn sync(self, sender: Seq<char>, values: Seq<usize>) -> NodeView
        decreases values.len(),
    {
        if values.len() == 0 {
            self
        } else {
            self.sync(sender, values.drop_last()).observe(Some(sender), values.last())
        }
    }

    /// After a `SyncOk` from `sender`: the values it names leave the sender's
    /// buffer.
    pub open spec fn sync_ok(self, sender: Seq<char>, values: Seq<usize>) -> NodeView {
        NodeView { outbox: acknowledge_for(self.outbox, sender, values), ..self }
    }

    /// The node after it has handled `message` from `src`.
    pub open spec fn step(self, src: Seq<char>, message: MessageView) -> NodeView {
        match message {
            MessageView::Init { node_id, node_ids } => self.init(node_id, node_ids),
            MessageView::Topology { topology } => self.topology(topology),
            MessageView::Broadcast { message } => self.broadcast(message),
            MessageView::Sync { messages } => self.sync(src, messages),
            MessageView::SyncOk { messages } => self.sync_ok(src, messages),
            _ => self,
        }
    }

    /// Whether `answer` is what the node answers to the request `message`.
    /// `ReadOk` lists every value the node has seen once, in any order;
    /// `SyncOk` repeats the whole `Sync`, whatever was new in it; a `SyncOk`
    /// gets no answer.
    pub open spec fn answers(self, message: MessageView, answer: Option<MessageView>) -> bool {
        match message {
            MessageView::Init { .. } => answer == Some(MessageView::InitOk),
            MessageView::Topology { .. } => answer == Some(MessageView::TopologyOk),
            MessageView::Broadcast { .. } => answer == Some(MessageView::BroadcastOk),
            MessageView::Read => {
                &&& answer matches Some(MessageView::ReadOk { messages })
                &&& messages.to_set() == self.messages
                &&& messages.no_duplicates()
            },
            MessageView::Sync { messages } => answer == Some(MessageView::SyncOk { messages }),
            MessageView::SyncOk { .. } => answer is None,
            _ => false,
        }
    }
}

/// What a list of envelopes holds.
pub open spec fn envelope_views(list: Seq<Envelope<Message>>) -> Seq<EnvelopeView<MessageView>> {
    Seq::new(list.len(), |i: int| list[i]@)
}

/// Whether `sent` is what `node` sends when its timer fires: to each
/// neighbour with pending values one `Sync` that holds all of them, with
/// identifiers counted on from `first_id`.
pub open spec fn is_flush(
    node: NodeView,
    first_id: usize,
    sent: Seq<EnvelopeView<MessageView>>,
) -> bool {
    &&& forall|i: int|
        0 <= i < sent.len() ==> {
            let envelope = #[trigger] sent[i];
            &&& envelope.src == node.id
            &&& node.outbox.dom().contains(envelope.dest)
            &&& node.outbox[envelope.dest].len() > 0
            &&& envelope.message == MessageView::Sync { messages: node.outbox[envelope.dest] }
            &&& envelope.msg_id == Some(nth_id(first_id, i as nat))
            &&& envelope.in_reply_to is None
        }
    &&& forall|n: Seq<char>|
        node.outbox.dom().contains(n) && (#[trigger] node.outbox[n]).len() > 0 ==> exists|i: int|
            0 <= i < sent.len() && (#[trigger] sent[i]).dest == n
    &&& forall|i: int, j: int|
        0 <= i < j < sent.len() ==> (#[trigger] sent[i]).dest != (#[trigger] sent[j]).dest
}

/// One node of the cluster.
pub struct Node {
    initialized: bool,
    id: String,
    node_ids: Vec<String>,
    neighbors: Vec<String>,
    messages: MessageSet,
    outbox: NeighborOutbox,
}

impl View for Node {
    type V = NodeView;

    closed spec fn view(&self) -> NodeView {
        NodeView {
            initialized: self.initialized,
            id: self.id@,
            node_ids: names_of(self.node_ids@),
            neighbors: names_of(self.neighbors@),
            messages: self.messages@,
            outbox: self.outbox@,
        }
    }
}

impl Node {
    /// The buffers are well formed.
    pub closed spec fn wf(&self) -> bool {
        self.outbox.wf()
    }

    /// A node that has not been initialised and has seen nothing.
    pub fn new() -> (node: Self)
        ensures
            node.wf(),
            node@ == NodeView::fresh(),
    {
        let node = Node {
            initialized: false,
            id: String::new(),
            node_ids: Vec::new(),
            neighbors: Vec::new(),
            messages: MessageSet::new(),
            outbox: NeighborOutbox::new(),
        };
        proof {
            assert(names_of(node.node_ids@) == Seq::<Seq<char>>::empty());
            assert(names_of(node.neighbors@) == Seq::<Seq<char>>::empty());
        }
        node
    }

    /// The node's identifier; empty until it is initialised.
    pub fn id(&self) -> (id: String)
        ensures
            id@ == self@.id,
    {
        self.id.clone()
    }

    /// The peers this node gossips with.
    pub fn neighbors(&self) -> (neighbors: Vec<String>)
        ensures
            names_of(neighbors@) == self@.neighbors,
    {
        clone_names(&self.neighbors)
    }

    /// Every value this node has seen, once each, in no particular order.
    pub fn messages(&self) -> (values: Vec<usize>)
        ensures
            values@.to_set() == self@.messages,
            values@.no_duplicates(),
    {
        self.messages.read()
    }

    /// The values that `neighbor` has not yet confirmed, oldest first.
    pub fn pending_for(&self, neighbor: &str) -> (values: Vec<usize>)
        requires
            self.wf(),
        ensures
            values@ == crate::outbox::pending_for(self@.outbox, neighbor@),
    {
        self.outbox.drain_all(neighbor)
    }

    fn observe_value(&mut self, except: Option<&String>, value: usize)
        requires
            old(self).wf(),
        ensures
            final(self).wf(),
            final(self)@ == old(self)@.observe(
                match except {
                    Some(name) => Some(name@),
                    None => None,
                },
                value,
            ),
    {
        if self.messages.observe(value) {
            self.outbox.enqueue_all(&self.neighbors, except, value);
        } else {
            proof {
                assert(self.messages@ =~= old(self).messages@);
            }
        }
    }

    fn observe_all(&mut self, sender: &String, values: &Vec<usize>)
        requires
            old(self).wf(),
        ensures
            final(self).wf(),
            final(self)@ == old(self)@.sync(sender@, values@),
    {
        let mut k: usize = 0;
        proof {
            assert(values@.take(0) == Seq::<usize>::empty());
        }
        while k < values.len()
            invariant
                k <= values@.len(),
                self.wf(),
                self@ == old(self)@.sync(sender@, values@.take(k as int)),
            decreases values@.len() - k,
        {
            self.observe_value(Some(sender), values[k]);
            proof {
                let next = values@.take(k as int + 1);
                assert(next.drop_last() == values@.take(k as int));
                assert(next.last() == values@[k as int]);
            }
            k += 1;
        }
        proof {
            assert(values@.take(values@.len() as int) == values@);
        }
    }

    /// Handles one envelope. A request changes the node as `step` says and
    /// is answered as `answers` says, in an envelope back to the sender; a
    /// `SyncOk` gets no answer. Any other message is refused with an error
    /// and changes nothing.
    pub fn handle(&mut self, envelope: &Envelope<Message>, ids: &mut MessageIds) -> (outcome: Result<
        Option<Envelope<Message>>,
        Error,
    >)
        requires
            old(self).wf(),
        ensures
            final(self).wf(),
            final(self)@ == old(self)@.step(envelope@.src, envelope@.message),
            envelope@.message.is_request() ==> {
                &&& outcome matches Ok(answer)
                &&& match answer {
                    Some(reply) => {
                        &&& old(self)@.answers(envelope@.message, Some(reply@.message))
                        &&& reply@ == reply_to(envelope@, old(ids)@, reply@.message)
                        &&& final(ids)@ == following(old(ids)@)
                    },
                    None => {
                        &&& old(self)@.answers(envelope@.message, None)
                        &&& final(ids)@ == old(ids)@
                    },
                }
            },
            !envelope@.message.is_request() ==> {
                &&& outcome matches Err(Error::UnexpectedMessage(kind))
                &&& kind@ == envelope@.message.kind_name()
                &&& final(ids)@ == old(ids)@
            },
    {
        match envelope.message() {
            Message::Init { node_id, node_ids } => {
                if !self.initialized {
                    self.initialized = true;
                    self.id = node_id.clone();
                    self.node_ids = clone_names(node_ids);
                }
                Ok(Some(envelope.reply(Message::InitOk, ids)))
            },
            Message::Topology { topology } => {
                self.neighbors =
                resolve_neighbors(self.id.as_str(), &self.node_ids, topology, STRIDE);
                Ok(Some(envelope.reply(Message::TopologyOk, ids)))
            },
            Message::Broadcast { message } => {
                self.observe_value(None, *message);
                Ok(Some(envelope.reply(Message::BroadcastOk, ids)))
            },
            Message::Read => {
                let messages = self.messages.read();
                Ok(Some(envelope.reply(Message::ReadOk { messages }, ids)))
            },
            Message::Sync { messages } => {
                self.observe_all(&envelope.src, messages);
                let echoed = crate::names::clone_values(messages);
                Ok(Some(envelope.reply(Message::SyncOk { messages: echoed }, ids)))
            },
            Message::SyncOk { messages } => {
                self.outbox.acknowledge(envelope.src.as_str(), messages.as_slice());
                Ok(None)
            },
            other => Err(Error::UnexpectedMessage(other.kind_name())),
        }
    }

    /// What the node sends when the gossip timer fires: to each neighbour
    /// with pending values, one `Sync` that holds all of them. The buffers
    /// keep their values, so whatever is lost on the way is sent again at
    /// the next flush.
    pub fn flush(&self, ids: &mut MessageIds) -> (sent: Vec<Envelope<Message>>)
        requires
            self.wf(),
        ensures
            is_flush(self@, old(ids)@, envelope_views(sent@)),
            final(ids)@ == nth_id(old(ids)@, sent@.len()),
    {
        let batches = self.outbox.batches();
        let ghost plan = batch_views(batches@);
        let mut sent: Vec<Envelope<Message>> = Vec::new();
        let mut k: usize = 0;
        while k < batches.len()
            invariant
                k <= batches@.len(),
                sent@.len() == k,
                plan == batch_views(batches@),
                ids@ == nth_id(old(ids)@, k as nat),
                forall|i: int|
                    0 <= i < k ==> (#[trigger] sent@[i])@ == (EnvelopeView {
                        src: self@.id,
                        dest: plan[i].0,
                        msg_id: Some(nth_id(old(ids)@, i as nat)),
                        in_reply_to: None,
                        message: MessageView::Sync { messages: plan[i].1 },
                    }),
            decreases batches@.len() - k,
        {
            let messages = crate::names::clone_values(&batches[k].1);
            let envelope = Envelope::new(
                self.id.as_str(),
                batches[k].0.as_str(),
                None,
                Message::Sync { messages },
                ids,
            );
            sent.push(envelope);
            k += 1;
        }
        proof {
            let views = envelope_views(sent@);
            assert(is_flush_of(plan, self@.outbox));
            assert forall|n: Seq<char>|
                self@.outbox.dom().contains(n) && (#[trigger] self@.outbox[n]).len()
                    > 0 implies exists|i: int|
                0 <= i < views.len() && (#[trigger] views[i]).dest == n by {
                let i = choose|i: int| 0 <= i < plan.len() && (#[trigger] plan[i]).0 == n;
                assert(views[i].dest == n);
            }
            assert forall|i: int, j: int| 0 <= i < j < views.len() implies (#[trigger] views[i]).dest
                != (#[trigger] views[j]).dest by {
                assert(plan[i].0 != plan[j].0);
            }
            assert forall|i: int| 0 <= i < views.len() implies {
                let envelope = #[trigger] views[i];
                &&& envelope.src == self@.id
                &&& self@.outbox.dom().contains(envelope.dest)
                &&& self@.outbox[envelope.dest].len() > 0
                &&& envelope.message == MessageView::Sync { messages: self@.outbox[envelope.dest] }
                &&& envelope.msg_id == Some(nth_id(old(ids)@, i as nat))
                &&& envelope.in_reply_to is None
            } by {
                assert(views[i] == sent@[i]@);
                let batch = plan[i];
                assert(self@.outbox.dom().contains(batch.0));
            }
        }
        sent
    }
}

} // verus!
