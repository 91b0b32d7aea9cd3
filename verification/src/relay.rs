//! Eager broadcast: a node passes every new value on at once, to each of its
//! neighbours except the one the value came from. Nothing is buffered and
//! nothing is sent twice, so this only reaches every node while no message
//! is lost.
//!
//! A node has no neighbours until a topology has reached it. Until then it
//! records what it is sent and confirms it, and forwards nothing.

use crate::common::{Envelope, EnvelopeView, Fault};
use crate::message_set::MessageSet;
use crate::names::{
    clone_names, dedup, distinct, has_name, lemma_unique_distinct, names_of, unique,
};
use crate::protocol::adjacency_of;
use crate::topology::{resolve, resolve_neighbors, STRIDE};
use vstd::prelude::*;

verus! {

/// The messages of eager broadcast. A request from a client carries an
/// identifier and its answer names it; a `Broadcast` that one node sends to
/// another carries none.
#[derive(Debug, Clone, PartialEq, Eq)]
#[allow(inconsistent_fields)]
pub enum Message {
    Init { msg_id: usize, node_id: String, node_ids: Vec<String> },
    InitOk { in_reply_to: usize },
    Topology { msg_id: usize, topology: Vec<(String, Vec<String>)> },
    TopologyOk { in_reply_to: usize },
    Broadcast { msg_id: Option<usize>, message: usize },
    BroadcastOk { in_reply_to: Option<usize> },
    Read { msg_id: usize },
    ReadOk { in_reply_to: usize, messages: Vec<usize> },
}

/// What a `Message` holds.
#[allow(inconsistent_fields)]
pub enum MessageView {
    Init { msg_id: usize, node_id: Seq<char>, node_ids: Seq<Seq<char>> },
    InitOk { in_reply_to: usize },
    Topology { msg_id: usize, topology: Seq<(Seq<char>, Seq<Seq<char>>)> },
    TopologyOk { in_reply_to: usize },
    Broadcast { msg_id: Option<usize>, message: usize },
    BroadcastOk { in_reply_to: Option<usize> },
    Read { msg_id: usize },
    ReadOk { in_reply_to: usize, messages: Seq<usize> },
}

impl View for Message {
    type V = MessageView;

    open spec fn view(&self) -> MessageView {
        match self {
            Message::Init { msg_id, node_id, node_ids } => MessageView::Init {
                msg_id: *msg_id,
                node_id: node_id@,
                node_ids: names_of(node_ids@),
            },
            Message::InitOk { in_reply_to } => MessageView::InitOk { in_reply_to: *in_reply_to },
            Message::Topology { msg_id, topology } => MessageView::Topology {
                msg_id: *msg_id,
                topology: adjacency_of(topology@),
            },
            Message::TopologyOk { in_reply_to } => MessageView::TopologyOk {
                in_reply_to: *in_reply_to,
            },
            Message::Broadcast { msg_id, message } => MessageView::Broadcast {
                msg_id: *msg_id,
                message: *message,
            },
            Message::BroadcastOk { in_reply_to } => MessageView::BroadcastOk {
                in_reply_to: *in_reply_to,
            },
            Message::Read { msg_id } => MessageView::Read { msg_id: *msg_id },
            Message::ReadOk { in_reply_to, messages } => MessageView::ReadOk {
                in_reply_to: *in_reply_to,
                messages: messages@,
            },
        }
    }
}

impl MessageView {
    /// Whether this message comes from another node rather than a client:
    /// it is a `Broadcast` without an identifier, or a `BroadcastOk` that
    /// answers none.
    pub open spec fn is_from_server_node(self) -> bool {
        match self {
            MessageView::Broadcast { msg_id, .. } => msg_id is None,
            MessageView::BroadcastOk { in_reply_to } => in_reply_to is None,
            _ => false,
        }
    }
}

impl Message {
    /// Whether this message comes from another node rather than a client.
    pub fn is_from_server_node(&self) -> (internal: bool)
        ensures
            internal == self@.is_from_server_node(),
    {
        match self {
            Message::Broadcast { msg_id, .. } => msg_id.is_none(),
            Message::BroadcastOk { in_reply_to } => in_reply_to.is_none(),
            _ => false,
        }
    }
}

/// What a node was told about itself and the cluster.
pub struct NodeMetadata {
    id: Option<String>,
    node_ids: Vec<String>,
    topology: Vec<(String, Vec<String>)>,
    neighbors: Vec<String>,
}

/// What a node knows: what it was told, and the values it has seen.
pub struct Node {
    pub metadata: NodeMetadata,
    pub messages: MessageSet,
}

/// What a `Node` holds.
pub struct NodeView {
    /// The node's identifier, once it has been told.
    pub id: Option<Seq<char>>,
    /// Every member of the cluster.
    pub node_ids: Seq<Seq<char>>,
    /// The adjacency that was announced last.
    pub topology: Seq<(Seq<char>, Seq<Seq<char>>)>,
    /// The peers the node passes values on to, each once.
    pub neighbors: Seq<Seq<char>>,
    /// The values the node has seen.
    pub messages: Set<usize>,
}

impl View for Node {
    type V = NodeView;

    closed spec fn view(&self) -> NodeView {
        NodeView {
            id: match self.metadata.id {
                Some(id) => Some(id@),
                None => None,
            },
            node_ids: names_of(self.metadata.node_ids@),
            topology: adjacency_of(self.metadata.topology@),
            neighbors: names_of(self.metadata.neighbors@),
            messages: self.messages@,
        }
    }
}

impl Node {
    /// A node that has been told nothing and has seen nothing.
    pub fn new() -> (node: Self)
        ensures
            node@ == NodeView::fresh(),
    {
        let node = Node {
            metadata: NodeMetadata {
                id: None,
                node_ids: Vec::new(),
                topology: Vec::new(),
                neighbors: Vec::new(),
            },
            messages: MessageSet::new(),
        };
        proof {
            assert(names_of(node.metadata.node_ids@) =~= Seq::<Seq<char>>::empty());
            assert(names_of(node.metadata.neighbors@) =~= Seq::<Seq<char>>::empty());
            assert(adjacency_of(node.metadata.topology@) =~= Seq::<
                (Seq<char>, Seq<Seq<char>>),
            >::empty());
        }
        node
    }

    /// Every value this node has seen, once each, in no particular order.
    pub fn values(&self) -> (values: Vec<usize>)
        ensures
            values@.to_set() == self@.messages,
            values@.no_duplicates(),
    {
        self.messages.read()
    }
}

/// A copy of a declared adjacency.
pub fn clone_topology(topology: &Vec<(String, Vec<String>)>) -> (copy: Vec<(String, Vec<String>)>)
    ensures
        adjacency_of(copy@) == adjacency_of(topology@),
{
    let mut copy: Vec<(String, Vec<String>)> = Vec::new();
    let mut i: usize = 0;
    while i < topology.len()
        invariant
            i <= topology@.len(),
            copy@.len() == i,
            forall|k: int|
                0 <= k < i ==> (#[trigger] copy@[k]).0@ == topology@[k].0@ && copy@[k].1@
                    == topology@[k].1@,
        decreases topology@.len() - i,
    {
        let name = topology[i].0.clone();
        let list = clone_names(&topology[i].1);
        copy.push((name, list));
        i += 1;
    }
    proof {
        assert(adjacency_of(copy@) =~= adjacency_of(topology@));
    }
    copy
}

/// The `Broadcast` envelopes by which node `id` passes `message` on: one to
/// each of `neighbors` but `skip`, in their order.
pub open spec fn forwards(
    id: Seq<char>,
    neighbors: Seq<Seq<char>>,
    skip: Seq<char>,
    message: usize,
) -> Seq<EnvelopeView<MessageView>>
    decreases neighbors.len(),
{
    if neighbors.len() == 0 {
        Seq::empty()
    } else {
        let front = forwards(id, neighbors.drop_last(), skip, message);
        if neighbors.last() == skip {
            front
        } else {
            front.push(
                EnvelopeView {
                    src: id,
                    dest: neighbors.last(),
                    body: MessageView::Broadcast { msg_id: None, message },
                },
            )
        }
    }
}

/// What a list of envelopes holds.
pub open spec fn envelope_views(list: Seq<Envelope<Message>>) -> Seq<EnvelopeView<MessageView>> {
    Seq::new(list.len(), |i: int| list[i]@)
}

impl NodeView {
    /// A node that has been told nothing and has seen nothing.
    pub open spec fn fresh() -> NodeView {
        NodeView {
            id: None,
            node_ids: Seq::empty(),
            topology: Seq::empty(),
            neighbors: Seq::empty(),
            messages: Set::empty(),
        }
    }

    /// The neighbours that `topology` gives the node: those it declares for
    /// the node, or else the node's stride partition of the members, each
    /// once; nobody for a node that does not know who it is.
    pub open spec fn resolved(self, topology: Seq<(Seq<char>, Seq<Seq<char>>)>) -> Seq<Seq<char>> {
        match self.id {
            Some(id) => unique(resolve(id, self.node_ids, topology, STRIDE as int)),
            None => Seq::empty(),
        }
    }

    /// The envelope is for another node than this one.
    pub open spec fn misaddressed(self, envelope: EnvelopeView<MessageView>) -> bool {
        self.id is Some && self.id != Some(envelope.dest)
    }

    /// Why a forwarding node refuses `envelope`, if it does: the envelope is
    /// for another node, or it carries an answer that no node expects.
    pub open spec fn broadcaster_fault(self, envelope: EnvelopeView<MessageView>) -> Option<Fault> {
        if self.misaddressed(envelope) {
            Some(Fault::Misaddressed)
        } else {
            match envelope.body {
                MessageView::InitOk { .. } => Some(Fault::UnexpectedMessage),
                MessageView::TopologyOk { .. } => Some(Fault::UnexpectedMessage),
                MessageView::ReadOk { .. } => Some(Fault::UnexpectedMessage),
                _ => None,
            }
        }
    }

    /// Why a node that only records refuses `envelope`, if it does.
    pub open spec fn acknowledger_fault(self, envelope: EnvelopeView<MessageView>) -> Option<
        Fault,
    > {
        if self.misaddressed(envelope) {
            Some(Fault::Misaddressed)
        } else {
            match envelope.body {
                MessageView::InitOk { .. } => Some(Fault::UnexpectedMessage),
                MessageView::TopologyOk { .. } => Some(Fault::UnexpectedMessage),
                MessageView::BroadcastOk { .. } => Some(Fault::UnexpectedMessage),
                MessageView::ReadOk { .. } => Some(Fault::UnexpectedMessage),
                _ => None,
            }
        }
    }

    /// The node after an envelope it accepts.
    pub open spec fn accept(self, envelope: EnvelopeView<MessageView>) -> NodeView {
        match envelope.body {
            MessageView::Init { node_id, node_ids, .. } => NodeView {
                id: Some(node_id),
                node_ids,
                ..self
            },
            MessageView::Topology { topology, .. } => NodeView {
                topology,
                neighbors: self.resolved(topology),
                ..self
            },
            MessageView::Broadcast { message, .. } => NodeView {
                messages: self.messages.insert(message),
                ..self
            },
            _ => self,
        }
    }

    /// The answer back to the sender of `envelope` that carries `body`.
    pub open spec fn answer(
        envelope: EnvelopeView<MessageView>,
        body: MessageView,
    ) -> EnvelopeView<MessageView> {
        EnvelopeView { src: envelope.dest, dest: envelope.src, body }
    }

    /// The envelopes by which the node passes on the value of a `Broadcast`
    /// from `src`: for a value seen for the first time, one to every
    /// neighbour but the sender; for a value seen before, none.
    pub open spec fn passes_on(self, src: Seq<char>, message: usize) -> Seq<
        EnvelopeView<MessageView>,
    > {
        match self.id {
            Some(id) => if self.messages.contains(message) {
                Seq::empty()
            } else {
                forwards(id, self.neighbors, src, message)
            },
            None => Seq::empty(),
        }
    }

    /// Whether `sent` is what a forwarding node sends on an envelope it
    /// accepts. A `Broadcast` is confirmed to a client, whether or not the
    /// value was new, and never to a node; a new value is then passed on to
    /// every neighbour but the sender.
    pub open spec fn broadcaster_sends(
        self,
        envelope: EnvelopeView<MessageView>,
        sent: Seq<EnvelopeView<MessageView>>,
    ) -> bool {
        match envelope.body {
            MessageView::Init { msg_id, .. } => sent == seq![
                Self::answer(envelope, MessageView::InitOk { in_reply_to: msg_id }),
            ],
            MessageView::Topology { msg_id, .. } => sent == seq![
                Self::answer(envelope, MessageView::TopologyOk { in_reply_to: msg_id }),
            ],
            MessageView::Broadcast { msg_id, message } => {
                let confirmed = if self.node_ids.contains(envelope.src) {
                    Seq::<EnvelopeView<MessageView>>::empty()
                } else {
                    seq![Self::answer(envelope, MessageView::BroadcastOk { in_reply_to: msg_id })]
                };
                sent == confirmed + self.passes_on(envelope.src, message)
            },
            MessageView::Read { msg_id } => {
                &&& sent.len() == 1
                &&& sent[0].src == envelope.dest
                &&& sent[0].dest == envelope.src
                &&& sent[0].body matches MessageView::ReadOk { in_reply_to, messages }
                &&& in_reply_to == msg_id
                &&& messages.to_set() == self.messages
                &&& messages.no_duplicates()
            },
            _ => sent == Seq::<EnvelopeView<MessageView>>::empty(),
        }
    }

    /// Whether `sent` is what a node that only records sends on an envelope
    /// it accepts: the answer to the request, and nothing else.
    pub open spec fn acknowledger_sends(
        self,
        envelope: EnvelopeView<MessageView>,
        sent: Seq<EnvelopeView<MessageView>>,
    ) -> bool {
        match envelope.body {
            MessageView::Init { msg_id, .. } => sent == seq![
                Self::answer(envelope, MessageView::InitOk { in_reply_to: msg_id }),
            ],
            MessageView::Topology { msg_id, .. } => sent == seq![
                Self::answer(envelope, MessageView::TopologyOk { in_reply_to: msg_id }),
            ],
            MessageView::Broadcast { msg_id, .. } => sent == seq![
                Self::answer(envelope, MessageView::BroadcastOk { in_reply_to: msg_id }),
            ],
            MessageView::Read { msg_id } => {
                &&& sent.len() == 1
                &&& sent[0].src == envelope.dest
                &&& sent[0].dest == envelope.src
                &&& sent[0].body matches MessageView::ReadOk { in_reply_to, messages }
                &&& in_reply_to == msg_id
                &&& messages.to_set() == self.messages
                &&& messages.no_duplicates()
            },
            _ => sent == Seq::<EnvelopeView<MessageView>>::empty(),
        }
    }
}

/// A `Broadcast` is confirmed whatever the novelty: for a value the node has
/// seen before, a client gets its `BroadcastOk`, a node gets nothing, and
/// nothing is passed on.
pub proof fn law_known_value_is_confirmed_only(
    node: NodeView,
    envelope: EnvelopeView<MessageView>,
    sent: Seq<EnvelopeView<MessageView>>,
)
    requires
        envelope.body matches MessageView::Broadcast { message, .. } && node.messages.contains(
            message,
        ),
        node.broadcaster_sends(envelope, sent),
    ensures
        node.accept(envelope) == node,
        envelope.body matches MessageView::Broadcast { msg_id, .. } && sent == if node.node_ids.contains(
            envelope.src,
        ) {
            Seq::<EnvelopeView<MessageView>>::empty()
        } else {
            seq![NodeView::answer(envelope, MessageView::BroadcastOk { in_reply_to: msg_id })]
        },
{
    match envelope.body {
        MessageView::Broadcast { message, .. } => {
            assert(node.messages.insert(message) =~= node.messages);
            assert(node.passes_on(envelope.src, message) == Seq::<
                EnvelopeView<MessageView>,
            >::empty());
        },
        _ => {},
    }
}

/// A topology never gives a node the same neighbour twice.
pub proof fn law_neighbours_are_listed_once(
    node: NodeView,
    topology: Seq<(Seq<char>, Seq<Seq<char>>)>,
)
    ensures
        distinct(node.resolved(topology)),
{
    match node.id {
        Some(id) => {
            lemma_unique_distinct(resolve(id, node.node_ids, topology, STRIDE as int));
        },
        None => {},
    }
}

impl Node {
    /// Whether the envelope is for another node than this one.
    fn is_misaddressed(&self, envelope: &Envelope<Message>) -> (wrong: bool)
        ensures
            wrong == self@.misaddressed(envelope@),
    {
        match &self.metadata.id {
            Some(id) => !(*id == envelope.dest),
            None => false,
        }
    }

    fn remember(&mut self, node_id: &String, node_ids: &Vec<String>)
        ensures
            final(self)@ == (NodeView {
                id: Some(node_id@),
                node_ids: names_of(node_ids@),
                ..old(self)@
            }),
    {
        self.metadata.id = Some(node_id.clone());
        self.metadata.node_ids = clone_names(node_ids);
    }

    fn declare(&mut self, topology: &Vec<(String, Vec<String>)>)
        ensures
            final(self)@ == (NodeView {
                topology: adjacency_of(topology@),
                neighbors: old(self)@.resolved(adjacency_of(topology@)),
                ..old(self)@
            }),
    {
        let neighbors = match &self.metadata.id {
            Some(id) => {
                let resolved = resolve_neighbors(
                    id.as_str(),
                    &self.metadata.node_ids,
                    topology,
                    STRIDE,
                );
                dedup(&resolved)
            },
            None => {
                let nobody: Vec<String> = Vec::new();
                proof {
                    assert(names_of(nobody@) =~= Seq::<Seq<char>>::empty());
                }
                nobody
            },
        };
        self.metadata.topology = clone_topology(topology);
        self.metadata.neighbors = neighbors;
    }

    fn record(&mut self, message: usize) -> (fresh: bool)
        ensures
            final(self)@ == (NodeView {
                messages: old(self)@.messages.insert(message),
                ..old(self)@
            }),
            fresh == !old(self)@.messages.contains(message),
    {
        self.messages.observe(message)
    }
}

/// The loop that forwards. It owns its node: nothing else touches the state.
pub struct MessageBroadcaster {
    state: Node,
}

impl View for MessageBroadcaster {
    type V = NodeView;

    closed spec fn view(&self) -> NodeView {
        self.state@
    }
}

impl MessageBroadcaster {
    /// A loop around `state`.
    pub fn new(state: Node) -> (broadcaster: Self)
        ensures
            broadcaster@ == state@,
    {
        MessageBroadcaster { state }
    }

    /// The node, for a look at what it knows.
    pub fn state(&self) -> (state: &Node)
        ensures
            state@ == self@,
    {
        &self.state
    }

    /// One turn of the loop: handles `envelope` and returns what is to be
    /// sent. An envelope is refused, and then changes nothing, exactly if
    /// `broadcaster_fault` names a reason.
    pub fn run(&mut self, envelope: &Envelope<Message>) -> (outcome: Result<
        Vec<Envelope<Message>>,
        Fault,
    >)
        ensures
            match outcome {
                Ok(sent) => {
                    &&& old(self)@.broadcaster_fault(envelope@) is None
                    &&& final(self)@ == old(self)@.accept(envelope@)
                    &&& old(self)@.broadcaster_sends(envelope@, envelope_views(sent@))
                },
                Err(fault) => {
                    &&& old(self)@.broadcaster_fault(envelope@) == Some(fault)
                    &&& final(self)@ == old(self)@
                },
            },
    {
        if self.state.is_misaddressed(envelope) {
            return Err(Fault::Misaddressed);
        }
        let mut sent: Vec<Envelope<Message>> = Vec::new();
        match &envelope.body {
            Message::Init { msg_id, node_id, node_ids } => {
                self.state.remember(node_id, node_ids);
                sent.push(envelope.reply(Message::InitOk { in_reply_to: *msg_id }));
                proof {
                    assert(envelope_views(sent@) =~= seq![
                        NodeView::answer(envelope@, MessageView::InitOk { in_reply_to: *msg_id }),
                    ]);
                }
                Ok(sent)
            },
            Message::Topology { msg_id, topology } => {
                self.state.declare(topology);
                sent.push(envelope.reply(Message::TopologyOk { in_reply_to: *msg_id }));
                proof {
                    assert(envelope_views(sent@) =~= seq![
                        NodeView::answer(
                            envelope@,
                            MessageView::TopologyOk { in_reply_to: *msg_id },
                        ),
                    ]);
                }
                Ok(sent)
            },
            Message::Broadcast { msg_id, message } => {
                if !has_name(&self.state.metadata.node_ids, envelope.src.as_str()) {
                    sent.push(envelope.reply(Message::BroadcastOk { in_reply_to: *msg_id }));
                }
                let ghost confirmed = envelope_views(sent@);
                proof {
                    assert(confirmed =~= if old(self)@.node_ids.contains(envelope@.src) {
                        Seq::<EnvelopeView<MessageView>>::empty()
                    } else {
                        seq![
                            NodeView::answer(
                                envelope@,
                                MessageView::BroadcastOk { in_reply_to: *msg_id },
                            ),
                        ]
                    });
                    assert(confirmed + Seq::<EnvelopeView<MessageView>>::empty() =~= confirmed);
                }
                if !self.state.record(*message) {
                    proof {
                        assert(self@.messages =~= old(self)@.messages);
                    }
                    return Ok(sent);
                }
                let our_id = match &self.state.metadata.id {
                    Some(id) => id.clone(),
                    None => {
                        return Ok(sent);
                    },
                };
                let neighbors = clone_names(&self.state.metadata.neighbors);
                let ghost targets = names_of(neighbors@);
                let mut k: usize = 0;
                proof {
                    assert(targets.take(0) =~= Seq::<Seq<char>>::empty());
                    assert(envelope_views(sent@) =~= confirmed + forwards(
                        our_id@,
                        targets.take(0),
                        envelope@.src,
                        *message,
                    ));
                }
                while k < neighbors.len()
                    invariant
                        k <= neighbors@.len(),
                        targets == names_of(neighbors@),
                        envelope_views(sent@) == confirmed + forwards(
                            our_id@,
                            targets.take(k as int),
                            envelope@.src,
                            *message,
                        ),
                    decreases neighbors@.len() - k,
                {
                    let ghost before = envelope_views(sent@);
                    if !(neighbors[k] == envelope.src) {
                        let forward = Envelope::new(
                            our_id.as_str(),
                            neighbors[k].as_str(),
                            Message::Broadcast { msg_id: None, message: *message },
                        );
                        sent.push(forward);
                        proof {
                            assert(envelope_views(sent@) =~= before.push(
                                EnvelopeView {
                                    src: our_id@,
                                    dest: targets[k as int],
                                    body: MessageView::Broadcast { msg_id: None, message: *message },
                                },
                            ));
                        }
                    }
                    proof {
                        let next = targets.take(k as int + 1);
                        assert(next.drop_last() =~= targets.take(k as int));
                        assert(next.last() == targets[k as int]);
                        assert(envelope_views(sent@) =~= confirmed + forwards(
                            our_id@,
                            next,
                            envelope@.src,
                            *message,
                        ));
                    }
                    k += 1;
                }
                proof {
                    assert(targets.take(targets.len() as int) =~= targets);
                    assert(old(self)@.id == Some(our_id@));
                    assert(targets == old(self)@.neighbors);
                }
                Ok(sent)
            },
            Message::Read { msg_id } => {
                let messages = self.state.messages.read();
                sent.push(envelope.reply(Message::ReadOk { in_reply_to: *msg_id, messages }));
                Ok(sent)
            },
            Message::BroadcastOk { .. } => {
                proof {
                    assert(envelope_views(sent@) =~= Seq::empty());
                }
                Ok(sent)
            },
            _ => Err(Fault::UnexpectedMessage),
        }
    }
}

/// The loop of a node that only records what it is told and forwards
/// nothing. It owns its node.
pub struct MessageAcknowledger {
    state: Node,
}

impl View for MessageAcknowledger {
    type V = NodeView;

    closed spec fn view(&self) -> NodeView {
        self.state@
    }
}

impl MessageAcknowledger {
    /// A loop around `state`.
    pub fn new(state: Node) -> (acknowledger: Self)
        ensures
            acknowledger@ == state@,
    {
        MessageAcknowledger { state }
    }

    /// The node, for a look at what it knows.
    pub fn state(&self) -> (state: &Node)
        ensures
            state@ == self@,
    {
        &self.state
    }

    /// One turn of the loop: handles `envelope` and returns what is to be
    /// sent. An envelope is refused, and then changes nothing, exactly if
    /// `acknowledger_fault` names a reason.
    pub fn run(&mut self, envelope: &Envelope<Message>) -> (outcome: Result<
        Vec<Envelope<Message>>,
        Fault,
    >)
        ensures
            match outcome {
                Ok(sent) => {
                    &&& old(self)@.acknowledger_fault(envelope@) is None
                    &&& final(self)@ == old(self)@.accept(envelope@)
                    &&& old(self)@.acknowledger_sends(envelope@, envelope_views(sent@))
                },
                Err(fault) => {
                    &&& old(self)@.acknowledger_fault(envelope@) == Some(fault)
                    &&& final(self)@ == old(self)@
                },
            },
    {
        if self.state.is_misaddressed(envelope) {
            return Err(Fault::Misaddressed);
        }
        let mut sent: Vec<Envelope<Message>> = Vec::new();
        match &envelope.body {
            Message::Init { msg_id, node_id, node_ids } => {
                self.state.remember(node_id, node_ids);
                sent.push(envelope.reply(Message::InitOk { in_reply_to: *msg_id }));
                proof {
                    assert(envelope_views(sent@) =~= seq![
                        NodeView::answer(envelope@, MessageView::InitOk { in_reply_to: *msg_id }),
                    ]);
                }
                Ok(sent)
            },
            Message::Topology { msg_id, topology } => {
                self.state.declare(topology);
                sent.push(envelope.reply(Message::TopologyOk { in_reply_to: *msg_id }));
                proof {
                    assert(envelope_views(sent@) =~= seq![
                        NodeView::answer(
                            envelope@,
                            MessageView::TopologyOk { in_reply_to: *msg_id },
                        ),
                    ]);
                }
                Ok(sent)
            },
            Message::Broadcast { msg_id, message } => {
                self.state.record(*message);
                sent.push(envelope.reply(Message::BroadcastOk { in_reply_to: *msg_id }));
                proof {
                    assert(envelope_views(sent@) =~= seq![
                        NodeView::answer(
                            envelope@,
                            MessageView::BroadcastOk { in_reply_to: *msg_id },
                        ),
                    ]);
                }
                Ok(sent)
            },
            Message::Read { msg_id } => {
                let messages = self.state.messages.read();
                sent.push(envelope.reply(Message::ReadOk { in_reply_to: *msg_id, messages }));
                Ok(sent)
            },
            _ => Err(Fault::UnexpectedMessage),
        }
    }
}

} // verus!
