//! Flooding with a hand-over list: a node that sees a value for the first
//! time sends it to all its neighbours and tells each which nodes are still
//! to be reached; a neighbour serves those of them that are its own
//! neighbours and hands the rest on. A value seen before is sent nowhere.
//!
//! A node that has not been told who it is has no neighbours: it records
//! what it is sent and answers, and forwards nothing.

use crate::common::{Envelope, EnvelopeView};
use crate::message_set::MessageSet;
use crate::names::{
    clone_names, common_names, dedup, distinct, lemma_unique_distinct, names_of, other_names,
    select, unique,
};
use crate::protocol::adjacency_of;
use crate::topology::{resolve, resolve_neighbors, STRIDE};
use vstd::prelude::*;

verus! {

/// What one node asks of another.
#[derive(Debug, Clone, PartialEq, Eq)]
#[allow(inconsistent_fields)]
pub enum InternalRequest {
    /// Record `value`, and see that `remaining_nodes` get it.
    Add { value: usize, remaining_nodes: Vec<String> },
}

/// What a node answers another.
#[derive(Debug, Clone, PartialEq, Eq)]
#[allow(inconsistent_fields)]
pub enum InternalResponse {
    /// The value was recorded and sent on to `forwarded_to`.
    AddOk { forwarded_to: Vec<String> },
}

/// What a node is asked, by a client or by another node.
#[derive(Debug, Clone, PartialEq, Eq)]
#[allow(inconsistent_fields)]
pub enum Request {
    Init { msg_id: usize, node_id: String, node_ids: Vec<String> },
    Topology { msg_id: usize, topology: Vec<(String, Vec<String>)> },
    Broadcast { msg_id: usize, message: usize },
    Read { msg_id: usize },
    Internal { request: InternalRequest },
}

/// What a node answers.
#[derive(Debug, Clone, PartialEq, Eq)]
#[allow(inconsistent_fields)]
pub enum Response {
    InitOk { in_reply_to: usize },
    Topology { in_reply_to: usize },
    BroadcastOk { in_reply_to: usize },
    Read { in_reply_to: usize, messages: Vec<usize> },
    Internal { response: InternalResponse },
}

/// What an `InternalRequest` holds.
pub enum InternalRequestView {
    Add { value: usize, remaining_nodes: Seq<Seq<char>> },
}

/// What an `InternalResponse` holds.
pub enum InternalResponseView {
    AddOk { forwarded_to: Seq<Seq<char>> },
}

/// What a `Request` holds.
pub enum RequestView {
    Init { msg_id: usize, node_id: Seq<char>, node_ids: Seq<Seq<char>> },
    Topology { msg_id: usize, topology: Seq<(Seq<char>, Seq<Seq<char>>)> },
    Broadcast { msg_id: usize, message: usize },
    Read { msg_id: usize },
    Internal { request: InternalRequestView },
}

/// What a `Response` holds.
pub enum ResponseView {
    InitOk { in_reply_to: usize },
    Topology { in_reply_to: usize },
    BroadcastOk { in_reply_to: usize },
    Read { in_reply_to: usize, messages: Seq<usize> },
    Internal { response: InternalResponseView },
}

impl View for InternalRequest {
    type V = InternalRequestView;

    open spec fn view(&self) -> InternalRequestView {
        match self {
            InternalRequest::Add { value, remaining_nodes } => InternalRequestView::Add {
                value: *value,
                remaining_nodes: names_of(remaining_nodes@),
            },
        }
    }
}

impl View for InternalResponse {
    type V = InternalResponseView;

    open spec fn view(&self) -> InternalResponseView {
        match self {
            InternalResponse::AddOk { forwarded_to } => InternalResponseView::AddOk {
                forwarded_to: names_of(forwarded_to@),
            },
        }
    }
}

impl View for Request {
    type V = RequestView;

    open spec fn view(&self) -> RequestView {
        match self {
            Request::Init { msg_id, node_id, node_ids } => RequestView::Init {
                msg_id: *msg_id,
                node_id: node_id@,
                node_ids: names_of(node_ids@),
            },
            Request::Topology { msg_id, topology } => RequestView::Topology {
                msg_id: *msg_id,
                topology: adjacency_of(topology@),
            },
            Request::Broadcast { msg_id, message } => RequestView::Broadcast {
                msg_id: *msg_id,
                message: *message,
            },
            Request::Read { msg_id } => RequestView::Read { msg_id: *msg_id },
            Request::Internal { request } => RequestView::Internal { request: request@ },
        }
    }
}

impl View for Response {
    type V = ResponseView;

    open spec fn view(&self) -> ResponseView {
        match self {
            Response::InitOk { in_reply_to } => ResponseView::InitOk { in_reply_to: *in_reply_to },
            Response::Topology { in_reply_to } => ResponseView::Topology {
                in_reply_to: *in_reply_to,
            },
            Response::BroadcastOk { in_reply_to } => ResponseView::BroadcastOk {
                in_reply_to: *in_reply_to,
            },
            Response::Read { in_reply_to, messages } => ResponseView::Read {
                in_reply_to: *in_reply_to,
                messages: messages@,
            },
            Response::Internal { response } => ResponseView::Internal { response: response@ },
        }
    }
}

/// A flooding node.
pub struct Broadcast {
    node_id: Option<String>,
    neighbors: Vec<String>,
    messages: MessageSet,
    all_nodes: Option<Vec<String>>,
}

/// What a `Broadcast` holds.
pub struct BroadcastView {
    /// The node's identifier, once it has been told.
    pub node_id: Option<Seq<char>>,
    /// The node's neighbours, each once.
    pub neighbors: Seq<Seq<char>>,
    /// The values the node has seen.
    pub messages: Set<usize>,
    /// Every member of the cluster, each once, once the node has been told.
    pub all_nodes: Option<Seq<Seq<char>>>,
}

impl View for Broadcast {
    type V = BroadcastView;

    closed spec fn view(&self) -> BroadcastView {
        BroadcastView {
            node_id: match self.node_id {
                Some(id) => Some(id@),
                None => None,
            },
            neighbors: names_of(self.neighbors@),
            messages: self.messages@,
            all_nodes: match self.all_nodes {
                Some(nodes) => Some(names_of(nodes@)),
                None => None,
            },
        }
    }
}

/// What a node does about one envelope: what it answers, and what it sends
/// to other nodes.
pub struct Reaction {
    /// The answer to the sender.
    pub reply: Option<Envelope<Response>>,
    /// The requests to other nodes, in the order they are to be sent.
    pub forwarded: Vec<Envelope<Request>>,
}

/// What a node does about one request of another node.
pub struct Outcome {
    /// The answer to the other node.
    pub response: Option<Response>,
    /// The requests to further nodes, in the order they are to be sent.
    pub forwarded: Vec<Envelope<Request>>,
}

/// What a list of requests holds.
pub open spec fn request_views(list: Seq<Envelope<Request>>) -> Seq<EnvelopeView<RequestView>> {
    Seq::new(list.len(), |i: int| list[i]@)
}

/// The requests by which node `id` sends `value` to each of `forward_to`,
/// naming `remaining_nodes` as still to be reached.
pub open spec fn hand_over(
    id: Seq<char>,
    value: usize,
    forward_to: Seq<Seq<char>>,
    remaining_nodes: Seq<Seq<char>>,
) -> Seq<EnvelopeView<RequestView>> {
    Seq::new(
        forward_to.len(),
        |i: int|
            EnvelopeView {
                src: id,
                dest: forward_to[i],
                body: RequestView::Internal {
                    request: InternalRequestView::Add { value, remaining_nodes },
                },
            },
    )
}

impl BroadcastView {
    /// A node that has been told nothing and has seen nothing.
    pub open spec fn fresh() -> BroadcastView {
        BroadcastView {
            node_id: None,
            neighbors: Seq::empty(),
            messages: Set::empty(),
            all_nodes: None,
        }
    }

    /// No neighbour and no member is listed twice, and a node that does not
    /// know who it is has no neighbours.
    pub open spec fn valid(self) -> bool {
        &&& distinct(self.neighbors)
        &&& distinct(self.members())
        &&& self.node_id is None ==> self.neighbors.len() == 0
    }

    /// The members of the cluster as far as the node has been told: nobody
    /// before it has been initialised.
    pub open spec fn members(self) -> Seq<Seq<char>> {
        match self.all_nodes {
            Some(nodes) => nodes,
            None => Seq::empty(),
        }
    }

    /// The neighbours that `topology` gives the node: those it declares for
    /// the node, or else the node's stride partition of the members, each
    /// once; nobody for a node that does not know who it is.
    pub open spec fn resolved(self, topology: Seq<(Seq<char>, Seq<Seq<char>>)>) -> Seq<Seq<char>> {
        match self.node_id {
            Some(id) => unique(resolve(id, self.members(), topology, STRIDE as int)),
            None => Seq::empty(),
        }
    }

    /// The node after `request`.
    pub open spec fn accept(self, request: RequestView) -> BroadcastView {
        match request {
            RequestView::Init { node_id, node_ids, .. } => BroadcastView {
                node_id: Some(node_id),
                all_nodes: Some(unique(node_ids)),
                ..self
            },
            RequestView::Topology { topology, .. } => BroadcastView {
                neighbors: self.resolved(topology),
                ..self
            },
            RequestView::Broadcast { message, .. } => BroadcastView {
                messages: self.messages.insert(message),
                ..self
            },
            RequestView::Read { .. } => self,
            RequestView::Internal { request: InternalRequestView::Add { value, .. } } => {
                BroadcastView { messages: self.messages.insert(value), ..self }
            },
        }
    }

    /// The neighbours that serve a hand-over list: those that are on it.
    pub open spec fn served(self, remaining_nodes: Seq<Seq<char>>) -> Seq<Seq<char>> {
        common_names(self.neighbors, remaining_nodes)
    }

    /// What is left of a hand-over list once the node's neighbours on it
    /// have been served.
    pub open spec fn left_over(self, remaining_nodes: Seq<Seq<char>>) -> Seq<Seq<char>> {
        other_names(unique(remaining_nodes), self.served(remaining_nodes))
    }

    /// The neighbours to which the node passes `value` on when it comes
    /// with the hand-over list `remaining_nodes`: nobody if the node has
    /// seen the value before.
    pub open spec fn passed_to(self, value: usize, remaining_nodes: Seq<Seq<char>>) -> Seq<
        Seq<char>,
    > {
        if self.messages.contains(value) {
            Seq::empty()
        } else {
            self.served(remaining_nodes)
        }
    }

    /// What the node sends to other nodes on `request`. Only a value seen
    /// for the first time is sent on. A client's value goes to every
    /// neighbour, with the members that are not neighbours as the hand-over
    /// list; a value from a node goes to the neighbours on its list, with
    /// the rest of the list.
    pub open spec fn forwards(self, request: RequestView) -> Seq<EnvelopeView<RequestView>> {
        match (request, self.node_id) {
            (RequestView::Broadcast { message, .. }, Some(id)) => {
                if self.messages.contains(message) {
                    Seq::empty()
                } else {
                    hand_over(
                        id,
                        message,
                        self.neighbors,
                        other_names(self.members(), self.neighbors),
                    )
                }
            },
            (
                RequestView::Internal {
                    request: InternalRequestView::Add { value, remaining_nodes },
                },
                Some(id),
            ) => hand_over(
                id,
                value,
                self.passed_to(value, remaining_nodes),
                self.left_over(remaining_nodes),
            ),
            _ => Seq::empty(),
        }
    }

    /// Whether `response` is what the node answers to `request`. A
    /// `Broadcast` is confirmed whether or not the value was new, and a
    /// node is told to which neighbours its value was passed on.
    pub open spec fn responds(self, request: RequestView, response: ResponseView) -> bool {
        match request {
            RequestView::Init { msg_id, .. } => response == (ResponseView::InitOk {
                in_reply_to: msg_id,
            }),
            RequestView::Topology { msg_id, .. } => response == (ResponseView::Topology {
                in_reply_to: msg_id,
            }),
            RequestView::Broadcast { msg_id, .. } => response == (ResponseView::BroadcastOk {
                in_reply_to: msg_id,
            }),
            RequestView::Read { msg_id } => {
                &&& response matches ResponseView::Read { in_reply_to, messages }
                &&& in_reply_to == msg_id
                &&& messages.to_set() == self.messages
                &&& messages.no_duplicates()
            },
            RequestView::Internal {
                request: InternalRequestView::Add { value, remaining_nodes },
            } => {
                response == (ResponseView::Internal {
                    response: InternalResponseView::AddOk {
                        forwarded_to: self.passed_to(value, remaining_nodes),
                    },
                })
            },
        }
    }
}

impl Broadcast {
    /// No neighbour and no member is listed twice, and a node that does not
    /// know who it is has no neighbours.
    pub open spec fn wf(&self) -> bool {
        self@.valid()
    }

    /// A node that has been told nothing and has seen nothing.
    pub fn new() -> (node: Self)
        ensures
            node.wf(),
            node@ == BroadcastView::fresh(),
    {
        let node = Broadcast {
            node_id: None,
            neighbors: Vec::new(),
            messages: MessageSet::new(),
            all_nodes: None,
        };
        proof {
            assert(names_of(node.neighbors@) =~= Seq::<Seq<char>>::empty());
        }
        node
    }

    /// Whether the node has been told who it is.
    pub fn is_initialized(&self) -> (known: bool)
        ensures
            known == self@.node_id is Some,
    {
        self.node_id.is_some()
    }

    /// Every value this node has seen, once each, in no particular order.
    pub fn values(&self) -> (values: Vec<usize>)
        ensures
            values@.to_set() == self@.messages,
            values@.no_duplicates(),
    {
        self.messages.read()
    }

    /// The node's neighbours.
    pub fn neighbors(&self) -> (neighbors: Vec<String>)
        ensures
            names_of(neighbors@) == self@.neighbors,
    {
        clone_names(&self.neighbors)
    }

    /// The requests that send `message` to each node of `forward_to`, with
    /// `remaining_nodes` as the list of nodes still to be reached. The node
    /// must know who it is: the requests go out in its name.
    pub fn propagate(
        &self,
        message: usize,
        forward_to: Vec<String>,
        remaining_nodes: Vec<String>,
    ) -> (sent: Vec<Envelope<Request>>)
        requires
            self@.node_id is Some,
        ensures
            request_views(sent@) == hand_over(
                self@.node_id.unwrap(),
                message,
                names_of(forward_to@),
                names_of(remaining_nodes@),
            ),
    {
        let mut sent: Vec<Envelope<Request>> = Vec::new();
        match &self.node_id {
            Some(our_id) => {
                let mut k: usize = 0;
                while k < forward_to.len()
                    invariant
                        k <= forward_to@.len(),
                        sent@.len() == k,
                        forall|i: int|
                            0 <= i < k ==> (#[trigger] sent@[i])@ == (EnvelopeView {
                                src: our_id@,
                                dest: forward_to@[i]@,
                                body: RequestView::Internal {
                                    request: InternalRequestView::Add {
                                        value: message,
                                        remaining_nodes: names_of(remaining_nodes@),
                                    },
                                },
                            }),
                    decreases forward_to@.len() - k,
                {
                    let body = Request::Internal {
                        request: InternalRequest::Add {
                            value: message,
                            remaining_nodes: clone_names(&remaining_nodes),
                        },
                    };
                    sent.push(Envelope::new(our_id.as_str(), forward_to[k].as_str(), body));
                    k += 1;
                }
                proof {
                    assert(request_views(sent@) =~= hand_over(
                        our_id@,
                        message,
                        names_of(forward_to@),
                        names_of(remaining_nodes@),
                    ));
                }
            },
            None => {},
        }
        sent
    }

    /// Handles one envelope: the node changes as `accept` says, answers the
    /// sender as `responds` says, and sends other nodes what `forwards`
    /// says. Every request is answered.
    pub fn handle_message(&mut self, msg: &Envelope<Request>) -> (reaction: Reaction)
        requires
            old(self).wf(),
        ensures
            final(self).wf(),
            final(self)@ == old(self)@.accept(msg@.body),
            reaction.reply matches Some(reply) && reply@.src == msg@.dest && reply@.dest
                == msg@.src && old(self)@.responds(msg@.body, reply@.body),
            request_views(reaction.forwarded@) == old(self)@.forwards(msg@.body),
    {
        match &msg.body {
            Request::Init { msg_id, node_id, node_ids } => {
                self.node_id = Some(node_id.clone());
                self.all_nodes = Some(dedup(node_ids));
                let forwarded: Vec<Envelope<Request>> = Vec::new();
                proof {
                    lemma_unique_distinct(names_of(node_ids@));
                    assert(request_views(forwarded@) =~= Seq::empty());
                }
                Reaction {
                    reply: Some(msg.reply(Response::InitOk { in_reply_to: *msg_id })),
                    forwarded,
                }
            },
            Request::Topology { msg_id, topology } => {
                let nobody: Vec<String> = Vec::new();
                proof {
                    assert(names_of(nobody@) =~= Seq::<Seq<char>>::empty());
                }
                let neighbors = match &self.node_id {
                    Some(id) => {
                        let resolved = match &self.all_nodes {
                            Some(members) => resolve_neighbors(
                                id.as_str(),
                                members,
                                topology,
                                STRIDE,
                            ),
                            None => resolve_neighbors(id.as_str(), &nobody, topology, STRIDE),
                        };
                        proof {
                            lemma_unique_distinct(names_of(resolved@));
                        }
                        dedup(&resolved)
                    },
                    None => nobody,
                };
                self.neighbors = neighbors;
                let forwarded: Vec<Envelope<Request>> = Vec::new();
                proof {
                    assert(request_views(forwarded@) =~= Seq::empty());
                }
                Reaction {
                    reply: Some(msg.reply(Response::Topology { in_reply_to: *msg_id })),
                    forwarded,
                }
            },
            Request::Broadcast { msg_id, message } => {
                let mut forwarded: Vec<Envelope<Request>> = Vec::new();
                proof {
                    assert(request_views(forwarded@) =~= Seq::empty());
                }
                if self.messages.observe(*message) {
                    if self.node_id.is_some() {
                        let remaining_nodes = match &self.all_nodes {
                            Some(all_nodes) => select(all_nodes, &self.neighbors, false),
                            None => {
                                let nobody: Vec<String> = Vec::new();
                                proof {
                                    assert(names_of(nobody@) =~= Seq::<Seq<char>>::empty());
                                }
                                select(&nobody, &self.neighbors, false)
                            },
                        };
                        let forward_to = clone_names(&self.neighbors);
                        forwarded = self.propagate(*message, forward_to, remaining_nodes);
                    }
                } else {
                    proof {
                        assert(self.messages@ =~= old(self).messages@);
                    }
                }
                Reaction {
                    reply: Some(msg.reply(Response::BroadcastOk { in_reply_to: *msg_id })),
                    forwarded,
                }
            },
            Request::Read { msg_id } => {
                let messages = self.messages.read();
                let forwarded: Vec<Envelope<Request>> = Vec::new();
                proof {
                    assert(request_views(forwarded@) =~= Seq::empty());
                }
                Reaction {
                    reply: Some(msg.reply(Response::Read { in_reply_to: *msg_id, messages })),
                    forwarded,
                }
            },
            Request::Internal { request } => {
                let outcome = process_internal_message_request(self, request);
                match outcome.response {
                    Some(response) => Reaction {
                        reply: Some(msg.reply(response)),
                        forwarded: outcome.forwarded,
                    },
                    None => Reaction { reply: None, forwarded: outcome.forwarded },
                }
            },
        }
    }
}

/// Whether `request` brings `value` to the node.
pub open spec fn carries(request: RequestView, value: usize) -> bool {
    match request {
        RequestView::Broadcast { message, .. } => message == value,
        RequestView::Internal { request: InternalRequestView::Add { value: added, .. } } => added
            == value,
        _ => false,
    }
}

/// A value floods once. When a node has handled a value, from a client or
/// from a node, handling it again changes nothing and sends nothing on; a
/// client's `Broadcast` is confirmed all the same, and a node is told that
/// its value was passed on to nobody.
pub proof fn law_value_floods_once(
    node: BroadcastView,
    first: RequestView,
    again: RequestView,
    value: usize,
)
    requires
        carries(first, value),
        carries(again, value),
    ensures
        node.accept(first).accept(again) == node.accept(first),
        node.accept(first).forwards(again) == Seq::<EnvelopeView<RequestView>>::empty(),
        again matches RequestView::Broadcast { msg_id, .. } ==> node.accept(first).responds(
            again,
            ResponseView::BroadcastOk { in_reply_to: msg_id },
        ),
        again is Internal ==> node.accept(first).responds(
            again,
            ResponseView::Internal {
                response: InternalResponseView::AddOk { forwarded_to: Seq::empty() },
            },
        ),
{
    let seen = node.accept(first);
    assert(seen.messages.contains(value));
    assert(seen.messages.insert(value) =~= seen.messages);
    match again {
        RequestView::Internal { request: InternalRequestView::Add { remaining_nodes, .. } } => {
            assert(seen.passed_to(value, remaining_nodes) == Seq::<Seq<char>>::empty());
            assert(seen.forwards(again) =~= Seq::<EnvelopeView<RequestView>>::empty());
        },
        _ => {},
    }
}

/// Handles what another node asks: records the value and answers with the
/// neighbours it was passed on to. A value seen for the first time is passed
/// on to the neighbours that are on the hand-over list, with what is left of
/// the list; a value seen before is passed on to nobody.
pub fn process_internal_message_request(broadcast: &mut Broadcast, msg: &InternalRequest) -> (done:
    Outcome)
    requires
        old(broadcast).wf(),
    ensures
        final(broadcast).wf(),
        final(broadcast)@ == old(broadcast)@.accept(RequestView::Internal { request: msg@ }),
        done.response matches Some(response) && old(broadcast)@.responds(
            RequestView::Internal { request: msg@ },
            response@,
        ),
        request_views(done.forwarded@) == old(broadcast)@.forwards(
            RequestView::Internal { request: msg@ },
        ),
{
    match msg {
        InternalRequest::Add { value, remaining_nodes } => {
            let mut forwarded: Vec<Envelope<Request>> = Vec::new();
            let mut passed_to: Vec<String> = Vec::new();
            proof {
                assert(request_views(forwarded@) =~= Seq::empty());
                assert(names_of(passed_to@) =~= Seq::<Seq<char>>::empty());
            }
            if broadcast.messages.observe(*value) {
                // The neighbours that are on the list are served from here.
                let forward_to = select(&broadcast.neighbors, remaining_nodes, true);
                passed_to = clone_names(&forward_to);
                if broadcast.node_id.is_some() {
                    // The rest of the list is handed on with the value.
                    let listed = dedup(remaining_nodes);
                    let left = select(&listed, &forward_to, false);
                    forwarded = broadcast.propagate(*value, forward_to, left);
                } else {
                    proof {
                        reveal(Seq::filter);
                    }
                }
            } else {
                proof {
                    assert(broadcast.messages@ =~= old(broadcast).messages@);
                }
            }
            Outcome {
                response: Some(
                    Response::Internal {
                        response: InternalResponse::AddOk { forwarded_to: passed_to },
                    },
                ),
                forwarded,
            }
        },
    }
}

} // verus!
