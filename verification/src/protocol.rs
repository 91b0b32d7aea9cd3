//! The messages a gossiping node exchanges with clients and with its peers.

use crate::names::names_of;
use vstd::prelude::*;

verus! {

/// A declared adjacency: for each listed node, the nodes it talks to.
pub open spec fn adjacency_of(list: Seq<(String, Vec<String>)>) -> Seq<(Seq<char>, Seq<Seq<char>>)> {
    Seq::new(list.len(), |i: int| (list[i].0@, names_of(list[i].1@)))
}

/// Every message of the protocol. A client sends `Init`, `Topology`,
/// `Broadcast` and `Read` and gets the matching `..Ok`; nodes send each other
/// `Sync` and answer with `SyncOk`.
#[derive(Debug, Clone, PartialEq, Eq)]
#[allow(inconsistent_fields)]
pub enum Message {
    Init { node_id: String, node_ids: Vec<String> },
    InitOk,
    Topology { topology: Vec<(String, Vec<String>)> },
    TopologyOk,
    Broadcast { message: usize },
    BroadcastOk,
    Read,
    ReadOk { messages: Vec<usize> },
    Sync { messages: Vec<usize> },
    SyncOk { messages: Vec<usize> },
}

/// What a `Message` holds.
pub enum MessageView {
    Init { node_id: Seq<char>, node_ids: Seq<Seq<char>> },
    InitOk,
    Topology { topology: Seq<(Seq<char>, Seq<Seq<char>>)> },
    TopologyOk,
    Broadcast { message: usize },
    BroadcastOk,
    Read,
    ReadOk { messages: Seq<usize> },
    Sync { messages: Seq<usize> },
    SyncOk { messages: Seq<usize> },
}

impl View for Message {
    type V = MessageView;

    open spec fn view(&self) -> MessageView {
        match self {
            Message::Init { node_id, node_ids } => MessageView::Init {
                node_id: node_id@,
                node_ids: names_of(node_ids@),
            },
            Message::InitOk => MessageView::InitOk,
            Message::Topology { topology } => MessageView::Topology {
                topology: adjacency_of(topology@),
            },
            Message::TopologyOk => MessageView::TopologyOk,
            Message::Broadcast { message } => MessageView::Broadcast { message: *message },
            Message::BroadcastOk => MessageView::BroadcastOk,
            Message::Read => MessageView::Read,
            Message::ReadOk { messages } => MessageView::ReadOk { messages: messages@ },
            Message::Sync { messages } => MessageView::Sync { messages: messages@ },
            Message::SyncOk { messages } => MessageView::SyncOk { messages: messages@ },
        }
    }
}

impl MessageView {
    /// Whether a node acts on this message. The rest are answers, which a
    /// node never expects to receive.
    pub open spec fn is_request(self) -> bool {
        self is Init || self is Topology || self is Broadcast || self is Read || self is Sync
            || self is SyncOk
    }

    /// The name that tells this message's variant apart on the wire.
    pub open spec fn kind_name(self) -> Seq<char> {
        match self {
            MessageView::Init { .. } => "init"@,
            MessageView::InitOk => "init_ok"@,
            MessageView::Topology { .. } => "topology"@,
            MessageView::TopologyOk => "topology_ok"@,
            MessageView::Broadcast { .. } => "broadcast"@,
            MessageView::BroadcastOk => "broadcast_ok"@,
            MessageView::Read => "read"@,
            MessageView::ReadOk { .. } => "read_ok"@,
            MessageView::Sync { .. } => "sync"@,
            MessageView::SyncOk { .. } => "sync_ok"@,
        }
    }
}

impl Message {
    /// The name that tells this message's variant apart on the wire.
    pub fn kind_name(&self) -> (name: String)
        ensures
            name@ == self@.kind_name(),
    {
        match self {
            Message::Init { .. } => "init".to_owned(),
            Message::InitOk => "init_ok".to_owned(),
            Message::Topology { .. } => "topology".to_owned(),
            Message::TopologyOk => "topology_ok".to_owned(),
            Message::Broadcast { .. } => "broadcast".to_owned(),
            Message::BroadcastOk => "broadcast_ok".to_owned(),
            Message::Read => "read".to_owned(),
            Message::ReadOk { .. } => "read_ok".to_owned(),
            Message::Sync { .. } => "sync".to_owned(),
            Message::SyncOk { .. } => "sync_ok".to_owned(),
        }
    }

    /// Whether a node acts on this message.
    pub fn is_request(&self) -> (request: bool)
        ensures
            request == self@.is_request(),
    {
        match self {
            Message::Init { .. } => true,
            Message::Topology { .. } => true,
            Message::Broadcast { .. } => true,
            Message::Read => true,
            Message::Sync { .. } => true,
            Message::SyncOk { .. } => true,
            _ => false,
        }
    }
}

/// Why a node refused an envelope.
#[derive(Debug, Clone, PartialEq, Eq)]
#[allow(inconsistent_fields)]
pub enum Error {
    /// The envelope carried a message a node does not act on; the field holds
    /// the message's type name.
    UnexpectedMessage(String),
}

impl Error {
    /// A sentence that says what went wrong.
    pub fn describe(&self) -> (text: String)
        ensures
            match self {
                Error::UnexpectedMessage(kind) => text@ == "unexpected message: "@ + kind@,
            },
    {
        match self {
            Error::UnexpectedMessage(kind) => {
                let text = "unexpected message: ".to_owned();
                text.concat(kind.as_str())
            },
        }
    }
}

} // verus!
