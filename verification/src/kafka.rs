//! A replicated-log node in its single-node form: one append-only log per
//! key, with the offset up to which each log has been committed.

use crate::envelope::{following, reply_to, Envelope, MessageIds};
use crate::names::{
    first_position, lemma_first_position, lemma_first_position_push,
    lemma_first_position_push_other, names_of, position_of,
};
use crate::protocol::adjacency_of;
use crate::topology::{resolve, resolve_neighbors, STRIDE};
use vstd::prelude::*;

verus! {

/// One key's log: the messages in the order they were appended, and how
/// many of them have been committed.
pub struct Log {
    storage: Vec<usize>,
    committed_offset: usize,
}

/// What a `Log` holds.
pub struct LogView {
    pub storage: Seq<usize>,
    pub committed_offset: usize,
}

impl View for Log {
    type V = LogView;

    closed spec fn view(&self) -> LogView {
        LogView { storage: self.storage@, committed_offset: self.committed_offset }
    }
}

impl LogView {
    /// The log with `msg` appended.
    pub open spec fn append(self, msg: usize) -> LogView {
        LogView { storage: self.storage.push(msg), ..self }
    }

    /// The log committed up to `offset`; a commit never moves backwards.
    pub open spec fn commit(self, offset: usize) -> LogView {
        LogView {
            committed_offset: if offset > self.committed_offset {
                offset
            } else {
                self.committed_offset
            },
            ..self
        }
    }

    /// The messages from `offset` on, each with its offset. Beyond the end
    /// of the log there are none.
    pub open spec fn from_offset(self, offset: usize) -> Seq<(usize, usize)> {
        if offset <= self.storage.len() {
            Seq::new(
                (self.storage.len() - offset) as nat,
                |i: int| ((offset + i) as usize, self.storage[offset + i]),
            )
        } else {
            Seq::empty()
        }
    }
}

/// The offset and message of each entry.
pub open spec fn entries_of(list: Seq<[usize; 2]>) -> Seq<(usize, usize)> {
    Seq::new(list.len(), |i: int| (list[i]@[0], list[i]@[1]))
}

impl Log {
    /// A log that holds `msgs`, all of them committed.
    pub fn new(msgs: &[usize]) -> (log: Self)
        ensures
            log@ == (LogView { storage: msgs@, committed_offset: msgs@.len() as usize }),
    {
        let mut storage: Vec<usize> = Vec::new();
        let mut i: usize = 0;
        while i < msgs.len()
            invariant
                i <= msgs@.len(),
                storage@ == msgs@.take(i as int),
            decreases msgs@.len() - i,
        {
            storage.push(msgs[i]);
            proof {
                assert(msgs@.take(i as int + 1) =~= msgs@.take(i as int).push(msgs@[i as int]));
            }
            i += 1;
        }
        proof {
            assert(msgs@.take(msgs@.len() as int) =~= msgs@);
        }
        Log { storage, committed_offset: msgs.len() }
    }

    /// Appends `msg` and returns how many messages the log then holds.
    pub fn append(&mut self, msg: usize) -> (length: usize)
        ensures
            final(self)@ == old(self)@.append(msg),
            length == old(self)@.storage.len() + 1,
    {
        self.storage.push(msg);
        self.storage.len()
    }

    /// Commits the log up to `offset`, unless it is committed further
    /// already.
    pub fn commit_offset(&mut self, offset: usize)
        ensures
            final(self)@ == old(self)@.commit(offset),
    {
        if offset > self.committed_offset {
            self.committed_offset = offset;
        }
    }

    /// How many messages the log holds.
    pub fn len(&self) -> (length: usize)
        ensures
            length == self@.storage.len(),
    {
        self.storage.len()
    }

    /// The offset up to which the log is committed.
    pub fn committed_offset(&self) -> (offset: usize)
        ensures
            offset == self@.committed_offset,
    {
        self.committed_offset
    }

    /// The messages from `offset` on, each as the pair of its offset and
    /// itself.
    pub fn messages_from(&self, offset: usize) -> (entries: Vec<[usize; 2]>)
        ensures
            entries_of(entries@) == self@.from_offset(offset),
    {
        let mut entries: Vec<[usize; 2]> = Vec::new();
        if offset > self.storage.len() {
            proof {
                assert(entries_of(entries@) =~= self@.from_offset(offset));
            }
            return entries;
        }
        let mut at: usize = offset;
        while at < self.storage.len()
            invariant
                offset <= at <= self.storage@.len(),
                entries@.len() == at - offset,
                forall|i: int|
                    0 <= i < entries@.len() ==> (#[trigger] entries@[i])@[0] == offset + i
                        && entries@[i]@[1] == self.storage@[offset + i],
            decreases self.storage@.len() - at,
        {
            entries.push([at, self.storage[at]]);
            at += 1;
        }
        proof {
            assert(entries_of(entries@) =~= self@.from_offset(offset));
        }
        entries
    }
}

/// What a node was told about itself and the cluster.
pub struct NodeState {
    pub id: String,
    pub neighbors: Vec<String>,
    pub all_nodes: Vec<String>,
}

/// What a `NodeState` holds.
pub struct NodeStateView {
    pub id: Seq<char>,
    pub neighbors: Seq<Seq<char>>,
    pub all_nodes: Seq<Seq<char>>,
}

impl View for NodeState {
    type V = NodeStateView;

    open spec fn view(&self) -> NodeStateView {
        NodeStateView {
            id: self.id@,
            neighbors: names_of(self.neighbors@),
            all_nodes: names_of(self.all_nodes@),
        }
    }
}

impl NodeStateView {
    /// The state after a topology has been announced: the neighbours are
    /// those it declares for the node, or else the node's stride partition
    /// of the members.
    pub open spec fn announced(self, topology: Seq<(Seq<char>, Seq<Seq<char>>)>) -> NodeStateView {
        NodeStateView {
            neighbors: resolve(self.id, self.all_nodes, topology, STRIDE as int),
            ..self
        }
    }
}

impl NodeState {
    /// A node that has been told nothing.
    pub fn new() -> (state: Self)
        ensures
            state@ == (NodeStateView {
                id: Seq::empty(),
                neighbors: Seq::empty(),
                all_nodes: Seq::empty(),
            }),
    {
        let state = NodeState { id: String::new(), neighbors: Vec::new(), all_nodes: Vec::new() };
        proof {
            assert(names_of(state.neighbors@) =~= Seq::<Seq<char>>::empty());
            assert(names_of(state.all_nodes@) =~= Seq::<Seq<char>>::empty());
        }
        state
    }

    /// Takes the node's neighbours from `topology`; if it declares none for
    /// the node, they are the node's stride partition of the members.
    pub fn save_topology(&mut self, topology: &Vec<(String, Vec<String>)>)
        ensures
            final(self)@ == old(self)@.announced(adjacency_of(topology@)),
    {
        self.neighbors = resolve_neighbors(self.id.as_str(), &self.all_nodes, topology, STRIDE);
    }

    /// Records the members of the cluster.
    pub fn save_nodes(&mut self, nodes: &[String])
        ensures
            final(self)@ == (NodeStateView { all_nodes: names_of(nodes@), ..old(self)@ }),
    {
        let mut all_nodes: Vec<String> = Vec::new();
        let mut i: usize = 0;
        while i < nodes.len()
            invariant
                i <= nodes@.len(),
                all_nodes@ == nodes@.take(i as int),
            decreases nodes@.len() - i,
        {
            all_nodes.push(nodes[i].clone());
            proof {
                assert(nodes@.take(i as int + 1) =~= nodes@.take(i as int).push(nodes@[i as int]));
            }
            i += 1;
        }
        proof {
            assert(nodes@.take(nodes@.len() as int) =~= nodes@);
        }
        self.all_nodes = all_nodes;
    }

    /// Records the node's identifier.
    pub fn set_id(&mut self, id: &String)
        ensures
            final(self)@ == (NodeStateView { id: id@, ..old(self)@ }),
    {
        self.id = id.clone();
    }
}

/// The logs of a node, one per key.
pub struct LogState {
    keys: Vec<String>,
    logs: Vec<Log>,
}

impl View for LogState {
    type V = Map<Seq<char>, LogView>;

    closed spec fn view(&self) -> Map<Seq<char>, LogView> {
        Map::new(
            |key: Seq<char>| first_position(names_of(self.keys@), key) is Some,
            |key: Seq<char>| self.logs@[first_position(names_of(self.keys@), key).unwrap()]@,
        )
    }
}

/// The logs after `msg` has been sent to `key`: appended to the key's log,
/// or the only message of a new log, which counts as committed.
pub open spec fn sent(logs: Map<Seq<char>, LogView>, key: Seq<char>, msg: usize) -> Map<
    Seq<char>,
    LogView,
> {
    if logs.dom().contains(key) {
        logs.insert(key, logs[key].append(msg))
    } else {
        logs.insert(key, LogView { storage: seq![msg], committed_offset: 1 })
    }
}

/// The offset that a send to `key` is answered with: the length of the
/// key's log after the send.
pub open spec fn sent_offset(logs: Map<Seq<char>, LogView>, key: Seq<char>) -> nat {
    if logs.dom().contains(key) {
        logs[key].storage.len() + 1
    } else {
        1
    }
}

/// The logs after `key` has been committed up to `offset`; a key without a
/// log changes nothing.
pub open spec fn committed(logs: Map<Seq<char>, LogView>, key: Seq<char>, offset: usize) -> Map<
    Seq<char>,
    LogView,
> {
    if logs.dom().contains(key) {
        logs.insert(key, logs[key].commit(offset))
    } else {
        logs
    }
}

/// The logs after each commit of `offsets`, in order.
pub open spec fn committed_all(
    logs: Map<Seq<char>, LogView>,
    offsets: Seq<(Seq<char>, usize)>,
) -> Map<Seq<char>, LogView>
    decreases offsets.len(),
{
    if offsets.len() == 0 {
        logs
    } else {
        committed(committed_all(logs, offsets.drop_last()), offsets.last().0, offsets.last().1)
    }
}

/// What a poll of `offsets` yields: for each key that has a log, in the
/// order asked, the key's messages from the offset on.
pub open spec fn polled(logs: Map<Seq<char>, LogView>, offsets: Seq<(Seq<char>, usize)>) -> Seq<
    (Seq<char>, Seq<(usize, usize)>),
>
    decreases offsets.len(),
{
    if offsets.len() == 0 {
        Seq::empty()
    } else {
        let front = polled(logs, offsets.drop_last());
        let (key, offset) = offsets.last();
        if logs.dom().contains(key) {
            front.push((key, logs[key].from_offset(offset)))
        } else {
            front
        }
    }
}

/// The committed offsets of `keys`: for each key that has a log, in the
/// order asked.
pub open spec fn listed_offsets(logs: Map<Seq<char>, LogView>, keys: Seq<Seq<char>>) -> Seq<
    (Seq<char>, usize),
>
    decreases keys.len(),
{
    if keys.len() == 0 {
        Seq::empty()
    } else {
        let front = listed_offsets(logs, keys.drop_last());
        if logs.dom().contains(keys.last()) {
            front.push((keys.last(), logs[keys.last()].committed_offset))
        } else {
            front
        }
    }
}

/// What a list of keys with offsets holds.
pub open spec fn offsets_of(list: Seq<(String, usize)>) -> Seq<(Seq<char>, usize)> {
    Seq::new(list.len(), |i: int| (list[i].0@, list[i].1))
}

/// What a list of keys with messages holds.
pub open spec fn batches_of(list: Seq<(String, Vec<[usize; 2]>)>) -> Seq<
    (Seq<char>, Seq<(usize, usize)>),
> {
    Seq::new(list.len(), |i: int| (list[i].0@, entries_of(list[i].1@)))
}

impl LogState {
    /// Every key has its log.
    pub closed spec fn wf(&self) -> bool {
        self.keys@.len() == self.logs@.len()
    }

    /// No logs at all.
    pub fn new() -> (state: Self)
        ensures
            state.wf(),
            state@ == Map::<Seq<char>, LogView>::empty(),
    {
        let state = LogState { keys: Vec::new(), logs: Vec::new() };
        proof {
            assert(state@ =~= Map::<Seq<char>, LogView>::empty());
        }
        state
    }

    /// How many messages the log of `key` holds, if the key has a log.
    pub fn len_of(&self, key: &str) -> (length: Option<usize>)
        requires
            self.wf(),
        ensures
            match length {
                Some(length) => self@.dom().contains(key@) && length
                    == self@[key@].storage.len(),
                None => !self@.dom().contains(key@),
            },
    {
        let at = position_of(&self.keys, key);
        proof {
            lemma_first_position(names_of(self.keys@), key@);
        }
        match at {
            Some(i) => Some(self.logs[i].len()),
            None => None,
        }
    }

    /// The messages of `key` from `offset` on, each as the pair of its
    /// offset and itself; nothing if the key has no log. The offset must not
    /// lie beyond the end of the log: `len_of` tells where that is.
    pub fn get_messages_from_offset(&self, key: &str, offset: usize) -> (found: Option<
        Vec<[usize; 2]>,
    >)
        requires
            self.wf(),
            self@.dom().contains(key@) ==> offset <= self@[key@].storage.len(),
        ensures
            match found {
                Some(entries) => self@.dom().contains(key@) && entries_of(entries@)
                    == self@[key@].from_offset(offset),
                None => !self@.dom().contains(key@),
            },
    {
        let at = position_of(&self.keys, key);
        proof {
            lemma_first_position(names_of(self.keys@), key@);
        }
        match at {
            Some(i) => Some(self.logs[i].messages_from(offset)),
            None => None,
        }
    }

    /// What a poll of `key` from `offset` yields: the messages from there
    /// on, none if the offset lies beyond the end of the log, and nothing if
    /// the key has no log.
    fn poll(&self, key: &str, offset: usize) -> (found: Option<Vec<[usize; 2]>>)
        requires
            self.wf(),
        ensures
            match found {
                Some(entries) => self@.dom().contains(key@) && entries_of(entries@)
                    == self@[key@].from_offset(offset),
                None => !self@.dom().contains(key@),
            },
    {
        match self.len_of(key) {
            Some(length) => {
                if offset <= length {
                    self.get_messages_from_offset(key, offset)
                } else {
                    let none: Vec<[usize; 2]> = Vec::new();
                    proof {
                        assert(entries_of(none@) =~= self@[key@].from_offset(offset));
                    }
                    Some(none)
                }
            },
            None => None,
        }
    }

    /// Commits the log of `key` up to `offset`, if the key has a log, and
    /// tells whether it has.
    pub fn commit_offset(&mut self, key: &str, offset: usize) -> (done: Option<()>)
        requires
            old(self).wf(),
        ensures
            final(self).wf(),
            final(self)@ == committed(old(self)@, key@, offset),
            done is Some == old(self)@.dom().contains(key@),
    {
        let at = position_of(&self.keys, key);
        proof {
            lemma_first_position(names_of(self.keys@), key@);
        }
        match at {
            Some(i) => {
                self.logs[i].commit_offset(offset);
                proof {
                    let names = names_of(self.keys@);
                    let goal = committed(old(self)@, key@, offset);
                    assert forall|n: Seq<char>| self@.dom().contains(n) implies goal.dom().contains(
                        n,
                    ) && self@[n] == goal[n] by {
                        lemma_first_position(names, n);
                    }
                    assert(self@ =~= goal);
                }
                Some(())
            },
            None => None,
        }
    }

    /// The offset up to which the log of `key` is committed, if the key has
    /// a log.
    pub fn get_committed_offset(&self, key: &str) -> (offset: Option<usize>)
        requires
            self.wf(),
        ensures
            offset == if self@.dom().contains(key@) {
                Some(self@[key@].committed_offset)
            } else {
                None
            },
    {
        let at = position_of(&self.keys, key);
        proof {
            lemma_first_position(names_of(self.keys@), key@);
        }
        match at {
            Some(i) => Some(self.logs[i].committed_offset()),
            None => None,
        }
    }

    /// Sends `msg` to `key` and returns the offset the send is answered
    /// with.
    pub fn send(&mut self, key: &str, msg: usize) -> (offset: usize)
        requires
            old(self).wf(),
        ensures
            final(self).wf(),
            final(self)@ == sent(old(self)@, key@, msg),
            offset == sent_offset(old(self)@, key@),
    {
        let at = position_of(&self.keys, key);
        proof {
            lemma_first_position(names_of(self.keys@), key@);
        }
        match at {
            Some(i) => {
                let offset = self.logs[i].append(msg);
                proof {
                    let names = names_of(self.keys@);
                    let goal = sent(old(self)@, key@, msg);
                    assert forall|n: Seq<char>| self@.dom().contains(n) implies goal.dom().contains(
                        n,
                    ) && self@[n] == goal[n] by {
                        lemma_first_position(names, n);
                    }
                    assert(self@ =~= goal);
                }
                offset
            },
            None => {
                let first = [msg];
                let log = Log::new(first.as_slice());
                self.keys.push(key.to_owned());
                self.logs.push(log);
                proof {
                    let before = names_of(old(self).keys@);
                    let after = names_of(self.keys@);
                    assert(after =~= before.push(key@));
                    lemma_first_position_push(before, key@);
                    assert forall|n: Seq<char>| n != key@ implies first_position(after, n)
                        == first_position(before, n) by {
                        lemma_first_position_push_other(before, key@, n);
                    }
                    assert forall|n: Seq<char>| first_position(before, n) is Some implies 0
                        <= first_position(before, n).unwrap() < before.len() by {
                        lemma_first_position(before, n);
                    }
                    assert(first@ =~= seq![msg]);
                    assert(self@ =~= sent(old(self)@, key@, msg));
                }
                1
            },
        }
    }
}

/// The messages of the log service.
#[derive(Debug, Clone, PartialEq, Eq)]
#[allow(inconsistent_fields)]
pub enum Message {
    Init { node_id: String, node_ids: Vec<String> },
    InitOk,
    Topology { topology: Vec<(String, Vec<String>)> },
    TopologyOk,
    Send { key: String, msg: usize },
    SendOk { offset: usize },
    Poll { offsets: Vec<(String, usize)> },
    PollOk { msgs: Vec<(String, Vec<[usize; 2]>)> },
    CommitOffsets { offsets: Vec<(String, usize)> },
    CommitOffsetsOk,
    ListCommittedOffsets { keys: Vec<String> },
    ListCommittedOffsetsOk { offsets: Vec<(String, usize)> },
}

/// What a `Message` holds.
#[allow(inconsistent_fields)]
pub enum MessageView {
    Init { node_id: Seq<char>, node_ids: Seq<Seq<char>> },
    InitOk,
    Topology { topology: Seq<(Seq<char>, Seq<Seq<char>>)> },
    TopologyOk,
    Send { key: Seq<char>, msg: usize },
    SendOk { offset: usize },
    Poll { offsets: Seq<(Seq<char>, usize)> },
    PollOk { msgs: Seq<(Seq<char>, Seq<(usize, usize)>)> },
    CommitOffsets { offsets: Seq<(Seq<char>, usize)> },
    CommitOffsetsOk,
    ListCommittedOffsets { keys: Seq<Seq<char>> },
    ListCommittedOffsetsOk { offsets: Seq<(Seq<char>, usize)> },
}

impl View for Message {
    type V = MessageView;

    open spec fn view(&self) -> MessageView {
        match self {
            Message::Init { node_id, node_ids } => MessageView::Init {
                node_id: node_id@,
                node_ids: names_of(node_ids@),
            },
            Message::InitOk => MessageView::InitOk,
            Message::Topology { topology } => MessageView::Topology {
                topology: adjacency_of(topology@),
            },
            Message::TopologyOk => MessageView::TopologyOk,
            Message::Send { key, msg } => MessageView::Send { key: key@, msg: *msg },
            Message::SendOk { offset } => MessageView::SendOk { offset: *offset },
            Message::Poll { offsets } => MessageView::Poll { offsets: offsets_of(offsets@) },
            Message::PollOk { msgs } => MessageView::PollOk { msgs: batches_of(msgs@) },
            Message::CommitOffsets { offsets } => MessageView::CommitOffsets {
                offsets: offsets_of(offsets@),
            },
            Message::CommitOffsetsOk => MessageView::CommitOffsetsOk,
            Message::ListCommittedOffsets { keys } => MessageView::ListCommittedOffsets {
                keys: names_of(keys@),
            },
            Message::ListCommittedOffsetsOk { offsets } => MessageView::ListCommittedOffsetsOk {
                offsets: offsets_of(offsets@),
            },
        }
    }
}

/// What the node was told, after `message`.
pub open spec fn told(node: NodeStateView, message: MessageView) -> NodeStateView {
    match message {
        MessageView::Init { node_id, node_ids } => NodeStateView {
            id: node_id,
            all_nodes: node_ids,
            ..node
        },
        MessageView::Topology { topology } => node.announced(topology),
        _ => node,
    }
}

/// The logs after `message`.
pub open spec fn logged(logs: Map<Seq<char>, LogView>, message: MessageView) -> Map<
    Seq<char>,
    LogView,
> {
    match message {
        MessageView::Send { key, msg } => sent(logs, key, msg),
        MessageView::CommitOffsets { offsets } => committed_all(logs, offsets),
        _ => logs,
    }
}

/// What a node with `logs` answers to `message`; an answer is not answered.
pub open spec fn answer(logs: Map<Seq<char>, LogView>, message: MessageView) -> Option<
    MessageView,
> {
    match message {
        MessageView::Init { .. } => Some(MessageView::InitOk),
        MessageView::Topology { .. } => Some(MessageView::TopologyOk),
        MessageView::Send { key, .. } => Some(
            MessageView::SendOk { offset: sent_offset(logs, key) as usize },
        ),
        MessageView::Poll { offsets } => Some(MessageView::PollOk { msgs: polled(logs, offsets) }),
        MessageView::CommitOffsets { .. } => Some(MessageView::CommitOffsetsOk),
        MessageView::ListCommittedOffsets { keys } => Some(
            MessageView::ListCommittedOffsetsOk { offsets: listed_offsets(logs, keys) },
        ),
        _ => None,
    }
}

/// Handles one envelope: the node and its logs change as `told` and `logged`
/// say, and a request is answered as `answer` says, in an envelope back to
/// the sender. An answer that arrives changes nothing and gets none.
pub fn handle_message(
    node_state: &mut NodeState,
    state: &mut LogState,
    envelope: &Envelope<Message>,
    ids: &mut MessageIds,
) -> (reply: Option<Envelope<Message>>)
    requires
        old(state).wf(),
    ensures
        final(state).wf(),
        final(node_state)@ == told(old(node_state)@, envelope@.message),
        final(state)@ == logged(old(state)@, envelope@.message),
        match reply {
            Some(reply) => {
                &&& answer(old(state)@, envelope@.message) == Some(reply@.message)
                &&& reply@ == reply_to(envelope@, old(ids)@, reply@.message)
                &&& final(ids)@ == following(old(ids)@)
            },
            None => answer(old(state)@, envelope@.message) is None && final(ids)@ == old(ids)@,
        },
{
    match envelope.message() {
        Message::Init { node_id, node_ids } => {
            node_state.set_id(node_id);
            node_state.save_nodes(node_ids.as_slice());
            Some(envelope.reply(Message::InitOk, ids))
        },
        Message::Topology { topology } => {
            node_state.save_topology(topology);
            Some(envelope.reply(Message::TopologyOk, ids))
        },
        Message::Send { key, msg } => {
            let offset = state.send(key.as_str(), *msg);
            Some(envelope.reply(Message::SendOk { offset }, ids))
        },
        Message::Poll { offsets } => {
            let ghost asked = offsets_of(offsets@);
            let mut msgs: Vec<(String, Vec<[usize; 2]>)> = Vec::new();
            let mut k: usize = 0;
            proof {
                assert(asked.take(0) =~= Seq::<(Seq<char>, usize)>::empty());
                assert(batches_of(msgs@) =~= polled(state@, asked.take(0)));
            }
            while k < offsets.len()
                invariant
                    k <= offsets@.len(),
                    state.wf(),
                    asked == offsets_of(offsets@),
                    batches_of(msgs@) == polled(state@, asked.take(k as int)),
                decreases offsets@.len() - k,
            {
                let ghost before = batches_of(msgs@);
                match state.poll(offsets[k].0.as_str(), offsets[k].1) {
                    Some(entries) => {
                        let key = offsets[k].0.clone();
                        let ghost earlier = msgs@;
                        msgs.push((key, entries));
                        proof {
                            assert(msgs@ == earlier.push((key, entries)));
                            assert(forall|i: int|
                                0 <= i < earlier.len() ==> batches_of(msgs@)[i] == before[i]);
                            assert(batches_of(msgs@) =~= before.push(
                                (asked[k as int].0, state@[asked[k as int].0].from_offset(
                                    asked[k as int].1,
                                )),
                            ));
                        }
                    },
                    None => {},
                }
                proof {
                    let next = asked.take(k as int + 1);
                    assert(next.drop_last() =~= asked.take(k as int));
                    assert(next.last() == asked[k as int]);
                }
                k += 1;
            }
            proof {
                assert(asked.take(asked.len() as int) =~= asked);
            }
            Some(envelope.reply(Message::PollOk { msgs }, ids))
        },
        Message::CommitOffsets { offsets } => {
            let ghost asked = offsets_of(offsets@);
            let mut k: usize = 0;
            proof {
                assert(asked.take(0) =~= Seq::<(Seq<char>, usize)>::empty());
            }
            while k < offsets.len()
                invariant
                    k <= offsets@.len(),
                    state.wf(),
                    asked == offsets_of(offsets@),
                    state@ == committed_all(old(state)@, asked.take(k as int)),
                decreases offsets@.len() - k,
            {
                state.commit_offset(offsets[k].0.as_str(), offsets[k].1);
                proof {
                    let next = asked.take(k as int + 1);
                    assert(next.drop_last() =~= asked.take(k as int));
                    assert(next.last() == asked[k as int]);
                }
                k += 1;
            }
            proof {
                assert(asked.take(asked.len() as int) =~= asked);
            }
            Some(envelope.reply(Message::CommitOffsetsOk, ids))
        },
        Message::ListCommittedOffsets { keys } => {
            let ghost asked = names_of(keys@);
            let mut offsets: Vec<(String, usize)> = Vec::new();
            let mut k: usize = 0;
            proof {
                assert(asked.take(0) =~= Seq::<Seq<char>>::empty());
                assert(offsets_of(offsets@) =~= listed_offsets(state@, asked.take(0)));
            }
            while k < keys.len()
                invariant
                    k <= keys@.len(),
                    state.wf(),
                    asked == names_of(keys@),
                    offsets_of(offsets@) == listed_offsets(state@, asked.take(k as int)),
                decreases keys@.len() - k,
            {
                let ghost before = offsets_of(offsets@);
                match state.get_committed_offset(keys[k].as_str()) {
                    Some(offset) => {
                        let key = keys[k].clone();
                        offsets.push((key, offset));
                        proof {
                            assert(offsets_of(offsets@) =~= before.push((asked[k as int], offset)));
                        }
                    },
                    None => {},
                }
                proof {
                    let next = asked.take(k as int + 1);
                    assert(next.drop_last() =~= asked.take(k as int));
                    assert(next.last() == asked[k as int]);
                }
                k += 1;
            }
            proof {
                assert(asked.take(asked.len() as int) =~= asked);
            }
            Some(envelope.reply(Message::ListCommittedOffsetsOk { offsets }, ids))
        },
        _ => None,
    }
}

} // verus!
