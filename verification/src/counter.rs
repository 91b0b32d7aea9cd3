//! A grow-only counter kept in a sequentially consistent key-value store.
//!
//! A node collects the amounts it is asked to add and writes them to the
//! store with one compare-and-set at a time: from the total it last saw to
//! that total plus what it has collected. While a compare-and-set is under
//! way nothing else is written. If the store refuses, some other node has
//! written in between, and the node asks the store for the total.

use crate::common::Fault;
use crate::envelope::{
    following, names_a_node, nth_id, reply_to, Envelope, EnvelopeView, MessageIds,
};
use crate::names::{clone_names, names_of};
use crate::protocol::adjacency_of;
use vstd::prelude::*;

verus! {

/// The messages of the counter service and of the key-value store.
#[derive(Debug, Clone, PartialEq, Eq)]
#[allow(inconsistent_fields)]
pub enum Message {
    Init { node_id: String, node_ids: Vec<String> },
    InitOk,
    Topology { topology: Vec<(String, Vec<String>)> },
    TopologyOk,
    Add { delta: usize },
    AddOk,
    Read { key: Option<String> },
    ReadOk { value: usize },
    Write { key: String, value: usize },
    WriteOk,
    Cas { key: String, from: usize, to: usize, create_if_not_exists: Option<bool> },
    CasOk,
    Error { code: usize, text: String },
}

/// What a `Message` holds.
#[allow(inconsistent_fields)]
pub enum MessageView {
    Init { node_id: Seq<char>, node_ids: Seq<Seq<char>> },
    InitOk,
    Topology { topology: Seq<(Seq<char>, Seq<Seq<char>>)> },
    TopologyOk,
    Add { delta: usize },
    AddOk,
    Read { key: Option<Seq<char>> },
    ReadOk { value: usize },
    Write { key: Seq<char>, value: usize },
    WriteOk,
    Cas { key: Seq<char>, from: usize, to: usize, create_if_not_exists: Option<bool> },
    CasOk,
    Error { code: usize, text: Seq<char> },
}

impl View for Message {
    type V = MessageView;

    open spec fn view(&self) -> MessageView {
        match self {
            Message::Init { node_id, node_ids } => MessageView::Init {
                node_id: node_id@,
                node_ids: names_of(node_ids@),
            },
            Message::InitOk => MessageView::InitOk,
            Message::Topology { topology } => MessageView::Topology {
                topology: adjacency_of(topology@),
            },
            Message::TopologyOk => MessageView::TopologyOk,
            Message::Add { delta } => MessageView::Add { delta: *delta },
            Message::AddOk => MessageView::AddOk,
            Message::Read { key } => MessageView::Read {
                key: match key {
                    Some(key) => Some(key@),
                    None => None,
                },
            },
            Message::ReadOk { value } => MessageView::ReadOk { value: *value },
            Message::Write { key, value } => MessageView::Write { key: key@, value: *value },
            Message::WriteOk => MessageView::WriteOk,
            Message::Cas { key, from, to, create_if_not_exists } => MessageView::Cas {
                key: key@,
                from: *from,
                to: *to,
                create_if_not_exists: *create_if_not_exists,
            },
            Message::CasOk => MessageView::CasOk,
            Message::Error { code, text } => MessageView::Error { code: *code, text: text@ },
        }
    }
}

/// The name of the key-value store.
pub open spec fn store() -> Seq<char> {
    "seq-kv"@
}

/// The key under which the store keeps the counter.
pub open spec fn total_key() -> Seq<char> {
    "total"@
}

/// Whether an envelope belongs to the talk with the key-value store: the
/// store sent it or is to get it, or it asks to read a key.
pub open spec fn concerns_store(envelope: EnvelopeView<MessageView>) -> bool {
    ||| envelope.src == store()
    ||| envelope.dest == store()
    ||| envelope.message matches MessageView::Read { key: Some(_) }
}

/// Whether an envelope belongs to the talk with the key-value store.
pub fn is_a_kv_store_envelope(envelope: &Envelope<Message>) -> (found: bool)
    ensures
        found == concerns_store(envelope@),
{
    let store = "seq-kv".to_owned();
    if envelope.src == store || envelope.dest == store {
        return true;
    }
    match envelope.message() {
        Message::Read { key } => key.is_some(),
        _ => false,
    }
}

/// The envelope by which node `src` sends `message` to the store under
/// identifier `id`.
pub open spec fn to_store(src: Seq<char>, id: usize, message: MessageView) -> EnvelopeView<
    MessageView,
> {
    EnvelopeView { src, dest: store(), msg_id: Some(id), in_reply_to: None, message }
}

/// An envelope from `src` to the key-value store that carries `message`.
pub fn message_for_kv_store(src: &str, message: Message, ids: &mut MessageIds) -> (envelope:
    Envelope<Message>)
    ensures
        envelope@ == to_store(src@, old(ids)@, message@),
        final(ids)@ == following(old(ids)@),
{
    Envelope::new(src, "seq-kv", None, message, ids)
}

/// What the wait of one turn produced.
pub enum Event {
    /// An envelope arrived.
    Inbound(Envelope<Message>),
    /// Nothing arrived in time.
    Timeout,
    /// Nothing will arrive any more.
    Disconnected,
}

/// What an `Event` holds.
pub enum EventView {
    Inbound(EnvelopeView<MessageView>),
    Timeout,
    Disconnected,
}

impl View for Event {
    type V = EventView;

    open spec fn view(&self) -> EventView {
        match self {
            Event::Inbound(envelope) => EventView::Inbound(envelope@),
            Event::Timeout => EventView::Timeout,
            Event::Disconnected => EventView::Disconnected,
        }
    }
}

/// The state of a counter node.
pub struct Counter {
    node_id: String,
    all_nodes: Vec<String>,
    value: usize,
    last_cas_flushed: usize,
    pending_add: usize,
    cas_pending: bool,
    last_cas: usize,
}

/// What a `Counter` holds.
pub struct CounterView {
    /// The node's identifier.
    pub node_id: Seq<char>,
    /// Every member of the cluster.
    pub all_nodes: Seq<Seq<char>>,
    /// A total that the store held at some time in the past.
    pub value: usize,
    /// The total that the compare-and-set under way writes.
    pub last_cas_flushed: usize,
    /// What has been added here and not yet written to the store.
    pub pending_add: usize,
    /// Whether a compare-and-set is under way.
    pub cas_pending: bool,
    /// The identifier of the compare-and-set under way.
    pub last_cas: usize,
}

impl View for Counter {
    type V = CounterView;

    closed spec fn view(&self) -> CounterView {
        CounterView {
            node_id: self.node_id@,
            all_nodes: names_of(self.all_nodes@),
            value: self.value,
            last_cas_flushed: self.last_cas_flushed,
            pending_add: self.pending_add,
            cas_pending: self.cas_pending,
            last_cas: self.last_cas,
        }
    }
}

/// The envelopes by which node `own` asks each other node of `nodes` for
/// its total, with identifiers counted on from `id`.
pub open spec fn asks(own: Seq<char>, nodes: Seq<Seq<char>>, id: usize) -> Seq<
    EnvelopeView<MessageView>,
>
    decreases nodes.len(),
{
    if nodes.len() == 0 {
        Seq::empty()
    } else {
        let front = asks(own, nodes.drop_last(), id);
        if nodes.last() == own {
            front
        } else {
            front.push(
                EnvelopeView {
                    src: own,
                    dest: nodes.last(),
                    msg_id: Some(nth_id(id, front.len())),
                    in_reply_to: None,
                    message: MessageView::Read { key: None },
                },
            )
        }
    }
}

/// What a list of envelopes holds.
pub open spec fn envelope_views(list: Seq<Envelope<Message>>) -> Seq<EnvelopeView<MessageView>> {
    Seq::new(list.len(), |i: int| list[i]@)
}

impl CounterView {
    /// A node that has been told nothing and has counted nothing.
    pub open spec fn fresh() -> CounterView {
        CounterView {
            node_id: Seq::empty(),
            all_nodes: Seq::empty(),
            value: 0,
            last_cas_flushed: 0,
            pending_add: 0,
            cas_pending: false,
            last_cas: 0,
        }
    }

    /// The node after `event`, and what it sends about it, with identifiers
    /// counted on from `id`.
    pub open spec fn react(self, event: EventView, id: usize) -> (
        CounterView,
        Seq<EnvelopeView<MessageView>>,
    ) {
        match event {
            EventView::Inbound(envelope) => match envelope.message {
                MessageView::Init { node_id, node_ids } => (
                    CounterView {
                        node_id,
                        all_nodes: node_ids,
                        last_cas: following(id),
                        cas_pending: true,
                        ..self
                    },
                    seq![
                        reply_to(envelope, id, MessageView::InitOk),
                        to_store(
                            node_id,
                            following(id),
                            MessageView::Cas {
                                key: total_key(),
                                from: 0,
                                to: 0,
                                create_if_not_exists: Some(true),
                            },
                        ),
                    ],
                ),
                MessageView::Topology { .. } => (
                    self,
                    seq![reply_to(envelope, id, MessageView::TopologyOk)],
                ),
                MessageView::Read { .. } => (
                    self,
                    seq![reply_to(envelope, id, MessageView::ReadOk { value: self.value })],
                ),
                MessageView::Add { delta } => (
                    CounterView { pending_add: (self.pending_add + delta) as usize, ..self },
                    seq![reply_to(envelope, id, MessageView::AddOk)],
                ),
                MessageView::CasOk => if envelope.in_reply_to == Some(self.last_cas) {
                    (
                        CounterView {
                            pending_add: 0,
                            value: self.last_cas_flushed,
                            last_cas: 0,
                            cas_pending: false,
                            ..self
                        },
                        Seq::empty(),
                    )
                } else {
                    (self, Seq::empty())
                },
                MessageView::ReadOk { value } => (
                    CounterView {
                        value: if names_a_node(envelope.src) && self.value > value {
                            self.value
                        } else {
                            value
                        },
                        ..self
                    },
                    Seq::empty(),
                ),
                MessageView::Error { .. } => (
                    CounterView { cas_pending: false, ..self },
                    seq![
                        to_store(self.node_id, id, MessageView::Read { key: Some(total_key()) }),
                    ],
                ),
                _ => (self, Seq::empty()),
            },
            EventView::Timeout => (
                self,
                if self.pending_add == 0 {
                    asks(self.node_id, self.all_nodes, id)
                } else {
                    Seq::empty()
                },
            ),
            EventView::Disconnected => (self, Seq::empty()),
        }
    }

    /// Whether the node has something to write and may write it.
    pub open spec fn owes(self) -> bool {
        self.pending_add != 0 && !self.cas_pending
    }

    /// The node after it has written what it owes, and the compare-and-set
    /// it sends, under identifier `id`.
    pub open spec fn settle(self, id: usize) -> (CounterView, Seq<EnvelopeView<MessageView>>) {
        if self.owes() {
            let total = (self.value + self.pending_add) as usize;
            (
                CounterView { last_cas_flushed: total, last_cas: id, cas_pending: true, ..self },
                seq![
                    to_store(
                        self.node_id,
                        id,
                        MessageView::Cas {
                            key: total_key(),
                            from: self.value,
                            to: total,
                            create_if_not_exists: None,
                        },
                    ),
                ],
            )
        } else {
            (self, Seq::empty())
        }
    }

    /// Whether the counts that `event` leads to can be held: what is added
    /// fits, and so does the total that is then written.
    pub open spec fn fits(self, event: EventView) -> bool {
        &&& event matches EventView::Inbound(envelope) ==> (envelope.message matches MessageView::Add {
            delta,
        } ==> self.pending_add + delta <= usize::MAX)
        &&& {
            let after = self.react(event, 0).0;
            after.owes() ==> after.value + after.pending_add <= usize::MAX
        }
    }

    /// One turn: the node after `event` and after writing what it then owes,
    /// and everything it sends, with identifiers counted on from `id`.
    pub open spec fn step(self, event: EventView, id: usize) -> (
        CounterView,
        Seq<EnvelopeView<MessageView>>,
    ) {
        let (reacted, first) = self.react(event, id);
        let (settled, second) = reacted.settle(nth_id(id, first.len()));
        (settled, first + second)
    }
}

impl Counter {
    /// A node that has been told nothing and has counted nothing.
    pub fn new() -> (counter: Self)
        ensures
            counter@ == CounterView::fresh(),
    {
        let counter = Counter {
            node_id: String::new(),
            all_nodes: Vec::new(),
            value: 0,
            last_cas_flushed: 0,
            pending_add: 0,
            cas_pending: false,
            last_cas: 0,
        };
        proof {
            assert(names_of(counter.all_nodes@) =~= Seq::<Seq<char>>::empty());
        }
        counter
    }

    /// The total as far as this node knows it.
    pub fn value(&self) -> (value: usize)
        ensures
            value == self@.value,
    {
        self.value
    }

    /// What has been added here and not yet written to the store.
    pub fn pending_add(&self) -> (pending: usize)
        ensures
            pending == self@.pending_add,
    {
        self.pending_add
    }

    /// Whether the counts that `event` leads to can be held.
    pub fn accepts(&self, event: &Event) -> (fits: bool)
        ensures
            fits == self@.fits(event@),
    {
        let mut value = self.value;
        let mut pending = self.pending_add;
        let mut busy = self.cas_pending;
        match event {
            Event::Inbound(envelope) => match envelope.message() {
                Message::Init { .. } => {
                    busy = true;
                },
                Message::Add { delta } => {
                    match pending.checked_add(*delta) {
                        Some(sum) => {
                            pending = sum;
                        },
                        None => {
                            return false;
                        },
                    }
                },
                Message::CasOk => {
                    if envelope.in_reply_to() == Some(self.last_cas) {
                        pending = 0;
                        value = self.last_cas_flushed;
                        busy = false;
                    }
                },
                Message::ReadOk { value: seen } => {
                    if envelope.is_internal() && value > *seen {
                    } else {
                        value = *seen;
                    }
                },
                Message::Error { .. } => {
                    busy = false;
                },
                _ => {},
            },
            _ => {},
        }
        if pending != 0 && !busy {
            value.checked_add(pending).is_some()
        } else {
            true
        }
    }
}

/// One turn of a counter node: handles what the wait produced, writes to the
/// store what is then owed, and returns everything to be sent, in order. A
/// turn whose counts cannot be held is refused and changes nothing.
pub fn handle_message(state: &mut Counter, event: &Event, ids: &mut MessageIds) -> (outcome: Result<
    Vec<Envelope<Message>>,
    Fault,
>)
    ensures
        match outcome {
            Ok(sent) => {
                &&& old(state)@.fits(event@)
                &&& final(state)@ == old(state)@.step(event@, old(ids)@).0
                &&& envelope_views(sent@) == old(state)@.step(event@, old(ids)@).1
                &&& final(ids)@ == nth_id(old(ids)@, sent@.len())
            },
            Err(fault) => {
                &&& !old(state)@.fits(event@)
                &&& fault == Fault::Overflow
                &&& final(state)@ == old(state)@
                &&& final(ids)@ == old(ids)@
            },
        },
{
    if !state.accepts(event) {
        return Err(Fault::Overflow);
    }
    let mut sent: Vec<Envelope<Message>> = Vec::new();
    let ghost first_id = ids@;
    proof {
        assert(nth_id(first_id, 0) == first_id);
        assert(nth_id(first_id, 1) == following(first_id));
        assert(nth_id(first_id, 2) == following(following(first_id)));
    }
    match event {
        Event::Inbound(envelope) => match envelope.message() {
            Message::Init { node_id, node_ids } => {
                state.node_id = node_id.clone();
                state.all_nodes = clone_names(node_ids);
                sent.push(envelope.reply(Message::InitOk, ids));
                let cas = message_for_kv_store(
                    state.node_id.as_str(),
                    Message::Cas {
                        key: "total".to_owned(),
                        from: 0,
                        to: 0,
                        create_if_not_exists: Some(true),
                    },
                    ids,
                );
                match cas.msg_id() {
                    Some(id) => {
                        state.last_cas = id;
                    },
                    None => {},
                }
                sent.push(cas);
                state.cas_pending = true;
            },
            Message::Topology { .. } => {
                sent.push(envelope.reply(Message::TopologyOk, ids));
            },
            Message::Read { .. } => {
                sent.push(envelope.reply(Message::ReadOk { value: state.value }, ids));
            },
            Message::Add { delta } => {
                state.pending_add = state.pending_add + *delta;
                sent.push(envelope.reply(Message::AddOk, ids));
            },
            Message::CasOk => {
                if envelope.in_reply_to() == Some(state.last_cas) {
                    state.pending_add = 0;
                    state.value = state.last_cas_flushed;
                    state.last_cas = 0;
                    state.cas_pending = false;
                }
            },
            Message::ReadOk { value } => {
                if envelope.is_internal() && state.value > *value {
                } else {
                    state.value = *value;
                }
            },
            Message::Error { .. } => {
                state.cas_pending = false;
                sent.push(
                    message_for_kv_store(
                        state.node_id.as_str(),
                        Message::Read { key: Some("total".to_owned()) },
                        ids,
                    ),
                );
            },
            _ => {},
        },
        Event::Timeout => {
            if state.pending_add == 0 {
                let ghost nodes = names_of(state.all_nodes@);
                let mut k: usize = 0;
                proof {
                    assert(nodes.take(0) =~= Seq::<Seq<char>>::empty());
                    assert(envelope_views(sent@) =~= asks(state@.node_id, nodes.take(0), first_id));
                }
                while k < state.all_nodes.len()
                    invariant
                        k <= state.all_nodes@.len(),
                        state@ == old(state)@,
                        nodes == names_of(state.all_nodes@),
                        envelope_views(sent@) == asks(
                            state@.node_id,
                            nodes.take(k as int),
                            first_id,
                        ),
                        ids@ == nth_id(first_id, sent@.len()),
                    decreases state.all_nodes@.len() - k,
                {
                    let ghost before = envelope_views(sent@);
                    if !(state.all_nodes[k] == state.node_id) {
                        let ask = Envelope::new(
                            state.node_id.as_str(),
                            state.all_nodes[k].as_str(),
                            None,
                            Message::Read { key: None },
                            ids,
                        );
                        sent.push(ask);
                        proof {
                            assert(envelope_views(sent@) =~= before.push(
                                EnvelopeView {
                                    src: state@.node_id,
                                    dest: nodes[k as int],
                                    msg_id: Some(nth_id(first_id, before.len())),
                                    in_reply_to: None,
                                    message: MessageView::Read { key: None },
                                },
                            ));
                        }
                    }
                    proof {
                        let next = nodes.take(k as int + 1);
                        assert(next.drop_last() =~= nodes.take(k as int));
                        assert(next.last() == nodes[k as int]);
                    }
                    k += 1;
                }
                proof {
                    assert(nodes.take(nodes.len() as int) =~= nodes);
                }
            }
        },
        Event::Disconnected => {},
    }
    let ghost reacted = old(state)@.react(event@, first_id);
    proof {
        assert(old(state)@.react(event@, 0).0.value == reacted.0.value);
        assert(old(state)@.react(event@, 0).0.pending_add == reacted.0.pending_add);
        assert(old(state)@.react(event@, 0).0.cas_pending == reacted.0.cas_pending);
        assert(state@ == reacted.0);
        assert(envelope_views(sent@) =~= reacted.1);
        assert(ids@ == nth_id(first_id, reacted.1.len()));
    }
    if state.pending_add != 0 && !state.cas_pending {
        state.last_cas_flushed = state.value + state.pending_add;
        let cas = message_for_kv_store(
            state.node_id.as_str(),
            Message::Cas {
                key: "total".to_owned(),
                from: state.value,
                to: state.last_cas_flushed,
                create_if_not_exists: None,
            },
            ids,
        );
        match cas.msg_id() {
            Some(id) => {
                state.last_cas = id;
            },
            None => {},
        }
        state.cas_pending = true;
        sent.push(cas);
    }
    proof {
        let settled = reacted.0.settle(nth_id(first_id, reacted.1.len()));
        assert(state@ == settled.0);
        assert(envelope_views(sent@) =~= reacted.1 + settled.1);
    }
    Ok(sent)
}

} // verus!
