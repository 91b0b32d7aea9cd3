//! Convergence of a cluster: with a fixed topology in which every node can
//! be reached from every other, a bounded number of flush rounds brings
//! every node to know every value that any node knew.
//!
//! The cluster is a sequence of nodes. A delivery is one `Sync` that arrives:
//! the sender's whole buffer for the receiver is handled by the receiver,
//! and, unless the answer is lost, the `SyncOk` is handled by the sender. A
//! `Sync` that is lost is no delivery at all, since a flush leaves the
//! buffers as they are.

use crate::envelope::EnvelopeView;
use crate::laws::{
    lemma_acknowledged_members, lemma_enqueued_members, lemma_fan_out_buffer, lemma_sync_effect,
};
use crate::node::{is_flush, NodeView};
use crate::outbox::pending_for;
use crate::protocol::MessageView;
use vstd::prelude::*;

verus! {

/// The values pending at `node` for `neighbor`, as a set.
pub open spec fn pending_set(node: NodeView, neighbor: Seq<char>) -> Set<usize> {
    pending_for(node.outbox, neighbor).to_set()
}

/// Whatever is pending at `node` is a value the node has seen.
pub open spec fn buffers_known(node: NodeView) -> bool {
    forall|n: Seq<char>| #[trigger] pending_set(node, n).subset_of(node.messages)
}

/// Node `from` gossips to node `to`: they are two nodes of the cluster, and
/// `to` is among the neighbours of `from`.
pub open spec fn edge(nodes: Seq<NodeView>, from: int, to: int) -> bool {
    &&& 0 <= from < nodes.len()
    &&& 0 <= to < nodes.len()
    &&& from != to
    &&& nodes[from].neighbors.contains(nodes[to].id)
}

/// Whatever `from` has seen, `to` has seen too or will be sent: it is
/// pending at `from` for `to`.
pub open spec fn owed(nodes: Seq<NodeView>, from: int, to: int) -> bool {
    nodes[from].messages.subset_of(
        nodes[to].messages.union(pending_set(nodes[from], nodes[to].id)),
    )
}

/// The state a cluster is in while its topology stays as it is: the nodes
/// have different identifiers, every buffer holds only values its node has
/// seen, and along every edge nothing is forgotten.
pub open spec fn consistent(nodes: Seq<NodeView>) -> bool {
    &&& forall|i: int, j: int|
        0 <= i < j < nodes.len() ==> (#[trigger] nodes[i]).id != (#[trigger] nodes[j]).id
    &&& forall|i: int| 0 <= i < nodes.len() ==> buffers_known(#[trigger] nodes[i])
    &&& forall|a: int, b: int| #[trigger] edge(nodes, a, b) ==> owed(nodes, a, b)
}

/// The two clusters have the same nodes with the same neighbours.
pub open spec fn same_topology(before: Seq<NodeView>, after: Seq<NodeView>) -> bool {
    &&& after.len() == before.len()
    &&& forall|i: int|
        0 <= i < before.len() ==> (#[trigger] after[i]).id == before[i].id && after[i].neighbors
            == before[i].neighbors
}

/// No node of `after` has lost a value it had seen in `before`.
pub open spec fn grown(before: Seq<NodeView>, after: Seq<NodeView>) -> bool {
    &&& after.len() == before.len()
    &&& forall|i: int|
        0 <= i < before.len() ==> before[i].messages.subset_of((#[trigger] after[i]).messages)
}

/// Every value that some node of the cluster has seen.
pub open spec fn known(nodes: Seq<NodeView>) -> Set<usize> {
    Set::new(
        |v: usize| exists|i: int| 0 <= i < nodes.len() && (#[trigger] nodes[i]).messages.contains(v),
    )
}

/// One `Sync` that arrives, from node `from` to node `to`, and whether its
/// `SyncOk` arrives too.
pub struct Delivery {
    pub from: int,
    pub to: int,
    pub acknowledged: bool,
}

/// The cluster after a delivery. A node with nothing pending for the
/// receiver sends nothing.
pub open spec fn deliver(nodes: Seq<NodeView>, delivery: Delivery) -> Seq<NodeView> {
    if 0 <= delivery.from < nodes.len() && 0 <= delivery.to < nodes.len() && delivery.from
        != delivery.to {
        let sender = nodes[delivery.from];
        let receiver = nodes[delivery.to];
        let batch = pending_for(sender.outbox, receiver.id);
        if batch.len() == 0 {
            nodes
        } else {
            let received = nodes.update(delivery.to, receiver.sync(sender.id, batch));
            if delivery.acknowledged {
                received.update(delivery.from, sender.sync_ok(receiver.id, batch))
            } else {
                received
            }
        }
    } else {
        nodes
    }
}

/// The cluster after the deliveries of `schedule`, in order.
pub open spec fn run(nodes: Seq<NodeView>, schedule: Seq<Delivery>) -> Seq<NodeView>
    decreases schedule.len(),
{
    if schedule.len() == 0 {
        nodes
    } else {
        deliver(run(nodes, schedule.drop_last()), schedule.last())
    }
}

/// Some delivery of `round` goes from `from` to `to`.
pub open spec fn carried(round: Seq<Delivery>, from: int, to: int) -> bool {
    exists|k: int| 0 <= k < round.len() && (#[trigger] round[k]).from == from && round[k].to == to
}

/// A round in which every node's flush reaches every neighbour: each edge
/// of the topology carries at least one delivery.
pub open spec fn complete_round(nodes: Seq<NodeView>, round: Seq<Delivery>) -> bool {
    forall|a: int, b: int| #[trigger] edge(nodes, a, b) ==> carried(round, a, b)
}

/// The cluster after the rounds of `rounds`, in order.
pub open spec fn run_rounds(nodes: Seq<NodeView>, rounds: Seq<Seq<Delivery>>) -> Seq<NodeView>
    decreases rounds.len(),
{
    if rounds.len() == 0 {
        nodes
    } else {
        run(run_rounds(nodes, rounds.drop_last()), rounds.last())
    }
}

/// Node `to` can be reached from node `from` along at most `hops` edges.
pub open spec fn reaches(nodes: Seq<NodeView>, from: int, to: int, hops: nat) -> bool
    decreases hops,
{
    if from == to {
        0 <= from < nodes.len()
    } else if hops == 0 {
        false
    } else {
        exists|mid: int| #[trigger]
            edge(nodes, mid, to) && reaches(nodes, from, mid, (hops - 1) as nat)
    }
}

/// Clusters with the same topology have the same edges.
pub proof fn lemma_same_edges(before: Seq<NodeView>, after: Seq<NodeView>)
    requires
        same_topology(before, after),
    ensures
        forall|a: int, b: int| #[trigger] edge(after, a, b) == edge(before, a, b),
{
    assert forall|a: int, b: int| #[trigger] edge(after, a, b) == edge(before, a, b) by {
        if 0 <= a < before.len() && 0 <= b < before.len() {
            assert(after[a].neighbors == before[a].neighbors);
            assert(after[b].id == before[b].id);
        }
    }
}

/// A delivery keeps a consistent cluster consistent and its topology as it
/// was; no node forgets a value and none learns a value that no node knew;
/// and along an edge the receiver then knows whatever the sender knew.
pub proof fn lemma_deliver(nodes: Seq<NodeView>, delivery: Delivery)
    requires
        consistent(nodes),
    ensures
        consistent(deliver(nodes, delivery)),
        same_topology(nodes, deliver(nodes, delivery)),
        grown(nodes, deliver(nodes, delivery)),
        known(deliver(nodes, delivery)) == known(nodes),
        edge(nodes, delivery.from, delivery.to) ==> nodes[delivery.from].messages.subset_of(
            deliver(nodes, delivery)[delivery.to].messages,
        ),
{
    let after = deliver(nodes, delivery);
    let a = delivery.from;
    let b = delivery.to;
    if 0 <= a < nodes.len() && 0 <= b < nodes.len() && a != b {
        let sender = nodes[a];
        let receiver = nodes[b];
        let batch = pending_for(sender.outbox, receiver.id);
        assert(buffers_known(sender));
        assert(pending_set(sender, receiver.id).subset_of(sender.messages));
        if batch.len() == 0 {
            assert(batch.to_set() =~= Set::<usize>::empty());
            if edge(nodes, a, b) {
                assert(owed(nodes, a, b));
            }
        } else {
            let received = receiver.sync(sender.id, batch);
            let settled = if delivery.acknowledged {
                sender.sync_ok(receiver.id, batch)
            } else {
                sender
            };
            lemma_sync_effect(receiver, sender.id, batch);
            assert(after.len() == nodes.len());
            assert(after[b] == received);
            assert(after[a] == settled);
            assert(forall|i: int| 0 <= i < nodes.len() && i != a && i != b ==> after[i] == nodes[i]);
            assert(sender.id != receiver.id);
            assert(sender.outbox.dom().contains(receiver.id));
            lemma_acknowledged_members(batch, batch);
            // What is pending at the sender afterwards.
            assert forall|n: Seq<char>| #[trigger]
                pending_set(settled, n).subset_of(pending_set(sender, n)) && (n != receiver.id
                    ==> pending_set(settled, n) == pending_set(sender, n)) by {
                if delivery.acknowledged && n == receiver.id {
                    assert(pending_for(settled.outbox, n).to_set() =~= Set::<usize>::empty());
                }
            }
            assert(same_topology(nodes, after));
            assert(grown(nodes, after));
            lemma_same_edges(nodes, after);
            assert forall|i: int| 0 <= i < after.len() implies buffers_known(#[trigger] after[i]) by {
                assert(buffers_known(nodes[i]));
                if i == b {
                    assert forall|n: Seq<char>| #[trigger]
                        pending_set(received, n).subset_of(received.messages) by {
                        assert(pending_set(receiver, n).subset_of(receiver.messages));
                    }
                } else if i == a {
                    assert forall|n: Seq<char>| #[trigger]
                        pending_set(settled, n).subset_of(settled.messages) by {
                        assert(pending_set(sender, n).subset_of(sender.messages));
                        assert(pending_set(settled, n).subset_of(pending_set(sender, n)));
                    }
                }
            }
            assert forall|x: int, y: int| #[trigger] edge(after, x, y) implies owed(after, x, y) by {
                assert(edge(nodes, x, y));
                assert(owed(nodes, x, y));
                let target = nodes[y].id;
                assert(after[y].id == target);
                if x == a {
                    assert(pending_set(settled, target).subset_of(pending_set(sender, target)));
                    if y == b {
                    } else {
                        assert(target != receiver.id);
                        assert(pending_set(settled, target) == pending_set(sender, target));
                    }
                } else if x == b {
                    assert(receiver.neighbors.contains(target));
                    if y == a {
                        assert(pending_for(received.outbox, target) == pending_for(
                            receiver.outbox,
                            target,
                        ));
                    } else {
                        assert(target != sender.id);
                        assert(pending_for(received.outbox, target).to_set() == pending_set(
                            receiver,
                            target,
                        ).union(batch.to_set().difference(receiver.messages)));
                    }
                } else {
                }
            }
            assert(known(after) =~= known(nodes)) by {
                assert forall|v: usize| known(after).contains(v) implies known(nodes).contains(
                    v,
                ) by {
                    let i = choose|i: int|
                        0 <= i < after.len() && (#[trigger] after[i]).messages.contains(v);
                    if i == b {
                        if receiver.messages.contains(v) {
                            assert(nodes[b].messages.contains(v));
                        } else {
                            assert(batch.to_set().contains(v));
                            assert(nodes[a].messages.contains(v));
                        }
                    } else {
                        assert(nodes[i].messages.contains(v));
                    }
                }
                assert forall|v: usize| known(nodes).contains(v) implies known(after).contains(
                    v,
                ) by {
                    let i = choose|i: int|
                        0 <= i < nodes.len() && (#[trigger] nodes[i]).messages.contains(v);
                    assert(after[i].messages.contains(v));
                }
            }
            if edge(nodes, a, b) {
                assert(owed(nodes, a, b));
            }
        }
    }
}

/// A schedule of deliveries keeps a consistent cluster consistent and its
/// topology as it was; no node forgets a value and none learns a value that
/// no node knew.
pub proof fn lemma_run(nodes: Seq<NodeView>, schedule: Seq<Delivery>)
    requires
        consistent(nodes),
    ensures
        consistent(run(nodes, schedule)),
        same_topology(nodes, run(nodes, schedule)),
        grown(nodes, run(nodes, schedule)),
        known(run(nodes, schedule)) == known(nodes),
    decreases schedule.len(),
{
    if schedule.len() > 0 {
        let mid = run(nodes, schedule.drop_last());
        lemma_run(nodes, schedule.drop_last());
        lemma_deliver(mid, schedule.last());
        let after = run(nodes, schedule);
        assert forall|i: int| 0 <= i < nodes.len() implies (#[trigger] after[i]).id == nodes[i].id
            && after[i].neighbors == nodes[i].neighbors && nodes[i].messages.subset_of(
            after[i].messages,
        ) by {
            assert(mid[i].id == nodes[i].id);
            assert(nodes[i].messages.subset_of(mid[i].messages));
        }
    }
}

/// A delivery along an edge hands over what the sender knew when the
/// schedule began: at the end of the schedule the receiver knows it.
pub proof fn lemma_schedule_hands_over(
    nodes: Seq<NodeView>,
    schedule: Seq<Delivery>,
    from: int,
    to: int,
    at: int,
)
    requires
        consistent(nodes),
        edge(nodes, from, to),
        0 <= at < schedule.len(),
        schedule[at].from == from,
        schedule[at].to == to,
    ensures
        nodes[from].messages.subset_of(run(nodes, schedule)[to].messages),
    decreases schedule.len(),
{
    let front = schedule.drop_last();
    let mid = run(nodes, front);
    lemma_run(nodes, front);
    lemma_deliver(mid, schedule.last());
    lemma_same_edges(nodes, mid);
    let after = run(nodes, schedule);
    if at == schedule.len() - 1 {
        assert(edge(mid, from, to));
        assert(nodes[from].messages.subset_of(mid[from].messages));
    } else {
        assert(front[at] == schedule[at]);
        lemma_schedule_hands_over(nodes, front, from, to, at);
        assert(mid[to].messages.subset_of(after[to].messages));
    }
}

/// Rounds of deliveries keep a consistent cluster consistent and its
/// topology as it was; no node forgets a value and none learns a value that
/// no node knew.
pub proof fn lemma_run_rounds(nodes: Seq<NodeView>, rounds: Seq<Seq<Delivery>>)
    requires
        consistent(nodes),
    ensures
        consistent(run_rounds(nodes, rounds)),
        same_topology(nodes, run_rounds(nodes, rounds)),
        grown(nodes, run_rounds(nodes, rounds)),
        known(run_rounds(nodes, rounds)) == known(nodes),
    decreases rounds.len(),
{
    if rounds.len() > 0 {
        let mid = run_rounds(nodes, rounds.drop_last());
        lemma_run_rounds(nodes, rounds.drop_last());
        lemma_run(mid, rounds.last());
        let after = run_rounds(nodes, rounds);
        assert forall|i: int| 0 <= i < nodes.len() implies (#[trigger] after[i]).id == nodes[i].id
            && after[i].neighbors == nodes[i].neighbors && nodes[i].messages.subset_of(
            after[i].messages,
        ) by {
            assert(mid[i].id == nodes[i].id);
            assert(nodes[i].messages.subset_of(mid[i].messages));
        }
    }
}

/// Values travel one edge per round: after as many complete rounds as there
/// are edges on a path from one node to another, the second knows whatever
/// the first knew at the start.
pub proof fn law_values_spread(
    nodes: Seq<NodeView>,
    rounds: Seq<Seq<Delivery>>,
    from: int,
    to: int,
)
    requires
        consistent(nodes),
        forall|r: int| 0 <= r < rounds.len() ==> complete_round(nodes, #[trigger] rounds[r]),
        reaches(nodes, from, to, rounds.len()),
    ensures
        0 <= from < nodes.len(),
        0 <= to < nodes.len(),
        nodes[from].messages.subset_of(run_rounds(nodes, rounds)[to].messages),
    decreases rounds.len(),
{
    lemma_run_rounds(nodes, rounds);
    if from == to {
    } else {
        let mid = choose|mid: int| #[trigger]
            edge(nodes, mid, to) && reaches(nodes, from, mid, (rounds.len() - 1) as nat);
        let front = rounds.drop_last();
        let last = rounds.last();
        let settled = run_rounds(nodes, front);
        assert forall|r: int| 0 <= r < front.len() implies complete_round(
            nodes,
            #[trigger] front[r],
        ) by {
            assert(front[r] == rounds[r]);
        }
        law_values_spread(nodes, front, from, mid);
        lemma_run_rounds(nodes, front);
        lemma_same_edges(nodes, settled);
        assert(complete_round(nodes, last));
        assert(carried(last, mid, to));
        let at = choose|k: int|
            0 <= k < last.len() && (#[trigger] last[k]).from == mid && last[k].to == to;
        assert(edge(settled, mid, to));
        lemma_schedule_hands_over(settled, last, mid, to, at);
    }
}

/// Convergence: in a consistent cluster in which every node is at most
/// `rounds.len()` edges away from every other, after that many complete
/// rounds every node has seen exactly the values that some node had seen at
/// the start, and that set is what each of them answers to `Read`.
pub proof fn law_convergence(nodes: Seq<NodeView>, rounds: Seq<Seq<Delivery>>)
    requires
        consistent(nodes),
        forall|r: int| 0 <= r < rounds.len() ==> complete_round(nodes, #[trigger] rounds[r]),
        forall|a: int, b: int|
            0 <= a < nodes.len() && 0 <= b < nodes.len() ==> #[trigger] reaches(
                nodes,
                a,
                b,
                rounds.len(),
            ),
    ensures
        run_rounds(nodes, rounds).len() == nodes.len(),
        forall|b: int|
            0 <= b < nodes.len() ==> (#[trigger] run_rounds(nodes, rounds)[b]).messages == known(
                nodes,
            ),
        forall|b: int, messages: Seq<usize>|
            0 <= b < nodes.len() && #[trigger] run_rounds(nodes, rounds)[b].answers(
                MessageView::Read,
                Some(MessageView::ReadOk { messages }),
            ) ==> messages.to_set() == known(nodes),
{
    let after = run_rounds(nodes, rounds);
    lemma_run_rounds(nodes, rounds);
    assert forall|b: int| 0 <= b < nodes.len() implies (#[trigger] after[b]).messages == known(
        nodes,
    ) by {
        assert forall|v: usize| known(nodes).contains(v) implies after[b].messages.contains(v) by {
            let a = choose|a: int|
                0 <= a < nodes.len() && (#[trigger] nodes[a]).messages.contains(v);
            assert(reaches(nodes, a, b, rounds.len()));
            law_values_spread(nodes, rounds, a, b);
        }
        assert forall|v: usize| after[b].messages.contains(v) implies known(nodes).contains(v) by {
            assert(known(after).contains(v));
        }
        assert(after[b].messages =~= known(nodes));
    }
}

/// A delivery is what two nodes do by the protocol. If the sender has
/// values pending for the receiver, its flush holds one `Sync` to the
/// receiver with exactly those values; handling it takes the receiver to the
/// state the delivery gives it, and is answered by a `SyncOk` with the same
/// values; and handling that answer takes the sender to the state the
/// acknowledged delivery gives it.
pub proof fn law_delivery_follows_protocol(
    nodes: Seq<NodeView>,
    delivery: Delivery,
    first_id: usize,
    sent: Seq<EnvelopeView<MessageView>>,
)
    requires
        0 <= delivery.from < nodes.len(),
        0 <= delivery.to < nodes.len(),
        delivery.from != delivery.to,
        is_flush(nodes[delivery.from], first_id, sent),
        pending_for(nodes[delivery.from].outbox, nodes[delivery.to].id).len() > 0,
    ensures
        ({
            let sender = nodes[delivery.from];
            let receiver = nodes[delivery.to];
            let batch = pending_for(sender.outbox, receiver.id);
            let after = deliver(nodes, delivery);
            &&& exists|i: int|
                0 <= i < sent.len() && #[trigger] sent[i].dest == receiver.id && sent[i].src
                    == sender.id && sent[i].message == (MessageView::Sync { messages: batch })
            &&& after[delivery.to] == receiver.step(
                sender.id,
                MessageView::Sync { messages: batch },
            )
            &&& receiver.answers(
                MessageView::Sync { messages: batch },
                Some(MessageView::SyncOk { messages: batch }),
            )
            &&& delivery.acknowledged ==> after[delivery.from] == sender.step(
                receiver.id,
                MessageView::SyncOk { messages: batch },
            )
            &&& !delivery.acknowledged ==> after[delivery.from] == sender
        }),
{
    let sender = nodes[delivery.from];
    let receiver = nodes[delivery.to];
    assert(sender.outbox.dom().contains(receiver.id));
    let i = choose|i: int| 0 <= i < sent.len() && (#[trigger] sent[i]).dest == receiver.id;
    assert(sent[i].dest == receiver.id);
}

/// One client's `Broadcast`: the value, and the position of the node it is
/// sent to.
pub struct Submission {
    pub at: int,
    pub value: usize,
}

/// The cluster after the broadcasts of `submissions`, in order. One that is
/// addressed to no node of the cluster is lost.
pub open spec fn submit(nodes: Seq<NodeView>, submissions: Seq<Submission>) -> Seq<NodeView>
    decreases submissions.len(),
{
    if submissions.len() == 0 {
        nodes
    } else {
        let before = submit(nodes, submissions.drop_last());
        let last = submissions.last();
        if 0 <= last.at < before.len() {
            before.update(last.at, before[last.at].broadcast(last.value))
        } else {
            before
        }
    }
}

/// The values that `submissions` brought to some node of a cluster of
/// `count` nodes.
pub open spec fn submitted(count: nat, submissions: Seq<Submission>) -> Set<usize> {
    Set::new(
        |v: usize|
            exists|i: int|
                0 <= i < submissions.len() && 0 <= (#[trigger] submissions[i]).at < count
                    && submissions[i].value == v,
    )
}

/// Broadcasts keep a consistent cluster consistent and its topology as it
/// was, and add their values to what is known.
pub proof fn lemma_submit(nodes: Seq<NodeView>, submissions: Seq<Submission>)
    requires
        consistent(nodes),
    ensures
        consistent(submit(nodes, submissions)),
        same_topology(nodes, submit(nodes, submissions)),
        known(submit(nodes, submissions)) == known(nodes).union(
            submitted(nodes.len(), submissions),
        ),
    decreases submissions.len(),
{
    let after = submit(nodes, submissions);
    if submissions.len() == 0 {
        assert(known(after) =~= known(nodes).union(submitted(nodes.len(), submissions)));
    } else {
        let front = submissions.drop_last();
        let last = submissions.last();
        let before = submit(nodes, front);
        lemma_submit(nodes, front);
        if 0 <= last.at < before.len() {
            law_broadcast_keeps_consistent(before, last.at, last.value);
        }
        assert forall|i: int| 0 <= i < nodes.len() implies (#[trigger] after[i]).id == nodes[i].id
            && after[i].neighbors == nodes[i].neighbors by {
            assert(before[i].id == nodes[i].id);
        }
        assert(known(after) =~= known(nodes).union(submitted(nodes.len(), submissions))) by {
            assert forall|v: usize| submitted(nodes.len(), submissions).contains(v) <==> submitted(
                nodes.len(),
                front,
            ).contains(v) || (0 <= last.at < nodes.len() && last.value == v) by {
                if submitted(nodes.len(), submissions).contains(v) {
                    let i = choose|i: int|
                        0 <= i < submissions.len() && 0 <= (#[trigger] submissions[i]).at
                            < nodes.len() && submissions[i].value == v;
                    if i < front.len() {
                        assert(front[i] == submissions[i]);
                    }
                }
                if submitted(nodes.len(), front).contains(v) {
                    let i = choose|i: int|
                        0 <= i < front.len() && 0 <= (#[trigger] front[i]).at < nodes.len()
                            && front[i].value == v;
                    assert(submissions[i] == front[i]);
                }
                if 0 <= last.at < nodes.len() && last.value == v {
                    assert(submissions[submissions.len() - 1] == last);
                }
            }
        }
    }
}

/// Clusters with the same topology have the same paths.
pub proof fn lemma_same_paths(
    before: Seq<NodeView>,
    after: Seq<NodeView>,
    from: int,
    to: int,
    hops: nat,
)
    requires
        same_topology(before, after),
        reaches(before, from, to, hops),
    ensures
        reaches(after, from, to, hops),
    decreases hops,
{
    lemma_same_edges(before, after);
    if from != to {
        let mid = choose|mid: int| #[trigger]
            edge(before, mid, to) && reaches(before, from, mid, (hops - 1) as nat);
        lemma_same_paths(before, after, from, mid, (hops - 1) as nat);
        assert(edge(after, mid, to));
    }
}

/// Convergence from the start: a cluster of nodes that have seen nothing
/// takes any broadcasts at any of its nodes; if every node is at most
/// `rounds.len()` edges away from every other, then after that many complete
/// rounds every node has seen exactly the values that were broadcast, and
/// that set is what each of them answers to `Read`.
pub proof fn law_broadcasts_converge(
    nodes: Seq<NodeView>,
    submissions: Seq<Submission>,
    rounds: Seq<Seq<Delivery>>,
)
    requires
        forall|i: int, j: int|
            0 <= i < j < nodes.len() ==> (#[trigger] nodes[i]).id != (#[trigger] nodes[j]).id,
        forall|i: int|
            0 <= i < nodes.len() ==> (#[trigger] nodes[i]).messages == Set::<usize>::empty()
                && nodes[i].outbox == Map::<Seq<char>, Seq<usize>>::empty(),
        forall|r: int| 0 <= r < rounds.len() ==> complete_round(nodes, #[trigger] rounds[r]),
        forall|a: int, b: int|
            0 <= a < nodes.len() && 0 <= b < nodes.len() ==> #[trigger] reaches(
                nodes,
                a,
                b,
                rounds.len(),
            ),
    ensures
        forall|b: int|
            0 <= b < nodes.len() ==> (#[trigger] run_rounds(
                submit(nodes, submissions),
                rounds,
            )[b]).messages == submitted(nodes.len(), submissions),
        forall|b: int, messages: Seq<usize>|
            0 <= b < nodes.len() && #[trigger] run_rounds(
                submit(nodes, submissions),
                rounds,
            )[b].answers(MessageView::Read, Some(MessageView::ReadOk { messages }))
                ==> messages.to_set() == submitted(nodes.len(), submissions),
{
    law_start_is_consistent(nodes);
    lemma_submit(nodes, submissions);
    let told = submit(nodes, submissions);
    lemma_same_edges(nodes, told);
    assert forall|r: int| 0 <= r < rounds.len() implies complete_round(
        told,
        #[trigger] rounds[r],
    ) by {
        assert(complete_round(nodes, rounds[r]));
        assert forall|a: int, b: int| #[trigger] edge(told, a, b) implies carried(
            rounds[r],
            a,
            b,
        ) by {
            assert(edge(nodes, a, b));
        }
    }
    assert forall|a: int, b: int| 0 <= a < told.len() && 0 <= b < told.len() implies #[trigger] reaches(
        told,
        a,
        b,
        rounds.len(),
    ) by {
        assert(reaches(nodes, a, b, rounds.len()));
        lemma_same_paths(nodes, told, a, b, rounds.len());
    }
    law_convergence(told, rounds);
    assert(known(nodes) =~= Set::<usize>::empty()) by {
        assert forall|v: usize| !known(nodes).contains(v) by {
            if known(nodes).contains(v) {
                let i = choose|i: int|
                    0 <= i < nodes.len() && (#[trigger] nodes[i]).messages.contains(v);
                assert(nodes[i].messages == Set::<usize>::empty());
            }
        }
    }
    assert(known(told) =~= submitted(nodes.len(), submissions));
}

/// A cluster whose nodes have different identifiers and have seen nothing
/// yet is consistent, whatever its topology.
pub proof fn law_start_is_consistent(nodes: Seq<NodeView>)
    requires
        forall|i: int, j: int|
            0 <= i < j < nodes.len() ==> (#[trigger] nodes[i]).id != (#[trigger] nodes[j]).id,
        forall|i: int|
            0 <= i < nodes.len() ==> (#[trigger] nodes[i]).messages == Set::<usize>::empty()
                && nodes[i].outbox == Map::<Seq<char>, Seq<usize>>::empty(),
    ensures
        consistent(nodes),
{
    assert forall|i: int| 0 <= i < nodes.len() implies buffers_known(#[trigger] nodes[i]) by {
        assert forall|n: Seq<char>| #[trigger]
            pending_set(nodes[i], n).subset_of(nodes[i].messages) by {
            assert(pending_for(nodes[i].outbox, n).to_set() =~= Set::<usize>::empty());
        }
    }
    assert forall|a: int, b: int| #[trigger] edge(nodes, a, b) implies owed(nodes, a, b) by {
        assert(nodes[a].messages == Set::<usize>::empty());
    }
}

/// A client's `Broadcast`, to whichever node, keeps a consistent cluster
/// consistent and its topology as it was, and adds the value to what is
/// known.
pub proof fn law_broadcast_keeps_consistent(nodes: Seq<NodeView>, at: int, value: usize)
    requires
        consistent(nodes),
        0 <= at < nodes.len(),
    ensures
        consistent(nodes.update(at, nodes[at].broadcast(value))),
        same_topology(nodes, nodes.update(at, nodes[at].broadcast(value))),
        known(nodes.update(at, nodes[at].broadcast(value))) == known(nodes).insert(value),
{
    let node = nodes[at];
    let told = node.broadcast(value);
    let after = nodes.update(at, told);
    assert(buffers_known(node));
    assert forall|n: Seq<char>| #[trigger]
        pending_set(told, n) == if !node.messages.contains(value) && node.neighbors.contains(n) {
            pending_set(node, n).insert(value)
        } else {
            pending_set(node, n)
        } by {
        if !node.messages.contains(value) {
            lemma_fan_out_buffer(node.outbox, node.neighbors, None, value, n);
            lemma_enqueued_members(pending_for(node.outbox, n), value);
        }
    }
    assert(told.messages =~= node.messages.insert(value));
    assert forall|i: int| 0 <= i < after.len() implies buffers_known(#[trigger] after[i]) by {
        assert(buffers_known(nodes[i]));
        if i == at {
            assert forall|n: Seq<char>| #[trigger]
                pending_set(told, n).subset_of(told.messages) by {
                assert(pending_set(node, n).subset_of(node.messages));
            }
        }
    }
    assert(same_topology(nodes, after));
    lemma_same_edges(nodes, after);
    assert forall|x: int, y: int| #[trigger] edge(after, x, y) implies owed(after, x, y) by {
        assert(edge(nodes, x, y));
        assert(owed(nodes, x, y));
        if x == at {
            let target = nodes[y].id;
            assert(pending_set(told, target) == if !node.messages.contains(value) {
                pending_set(node, target).insert(value)
            } else {
                pending_set(node, target)
            });
        }
    }
    assert(known(after) =~= known(nodes).insert(value)) by {
        assert(after[at].messages.contains(value));
        assert forall|v: usize| known(after).contains(v) implies known(nodes).insert(
            value,
        ).contains(v) by {
            let i = choose|i: int|
                0 <= i < after.len() && (#[trigger] after[i]).messages.contains(v);
            if v != value {
                assert(nodes[i].messages.contains(v));
            }
        }
        assert forall|v: usize| known(nodes).contains(v) implies known(after).contains(v) by {
            let i = choose|i: int|
                0 <= i < nodes.len() && (#[trigger] nodes[i]).messages.contains(v);
            assert(after[i].messages.contains(v));
        }
    }
}

} // verus!
