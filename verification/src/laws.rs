//! What holds of one node, whatever it has seen before: observing is
//! idempotent, an acknowledgment retires exactly what it names, and a value
//! learnt from a peer is never queued back to that peer.

use crate::node::NodeView;
use crate::outbox::{
    acknowledge_for, acknowledged, enqueue_for, enqueued, fan_out, pending_for,
};
use vstd::prelude::*;

verus! {

/// A buffer that was offered a value holds what it held before and that
/// value.
pub proof fn lemma_enqueued_members(pending: Seq<usize>, value: usize)
    ensures
        enqueued(pending, value).to_set() == pending.to_set().insert(value),
        enqueued(pending, value).contains(value),
{
    let after = enqueued(pending, value);
    if !pending.contains(value) {
        assert(after[pending.len() as int] == value);
        assert forall|x: usize| after.contains(x) <==> pending.contains(x) || x == value by {
            if pending.contains(x) {
                let i = choose|i: int| 0 <= i < pending.len() && pending[i] == x;
                assert(after[i] == x);
            }
        }
    }
    assert(after.to_set() =~= pending.to_set().insert(value));
}

/// After an acknowledgment a buffer holds what it held before, less the
/// values the acknowledgment names.
pub proof fn lemma_acknowledged_members(pending: Seq<usize>, confirmed: Seq<usize>)
    ensures
        acknowledged(pending, confirmed).to_set() == pending.to_set().difference(
            confirmed.to_set(),
        ),
{
    let keep = |m: usize| !confirmed.contains(m);
    let after = pending.filter(keep);
    assert forall|x: usize| after.contains(x) <==> pending.contains(x) && !confirmed.contains(
        x,
    ) by {
        if after.contains(x) {
            pending.lemma_filter_contains_rev(keep, x);
            let i = choose|i: int| 0 <= i < after.len() && after[i] == x;
            pending.lemma_filter_pred(keep, i);
        }
        if pending.contains(x) && !confirmed.contains(x) {
            let i = choose|i: int| 0 <= i < pending.len() && pending[i] == x;
            pending.lemma_filter_contains(keep, i);
        }
    }
    assert(after.to_set() =~= pending.to_set().difference(confirmed.to_set()));
}

/// An acknowledgment that names nothing pending leaves the buffer as it is.
pub proof fn lemma_acknowledged_nothing(pending: Seq<usize>, confirmed: Seq<usize>)
    requires
        forall|i: int| 0 <= i < pending.len() ==> !confirmed.contains(pending[i]),
    ensures
        acknowledged(pending, confirmed) == pending,
    decreases pending.len(),
{
    reveal(Seq::filter);
    if pending.len() > 0 {
        lemma_acknowledged_nothing(pending.drop_last(), confirmed);
        assert(pending.drop_last().push(pending.last()) == pending);
    }
}

/// What a fan-out leaves in one neighbour's buffer.
pub proof fn lemma_fan_out_buffer(
    outbox: Map<Seq<char>, Seq<usize>>,
    neighbors: Seq<Seq<char>>,
    except: Option<Seq<char>>,
    value: usize,
    neighbor: Seq<char>,
)
    ensures
        pending_for(fan_out(outbox, neighbors, except, value), neighbor) == if neighbors.contains(
            neighbor,
        ) && except != Some(neighbor) {
            enqueued(pending_for(outbox, neighbor), value)
        } else {
            pending_for(outbox, neighbor)
        },
{
}

/// Observing is idempotent: seeing a value a second time changes neither
/// the set of seen values nor any buffer, whoever it came from. Only the
/// first sighting of a value queues it.
pub proof fn law_observe_idempotent(
    node: NodeView,
    first: Option<Seq<char>>,
    again: Option<Seq<char>>,
    value: usize,
)
    ensures
        node.observe(first, value).observe(again, value) == node.observe(first, value),
        node.observe(first, value).messages == node.messages.insert(value),
        node.messages.contains(value) ==> node.observe(first, value) == node,
{
    assert(node.messages.contains(value) ==> node.messages.insert(value) =~= node.messages);
}

/// A value queued for a neighbour and then acknowledged by it is no longer
/// pending for it.
pub proof fn law_acknowledged_value_leaves(
    outbox: Map<Seq<char>, Seq<usize>>,
    neighbor: Seq<char>,
    value: usize,
)
    ensures
        !pending_for(
            acknowledge_for(enqueue_for(outbox, neighbor, value), neighbor, seq![value]),
            neighbor,
        ).contains(value),
{
    let queued = enqueue_for(outbox, neighbor, value);
    let pending = queued[neighbor];
    let confirmed = seq![value];
    assert(confirmed[0] == value);
    lemma_acknowledged_members(pending, confirmed);
    let after = acknowledged(pending, confirmed);
    if after.contains(value) {
        assert(after.to_set().contains(value));
        assert(confirmed.to_set().contains(value));
    }
}

/// Acknowledging a value that is not pending for the neighbour, because it
/// was never queued or has been retired already, changes nothing.
pub proof fn law_acknowledge_unknown_is_noop(
    outbox: Map<Seq<char>, Seq<usize>>,
    neighbor: Seq<char>,
    value: usize,
)
    requires
        !pending_for(outbox, neighbor).contains(value),
    ensures
        acknowledge_for(outbox, neighbor, seq![value]) == outbox,
{
    if outbox.dom().contains(neighbor) {
        let pending = outbox[neighbor];
        let confirmed = seq![value];
        assert forall|i: int| 0 <= i < pending.len() implies !confirmed.contains(pending[i]) by {
            if confirmed.contains(pending[i]) {
                let k = choose|k: int| 0 <= k < confirmed.len() && confirmed[k] == pending[i];
                assert(pending[i] == value);
            }
        }
        lemma_acknowledged_nothing(pending, confirmed);
        assert(outbox.insert(neighbor, pending) =~= outbox);
    }
}

/// What a `Sync` does to a node, in terms of sets: the node then knows its
/// own values and the batch; the values that were new to it are pending for
/// every neighbour but the sender, in addition to what was pending before;
/// and every other buffer holds what it held.
pub proof fn lemma_sync_effect(node: NodeView, sender: Seq<char>, values: Seq<usize>)
    ensures
        ({
            let after = node.sync(sender, values);
            &&& after.initialized == node.initialized
            &&& after.id == node.id
            &&& after.node_ids == node.node_ids
            &&& after.neighbors == node.neighbors
            &&& after.messages == node.messages.union(values.to_set())
            &&& pending_for(after.outbox, sender) == pending_for(node.outbox, sender)
            &&& forall|n: Seq<char>|
                #![trigger pending_for(after.outbox, n)]
                pending_for(after.outbox, n).to_set() == if node.neighbors.contains(n) && n
                    != sender {
                    pending_for(node.outbox, n).to_set().union(
                        values.to_set().difference(node.messages),
                    )
                } else {
                    pending_for(node.outbox, n).to_set()
                }
        }),
    decreases values.len(),
{
    let after = node.sync(sender, values);
    if values.len() == 0 {
        assert(values.to_set() =~= Set::<usize>::empty());
        assert(after.messages =~= node.messages.union(values.to_set()));
        assert forall|n: Seq<char>|
            #![trigger pending_for(after.outbox, n)]
            pending_for(after.outbox, n).to_set() == if node.neighbors.contains(n) && n != sender {
                pending_for(node.outbox, n).to_set().union(
                    values.to_set().difference(node.messages),
                )
            } else {
                pending_for(node.outbox, n).to_set()
            } by {
            assert(pending_for(node.outbox, n).to_set().union(
                values.to_set().difference(node.messages),
            ) =~= pending_for(node.outbox, n).to_set());
        }
    } else {
        let front = values.drop_last();
        let value = values.last();
        let mid = node.sync(sender, front);
        lemma_sync_effect(node, sender, front);
        assert(front.push(value) == values);
        front.lemma_push_to_set_commute(value);
        assert(values.to_set() == front.to_set().insert(value));
        assert(after == mid.observe(Some(sender), value));
        assert(after.messages =~= node.messages.union(values.to_set()));
        lemma_fan_out_buffer(mid.outbox, mid.neighbors, Some(sender), value, sender);
        assert forall|n: Seq<char>|
            #![trigger pending_for(after.outbox, n)]
            pending_for(after.outbox, n).to_set() == if node.neighbors.contains(n) && n != sender {
                pending_for(node.outbox, n).to_set().union(
                    values.to_set().difference(node.messages),
                )
            } else {
                pending_for(node.outbox, n).to_set()
            } by {
            let before = pending_for(mid.outbox, n);
            assert(before.to_set() == if node.neighbors.contains(n) && n != sender {
                pending_for(node.outbox, n).to_set().union(
                    front.to_set().difference(node.messages),
                )
            } else {
                pending_for(node.outbox, n).to_set()
            });
            if mid.messages.contains(value) {
                assert(values.to_set().difference(node.messages) =~= front.to_set().difference(
                    node.messages,
                ));
            } else {
                lemma_fan_out_buffer(mid.outbox, mid.neighbors, Some(sender), value, n);
                lemma_enqueued_members(before, value);
                if node.neighbors.contains(n) && n != sender {
                    assert(pending_for(after.outbox, n).to_set() =~= pending_for(
                        node.outbox,
                        n,
                    ).to_set().union(values.to_set().difference(node.messages)));
                }
            }
        }
    }
}

/// No self-loop: when a `Sync` from `sender` brings a value the node has not
/// seen, the value is afterwards pending for every neighbour except the
/// sender, and the sender's buffer is exactly what it was.
pub proof fn law_sync_spares_sender(
    node: NodeView,
    sender: Seq<char>,
    values: Seq<usize>,
    value: usize,
)
    requires
        values.contains(value),
        !node.messages.contains(value),
    ensures
        node.sync(sender, values).messages.contains(value),
        forall|n: Seq<char>|
            node.neighbors.contains(n) && n != sender ==> #[trigger] pending_for(
                node.sync(sender, values).outbox,
                n,
            ).contains(value),
        pending_for(node.sync(sender, values).outbox, sender) == pending_for(node.outbox, sender),
{
    lemma_sync_effect(node, sender, values);
    let after = node.sync(sender, values);
    assert(values.to_set().contains(value));
    assert forall|n: Seq<char>| node.neighbors.contains(n) && n != sender implies #[trigger] pending_for(
        after.outbox,
        n,
    ).contains(value) by {
        assert(pending_for(after.outbox, n).to_set().contains(value));
    }
}

} // verus!
