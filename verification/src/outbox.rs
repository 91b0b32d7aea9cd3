//! Per-neighbour buffers of values that a neighbour has not yet confirmed.

use crate::names::{
    distinct, first_position, lemma_first_position, lemma_first_position_push,
    lemma_first_position_push_other, names_of, position_of,
};
use vstd::prelude::*;

verus! {

/// What a buffer holds after `value` is offered to it: unchanged if the value
/// is already pending, otherwise the value is appended.
pub open spec fn enqueued(pending: Seq<usize>, value: usize) -> Seq<usize> {
    if pending.contains(value) {
        pending
    } else {
        pending.push(value)
    }
}

/// What a buffer holds after every value named in `confirmed` is retired.
pub open spec fn acknowledged(pending: Seq<usize>, confirmed: Seq<usize>) -> Seq<usize> {
    pending.filter(|m: usize| !confirmed.contains(m))
}

/// The values that one neighbour has not yet confirmed, oldest first.
pub struct RemoteNodeHandler {
    unacknowledged_messages: Vec<usize>,
}

impl View for RemoteNodeHandler {
    type V = Seq<usize>;

    closed spec fn view(&self) -> Seq<usize> {
        self.unacknowledged_messages@
    }
}

impl RemoteNodeHandler {
    /// No value is pending twice.
    pub closed spec fn wf(&self) -> bool {
        self.unacknowledged_messages@.no_duplicates()
    }

    /// An empty buffer.
    pub fn new() -> (handler: Self)
        ensures
            handler.wf(),
            handler@ == Seq::<usize>::empty(),
    {
        RemoteNodeHandler { unacknowledged_messages: Vec::new() }
    }

    /// Whether `message` is pending.
    pub fn is_pending(&self, message: usize) -> (found: bool)
        ensures
            found == self@.contains(message),
    {
        let mut i: usize = 0;
        while i < self.unacknowledged_messages.len()
            invariant
                i <= self.unacknowledged_messages@.len(),
                forall|k: int| 0 <= k < i ==> self.unacknowledged_messages@[k] != message,
            decreases self.unacknowledged_messages@.len() - i,
        {
            if self.unacknowledged_messages[i] == message {
                return true;
            }
            i += 1;
        }
        false
    }

    /// Buffers `message` unless it is already pending.
    pub fn send_message(&mut self, message: usize)
        requires
            old(self).wf(),
        ensures
            final(self).wf(),
            final(self)@ == enqueued(old(self)@, message),
    {
        if !self.is_pending(message) {
            self.unacknowledged_messages.push(message);
        }
    }

    /// Retires every pending value that `messages` names; values that are not
    /// pending are ignored.
    pub fn acknowledge_synced(&mut self, messages: &[usize])
        requires
            old(self).wf(),
        ensures
            final(self).wf(),
            final(self)@ == acknowledged(old(self)@, messages@),
    {
        let mut kept: Vec<usize> = Vec::new();
        let mut i: usize = 0;
        while i < self.unacknowledged_messages.len()
            invariant
                i <= self.unacknowledged_messages@.len(),
                self.unacknowledged_messages@.no_duplicates(),
                kept@ == acknowledged(self.unacknowledged_messages@.take(i as int), messages@),
            decreases self.unacknowledged_messages@.len() - i,
        {
            let m = self.unacknowledged_messages[i];
            let confirmed = slice_contains(messages, m);
            proof {
                let pending = self.unacknowledged_messages@;
                let pred = |x: usize| !messages@.contains(x);
                assert(pending.take(i as int + 1) == pending.take(i as int).push(m));
                pending.take(i as int).lemma_filter_push(m, pred);
            }
            if !confirmed {
                kept.push(m);
            }
            i += 1;
        }
        proof {
            let pending = self.unacknowledged_messages@;
            assert(pending.take(pending.len() as int) == pending);
            lemma_acknowledged_keeps_distinct(pending, messages@);
        }
        self.unacknowledged_messages = kept;
    }

    /// The pending values, oldest first. Nothing is removed: a value leaves
    /// the buffer only when it is acknowledged.
    pub fn pending(&self) -> (values: Vec<usize>)
        ensures
            values@ == self@,
            self.wf() ==> values@.no_duplicates(),
    {
        let mut out: Vec<usize> = Vec::new();
        let mut i: usize = 0;
        while i < self.unacknowledged_messages.len()
            invariant
                i <= self.unacknowledged_messages@.len(),
                out@ == self.unacknowledged_messages@.take(i as int),
            decreases self.unacknowledged_messages@.len() - i,
        {
            out.push(self.unacknowledged_messages[i]);
            proof {
                let pending = self.unacknowledged_messages@;
                assert(pending.take(i as int + 1) == pending.take(i as int).push(pending[i as int]));
            }
            i += 1;
        }
        proof {
            let pending = self.unacknowledged_messages@;
            assert(pending.take(pending.len() as int) == pending);
        }
        out
    }

    /// Whether nothing is pending.
    pub fn is_empty(&self) -> (empty: bool)
        ensures
            empty == (self@.len() == 0),
    {
        self.unacknowledged_messages.len() == 0
    }
}

/// What a neighbour's buffer holds in `outbox`: nothing if it has none yet.
pub open spec fn pending_for(outbox: Map<Seq<char>, Seq<usize>>, neighbor: Seq<char>) -> Seq<usize> {
    if outbox.dom().contains(neighbor) {
        outbox[neighbor]
    } else {
        Seq::empty()
    }
}

/// The buffers after `value` has been queued for `neighbor`.
pub open spec fn enqueue_for(
    outbox: Map<Seq<char>, Seq<usize>>,
    neighbor: Seq<char>,
    value: usize,
) -> Map<Seq<char>, Seq<usize>> {
    outbox.insert(neighbor, enqueued(pending_for(outbox, neighbor), value))
}

/// The buffers after `neighbor` has confirmed `values`: they leave its
/// buffer, and a neighbour without a buffer changes nothing.
pub open spec fn acknowledge_for(
    outbox: Map<Seq<char>, Seq<usize>>,
    neighbor: Seq<char>,
    values: Seq<usize>,
) -> Map<Seq<char>, Seq<usize>> {
    if outbox.dom().contains(neighbor) {
        outbox.insert(neighbor, acknowledged(outbox[neighbor], values))
    } else {
        outbox
    }
}

/// The buffers after `value` has been queued for every one of `neighbors`
/// but `except`: those neighbours' buffers take the value, all others stay.
pub open spec fn fan_out(
    outbox: Map<Seq<char>, Seq<usize>>,
    neighbors: Seq<Seq<char>>,
    except: Option<Seq<char>>,
    value: usize,
) -> Map<Seq<char>, Seq<usize>> {
    Map::new(
        |n: Seq<char>| outbox.dom().contains(n) || (neighbors.contains(n) && except != Some(n)),
        |n: Seq<char>|
            if neighbors.contains(n) && except != Some(n) {
                enqueued(pending_for(outbox, n), value)
            } else {
                outbox[n]
            },
    )
}

/// Whether `batches` is what a flush of `outbox` sends: one batch for each
/// neighbour whose buffer is not empty, holding that whole buffer.
pub open spec fn is_flush_of(
    batches: Seq<(Seq<char>, Seq<usize>)>,
    outbox: Map<Seq<char>, Seq<usize>>,
) -> bool {
    &&& forall|i: int|
        0 <= i < batches.len() ==> {
            let batch = #[trigger] batches[i];
            &&& outbox.dom().contains(batch.0)
            &&& batch.1 == outbox[batch.0]
            &&& batch.1.len() > 0
        }
    &&& forall|n: Seq<char>|
        outbox.dom().contains(n) && (#[trigger] outbox[n]).len() > 0 ==> exists|i: int|
            0 <= i < batches.len() && (#[trigger] batches[i]).0 == n
    &&& forall|i: int, j: int|
        0 <= i < j < batches.len() ==> (#[trigger] batches[i]).0 != (#[trigger] batches[j]).0
}

/// What a list of batches holds.
pub open spec fn batch_views(list: Seq<(String, Vec<usize>)>) -> Seq<(Seq<char>, Seq<usize>)> {
    Seq::new(list.len(), |i: int| (list[i].0@, list[i].1@))
}

/// One buffer for each neighbour that a value was ever queued for.
pub struct NeighborOutbox {
    neighbors: Vec<String>,
    handlers: Vec<RemoteNodeHandler>,
}

impl View for NeighborOutbox {
    type V = Map<Seq<char>, Seq<usize>>;

    closed spec fn view(&self) -> Map<Seq<char>, Seq<usize>> {
        Map::new(
            |n: Seq<char>| first_position(names_of(self.neighbors@), n) is Some,
            |n: Seq<char>| self.handlers@[first_position(names_of(self.neighbors@), n).unwrap()]@,
        )
    }
}

impl NeighborOutbox {
    /// Every neighbour has one buffer, and no buffer holds a value twice.
    pub closed spec fn wf(&self) -> bool {
        &&& self.neighbors@.len() == self.handlers@.len()
        &&& distinct(names_of(self.neighbors@))
        &&& forall|i: int| 0 <= i < self.handlers@.len() ==> (#[trigger] self.handlers@[i]).wf()
    }

    /// No buffers at all.
    pub fn new() -> (outbox: Self)
        ensures
            outbox.wf(),
            outbox@ == Map::<Seq<char>, Seq<usize>>::empty(),
    {
        let outbox = NeighborOutbox { neighbors: Vec::new(), handlers: Vec::new() };
        proof {
            assert(outbox@ =~= Map::<Seq<char>, Seq<usize>>::empty());
        }
        outbox
    }

    /// Queues `value` for `neighbor`, creating the neighbour's buffer if it
    /// has none. A value that is already pending is not queued again.
    pub fn enqueue(&mut self, neighbor: &str, value: usize)
        requires
            old(self).wf(),
        ensures
            final(self).wf(),
            final(self)@ == enqueue_for(old(self)@, neighbor@, value),
    {
        let at = position_of(&self.neighbors, neighbor);
        proof {
            lemma_first_position(names_of(self.neighbors@), neighbor@);
        }
        match at {
            Some(i) => {
                self.handlers[i].send_message(value);
                proof {
                    let names = names_of(self.neighbors@);
                    let goal = enqueue_for(old(self)@, neighbor@, value);
                    assert forall|n: Seq<char>| self@.dom().contains(n) implies goal.dom().contains(
                        n,
                    ) && self@[n] == goal[n] by {
                        lemma_first_position(names, n);
                    }
                    assert forall|n: Seq<char>| goal.dom().contains(n) implies self@.dom().contains(
                        n,
                    ) by {
                        lemma_first_position(names, n);
                    }
                    assert(self@ =~= goal);
                }
            },
            None => {
                let mut handler = RemoteNodeHandler::new();
                handler.send_message(value);
                self.neighbors.push(neighbor.to_owned());
                self.handlers.push(handler);
                proof {
                    let before = names_of(old(self).neighbors@);
                    let after = names_of(self.neighbors@);
                    assert(after == before.push(neighbor@));
                    lemma_first_position_push(before, neighbor@);
                    assert forall|n: Seq<char>| n != neighbor@ implies first_position(after, n)
                        == first_position(before, n) by {
                        lemma_first_position_push_other(before, neighbor@, n);
                    }
                    assert forall|n: Seq<char>| first_position(before, n) is Some implies 0
                        <= first_position(before, n).unwrap() < before.len() by {
                        lemma_first_position(before, n);
                    }
                    assert(self@ =~= enqueue_for(old(self)@, neighbor@, value));
                }
            },
        }
    }

    /// Retires from `neighbor`'s buffer every value that `values` names.
    /// Values that are not pending, and a neighbour without a buffer, are
    /// ignored.
    pub fn acknowledge(&mut self, neighbor: &str, values: &[usize])
        requires
            old(self).wf(),
        ensures
            final(self).wf(),
            final(self)@ == acknowledge_for(old(self)@, neighbor@, values@),
    {
        let at = position_of(&self.neighbors, neighbor);
        proof {
            lemma_first_position(names_of(self.neighbors@), neighbor@);
        }
        match at {
            Some(i) => {
                self.handlers[i].acknowledge_synced(values);
                proof {
                    let names = names_of(self.neighbors@);
                    let goal = acknowledge_for(old(self)@, neighbor@, values@);
                    assert forall|n: Seq<char>| self@.dom().contains(n) implies goal.dom().contains(
                        n,
                    ) && self@[n] == goal[n] by {
                        lemma_first_position(names, n);
                    }
                    assert forall|n: Seq<char>| goal.dom().contains(n) implies self@.dom().contains(
                        n,
                    ) by {
                        lemma_first_position(names, n);
                    }
                    assert(self@ =~= goal);
                }
            },
            None => {},
        }
    }

    /// Queues `value` for every one of `neighbors` but `except`.
    pub fn enqueue_all(&mut self, neighbors: &Vec<String>, except: Option<&String>, value: usize)
        requires
            old(self).wf(),
        ensures
            final(self).wf(),
            final(self)@ == fan_out(
                old(self)@,
                names_of(neighbors@),
                match except {
                    Some(name) => Some(name@),
                    None => None,
                },
                value,
            ),
    {
        let ghost names = names_of(neighbors@);
        let ghost skip: Option<Seq<char>> = match except {
            Some(name) => Some(name@),
            None => None,
        };
        let mut k: usize = 0;
        proof {
            assert(names.take(0) == Seq::<Seq<char>>::empty());
            assert(self@ =~= fan_out(old(self)@, names.take(0), skip, value));
        }
        while k < neighbors.len()
            invariant
                k <= neighbors@.len(),
                names == names_of(neighbors@),
                skip == match except {
                    Some(name) => Some(name@),
                    None => None,
                },
                self.wf(),
                self@ == fan_out(old(self)@, names.take(k as int), skip, value),
            decreases neighbors@.len() - k,
        {
            let excluded = match except {
                Some(name) => neighbors[k] == *name,
                None => false,
            };
            if !excluded {
                self.enqueue(neighbors[k].as_str(), value);
            }
            proof {
                lemma_fan_out_step(old(self)@, names.take(k as int), names[k as int], skip, value);
                assert(names.take(k as int).push(names[k as int]) == names.take(k as int + 1));
            }
            k += 1;
        }
        proof {
            assert(names.take(names.len() as int) == names);
        }
    }

    /// One batch for each neighbour whose buffer is not empty: the neighbour
    /// and everything pending for it. The buffers keep their values.
    pub fn batches(&self) -> (out: Vec<(String, Vec<usize>)>)
        requires
            self.wf(),
        ensures
            is_flush_of(batch_views(out@), self@),
    {
        let ghost names = names_of(self.neighbors@);
        let mut out: Vec<(String, Vec<usize>)> = Vec::new();
        let ghost mut origin: Seq<int> = Seq::empty();
        let mut k: usize = 0;
        while k < self.neighbors.len()
            invariant
                k <= self.neighbors@.len(),
                self.wf(),
                names == names_of(self.neighbors@),
                origin.len() == out@.len(),
                forall|i: int|
                    0 <= i < origin.len() ==> {
                        &&& 0 <= #[trigger] origin[i] < k
                        &&& out@[i].0@ == names[origin[i]]
                        &&& out@[i].1@ == self.handlers@[origin[i]]@
                        &&& out@[i].1@.len() > 0
                    },
                forall|i: int, j: int|
                    0 <= i < j < origin.len() ==> #[trigger] origin[i] < #[trigger] origin[j],
                forall|e: int|
                    0 <= e < k && (#[trigger] self.handlers@[e])@.len() > 0 ==> exists|i: int|
                        0 <= i < origin.len() && #[trigger] origin[i] == e,
            decreases self.neighbors@.len() - k,
        {
            if !self.handlers[k].is_empty() {
                let ghost before = origin;
                let name = self.neighbors[k].clone();
                let values = self.handlers[k].pending();
                let ghost earlier = out@;
                out.push((name, values));
                proof {
                    origin = origin.push(k as int);
                    assert(names[k as int] == self.neighbors@[k as int]@);
                    assert forall|i: int| 0 <= i < origin.len() implies {
                        &&& 0 <= #[trigger] origin[i] < k + 1
                        &&& out@[i].0@ == names[origin[i]]
                        &&& out@[i].1@ == self.handlers@[origin[i]]@
                        &&& out@[i].1@.len() > 0
                    } by {
                        if i < before.len() {
                            assert(out@[i] == earlier[i]);
                            assert(origin[i] == before[i]);
                        }
                    }
                    assert forall|e: int|
                        0 <= e < k + 1 && (#[trigger] self.handlers@[e])@.len() > 0 implies exists|
                        i: int,
                    |
                        0 <= i < origin.len() && #[trigger] origin[i] == e by {
                        if e < k {
                            let i = choose|i: int| 0 <= i < before.len() && #[trigger] before[i] == e;
                            assert(origin[i] == e);
                        } else {
                            assert(origin[before.len() as int] == e);
                        }
                    }
                }
            }
            k += 1;
        }
        proof {
            let batches = batch_views(out@);
            assert forall|e: int| 0 <= e < names.len() implies first_position(names, names[e])
                == Some(e) by {
                lemma_first_position(names, names[e]);
                assert(names.contains(names[e]));
            }
            assert forall|i: int| 0 <= i < batches.len() implies {
                let batch = #[trigger] batches[i];
                &&& self@.dom().contains(batch.0)
                &&& batch.1 == self@[batch.0]
                &&& batch.1.len() > 0
            } by {
                let e = origin[i];
                assert(batches[i].0 == names[e]);
                assert(first_position(names, names[e]) == Some(e));
            }
            assert forall|n: Seq<char>|
                self@.dom().contains(n) && (#[trigger] self@[n]).len() > 0 implies exists|i: int|
                0 <= i < batches.len() && (#[trigger] batches[i]).0 == n by {
                lemma_first_position(names, n);
                let e = first_position(names, n).unwrap();
                assert(self.handlers@[e]@.len() > 0);
                let i = choose|i: int| 0 <= i < origin.len() && #[trigger] origin[i] == e;
                assert(batches[i].0 == n);
            }
            assert forall|i: int, j: int| 0 <= i < j < batches.len() implies (#[trigger] batches[i]).0
                != (#[trigger] batches[j]).0 by {
                assert(origin[i] < origin[j]);
            }
        }
        out
    }

    /// The values pending for `neighbor`, oldest first. The buffer keeps
    /// them: only an acknowledgment removes a value.
    pub fn drain_all(&self, neighbor: &str) -> (values: Vec<usize>)
        requires
            self.wf(),
        ensures
            values@ == pending_for(self@, neighbor@),
            values@.no_duplicates(),
    {
        let at = position_of(&self.neighbors, neighbor);
        proof {
            lemma_first_position(names_of(self.neighbors@), neighbor@);
        }
        match at {
            Some(i) => self.handlers[i].pending(),
            None => Vec::new(),
        }
    }
}

/// Queuing a value for one more neighbour: the fan-out over a longer list is
/// the fan-out over the shorter one with that neighbour's buffer updated.
pub proof fn lemma_fan_out_step(
    outbox: Map<Seq<char>, Seq<usize>>,
    neighbors: Seq<Seq<char>>,
    next: Seq<char>,
    except: Option<Seq<char>>,
    value: usize,
)
    ensures
        fan_out(outbox, neighbors.push(next), except, value) == if except == Some(next) {
            fan_out(outbox, neighbors, except, value)
        } else {
            let so_far = fan_out(outbox, neighbors, except, value);
            enqueue_for(so_far, next, value)
        },
{
    let longer = neighbors.push(next);
    assert forall|n: Seq<char>| longer.contains(n) <==> neighbors.contains(n) || n == next by {
        if neighbors.contains(n) {
            let i = choose|i: int| 0 <= i < neighbors.len() && neighbors[i] == n;
            assert(longer[i] == n);
        }
        if n == next {
            assert(longer[neighbors.len() as int] == n);
        }
    }
    let so_far = fan_out(outbox, neighbors, except, value);
    let pending = pending_for(outbox, next);
    assert(enqueued(enqueued(pending, value), value) == enqueued(pending, value)) by {
        assert(pending.push(value)[pending.len() as int] == value);
    }
    if except == Some(next) {
        assert(fan_out(outbox, longer, except, value) =~= so_far);
    } else {
        assert(fan_out(outbox, longer, except, value) =~= so_far.insert(
            next,
            enqueued(pending_for(so_far, next), value),
        ));
    }
}

/// Whether `values` holds `needle`.
pub fn slice_contains(values: &[usize], needle: usize) -> (found: bool)
    ensures
        found == values@.contains(needle),
{
    let mut i: usize = 0;
    while i < values.len()
        invariant
            i <= values@.len(),
            forall|k: int| 0 <= k < i ==> values@[k] != needle,
        decreases values@.len() - i,
    {
        if values[i] == needle {
            return true;
        }
        i += 1;
    }
    false
}

/// Retiring values from a buffer that holds no value twice leaves a buffer
/// that holds no value twice.
pub proof fn lemma_acknowledged_keeps_distinct(pending: Seq<usize>, confirmed: Seq<usize>)
    requires
        pending.no_duplicates(),
    ensures
        acknowledged(pending, confirmed).no_duplicates(),
    decreases pending.len(),
{
    let pred = |m: usize| !confirmed.contains(m);
    reveal(Seq::filter);
    if pending.len() > 0 {
        let front = pending.drop_last();
        lemma_acknowledged_keeps_distinct(front, confirmed);
        let kept = front.filter(pred);
        if pred(pending.last()) {
            assert forall|k: int| 0 <= k < kept.len() implies kept[k] != pending.last() by {
                if kept[k] == pending.last() {
                    assert(kept.contains(pending.last()));
                    front.lemma_filter_contains_rev(pred, pending.last());
                    let j = choose|j: int| 0 <= j < front.len() && front[j] == pending.last();
                    assert(pending[j] == pending[pending.len() - 1]);
                }
            }
        }
    }
}

} // verus!
