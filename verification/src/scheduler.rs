//! The gossip scheduler: one reactive loop that takes whichever comes first,
//! the next inbound envelope or the next flush deadline, and handles exactly
//! one of them per turn.
//!
//! The loop itself waits on the transport, so it lives with the transport.
//! What it decides is here: how long to wait, what to do with what the wait
//! produced, and when the timer is due. Time is a count of milliseconds.

use crate::envelope::{following, lemma_nth_id_add, nth_id, reply_to, Envelope, MessageIds};
use crate::node::{envelope_views, is_flush, Node};
use crate::protocol::{Error, Message};
use vstd::prelude::*;

verus! {

/// The time between two flushes, in milliseconds.
pub const SYNC_INTERVAL: u64 = 250;

/// `time + span`, or the last representable instant if that lies beyond it.
pub open spec fn later(time: u64, span: u64) -> u64 {
    if time + span <= u64::MAX {
        (time + span) as u64
    } else {
        u64::MAX
    }
}

/// What the wait of one turn produced.
pub enum Event {
    /// An envelope arrived before the deadline.
    Inbound(Envelope<Message>),
    /// The deadline passed and nothing arrived.
    Timeout,
}

/// What one turn of the loop hands to the transport.
pub struct Turn {
    /// The envelopes to send, in order: first the answer to the inbound
    /// envelope, if there is one, then the flush, if it was due.
    pub outbound: Vec<Envelope<Message>>,
    /// The error to report, if the inbound envelope was refused.
    pub refused: Option<Error>,
}

/// When the next flush is due, and how far apart flushes are.
pub struct GossipScheduler {
    deadline: u64,
    interval: u64,
}

/// What a scheduler holds.
pub struct SchedulerView {
    pub deadline: u64,
    pub interval: u64,
}

impl View for GossipScheduler {
    type V = SchedulerView;

    closed spec fn view(&self) -> SchedulerView {
        SchedulerView { deadline: self.deadline, interval: self.interval }
    }
}

impl GossipScheduler {
    /// A scheduler armed at `now`: the first flush is due one interval later.
    pub fn new(now: u64, interval: u64) -> (scheduler: Self)
        ensures
            scheduler@ == (SchedulerView { deadline: later(now, interval), interval }),
    {
        GossipScheduler { deadline: now.saturating_add(interval), interval }
    }

    /// When the next flush is due.
    pub fn deadline(&self) -> (deadline: u64)
        ensures
            deadline == self@.deadline,
    {
        self.deadline
    }

    /// How long the loop may wait for an envelope: the time left until the
    /// deadline, and no time at all once the deadline has passed.
    pub fn wait_budget(&self, now: u64) -> (budget: u64)
        ensures
            budget == if now < self@.deadline {
                self@.deadline - now
            } else {
                0
            },
    {
        if now < self.deadline {
            self.deadline - now
        } else {
            0
        }
    }

    /// Whether the flush is due at `now`.
    pub fn is_due(&self, now: u64) -> (due: bool)
        ensures
            due == (now >= self@.deadline),
    {
        now >= self.deadline
    }

    /// Moves the deadline one interval on, counted from the deadline that
    /// was and not from the time it was noticed.
    pub fn advance(&mut self)
        ensures
            final(self)@ == (SchedulerView {
                deadline: later(old(self)@.deadline, old(self)@.interval),
                interval: old(self)@.interval,
            }),
    {
        self.deadline = self.deadline.saturating_add(self.interval);
    }

    /// One turn of the loop at time `now`. An inbound envelope is handled by
    /// the node; then, if the deadline has been reached, the node's buffers
    /// are flushed and the deadline moves one interval on.
    pub fn turn(&mut self, node: &mut Node, event: &Event, now: u64, ids: &mut MessageIds) -> (turn:
        Turn)
        requires
            old(node).wf(),
        ensures
            final(node).wf(),
            final(node)@ == match event {
                Event::Inbound(envelope) => old(node)@.step(envelope@.src, envelope@.message),
                Event::Timeout => old(node)@,
            },
            final(self)@ == if now >= old(self)@.deadline {
                SchedulerView {
                    deadline: later(old(self)@.deadline, old(self)@.interval),
                    interval: old(self)@.interval,
                }
            } else {
                old(self)@
            },
            ({
                let answered: nat = match event {
                    Event::Inbound(envelope) => if envelope@.message.is_request() && !(
                    envelope@.message is SyncOk) {
                        1
                    } else {
                        0
                    },
                    Event::Timeout => 0,
                };
                let sent = envelope_views(turn.outbound@);
                &&& answered <= sent.len()
                &&& match event {
                    Event::Inbound(envelope) => if envelope@.message.is_request() {
                        &&& turn.refused is None
                        &&& answered == 1 ==> {
                            &&& old(node)@.answers(envelope@.message, Some(sent[0].message))
                            &&& sent[0] == reply_to(envelope@, old(ids)@, sent[0].message)
                        }
                    } else {
                        &&& turn.refused matches Some(Error::UnexpectedMessage(kind))
                        &&& kind@ == envelope@.message.kind_name()
                    },
                    Event::Timeout => turn.refused is None,
                }
                &&& if now >= old(self)@.deadline {
                    &&& is_flush(
                        final(node)@,
                        nth_id(old(ids)@, answered),
                        sent.skip(answered as int),
                    )
                    &&& final(ids)@ == nth_id(old(ids)@, sent.len())
                } else {
                    &&& sent.len() == answered
                    &&& final(ids)@ == nth_id(old(ids)@, answered)
                }
            }),
    {
        let mut outbound: Vec<Envelope<Message>> = Vec::new();
        let mut refused: Option<Error> = None;
        match event {
            Event::Inbound(envelope) => {
                match node.handle(envelope, ids) {
                    Ok(Some(reply)) => {
                        outbound.push(reply);
                    },
                    Ok(None) => {},
                    Err(error) => {
                        refused = Some(error);
                    },
                }
            },
            Event::Timeout => {},
        }
        let ghost answered = outbound@.len();
        let ghost first = outbound@;
        proof {
            assert(nth_id(old(ids)@, 0) == old(ids)@);
            assert(nth_id(old(ids)@, 1) == following(nth_id(old(ids)@, 0)));
        }
        if self.is_due(now) {
            let ghost before = ids@;
            let mut flushed = node.flush(ids);
            let ghost batch = flushed@;
            outbound.append(&mut flushed);
            self.advance();
            proof {
                let sent = envelope_views(outbound@);
                assert(outbound@ == first + batch);
                assert(sent.skip(answered as int) =~= envelope_views(batch));
                lemma_nth_id_add(old(ids)@, answered, batch.len());
            }
        }
        Turn { outbound, refused }
    }
}

} // verus!
