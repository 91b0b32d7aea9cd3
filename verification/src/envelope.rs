//! The wrapper every message travels in: who sent it, who it is for, and a
//! body that carries the correlation identifiers beside the payload.

use vstd::prelude::*;

verus! {

/// The identifier issued after `id`. Identifiers wrap around at the end of
/// their range.
pub open spec fn following(id: usize) -> usize {
    if id == usize::MAX {
        0
    } else {
        (id + 1) as usize
    }
}

/// The identifier issued `count` identifiers after `start`.
pub open spec fn nth_id(start: usize, count: nat) -> usize
    decreases count,
{
    if count == 0 {
        start
    } else {
        following(nth_id(start, (count - 1) as nat))
    }
}

/// Counting `more` identifiers on from the one `count` after `start` is
/// counting `count + more` on from `start`.
pub proof fn lemma_nth_id_add(start: usize, count: nat, more: nat)
    ensures
        nth_id(nth_id(start, count), more) == nth_id(start, count + more),
    decreases more,
{
    if more > 0 {
        lemma_nth_id_add(start, count, (more - 1) as nat);
    }
}

/// The source of message identifiers: 0, 1, 2, and so on. The transport
/// owns one and lends it to whatever builds an envelope.
#[derive(Debug)]
pub struct MessageIds {
    next: usize,
}

impl View for MessageIds {
    type V = usize;

    /// The identifier that will be issued next.
    closed spec fn view(&self) -> usize {
        self.next
    }
}

impl MessageIds {
    /// A source that starts at 0.
    pub fn new() -> (ids: Self)
        ensures
            ids@ == 0,
    {
        MessageIds { next: 0 }
    }

    /// Issues the next identifier.
    pub fn next_id(&mut self) -> (id: usize)
        ensures
            id == old(self)@,
            final(self)@ == following(old(self)@),
    {
        let id = self.next;
        if self.next == usize::MAX {
            self.next = 0;
        } else {
            self.next = self.next + 1;
        }
        id
    }
}

/// A payload with its correlation identifiers. Between a client and a node
/// both identifiers matter; between nodes they are optional.
#[derive(Debug, Clone, PartialEq, Eq)]
pub struct Body<M> {
    pub msg_id: Option<usize>,
    pub in_reply_to: Option<usize>,
    pub message: M,
}

/// What a `Body` holds.
pub struct BodyView<V> {
    pub msg_id: Option<usize>,
    pub in_reply_to: Option<usize>,
    pub message: V,
}

impl<M: View> View for Body<M> {
    type V = BodyView<M::V>;

    open spec fn view(&self) -> BodyView<M::V> {
        BodyView { msg_id: self.msg_id, in_reply_to: self.in_reply_to, message: self.message@ }
    }
}

impl<M: View> Body<M> {
    /// The identifier the sender gave this message.
    pub fn msg_id(&self) -> (id: Option<usize>)
        ensures
            id == self@.msg_id,
    {
        self.msg_id
    }

    /// The identifier of the message this one answers.
    pub fn in_reply_to(&self) -> (id: Option<usize>)
        ensures
            id == self@.in_reply_to,
    {
        self.in_reply_to
    }

    /// The payload.
    pub fn message(&self) -> (message: &M)
        ensures
            message@ == self@.message,
    {
        &self.message
    }
}

/// A message on its way from `src` to `dest`.
#[derive(Debug, Clone, PartialEq, Eq)]
pub struct Envelope<M> {
    pub src: String,
    pub dest: String,
    pub body: Body<M>,
}

/// What an `Envelope` holds.
pub struct EnvelopeView<V> {
    pub src: Seq<char>,
    pub dest: Seq<char>,
    pub msg_id: Option<usize>,
    pub in_reply_to: Option<usize>,
    pub message: V,
}

impl<M: View> View for Envelope<M> {
    type V = EnvelopeView<M::V>;

    open spec fn view(&self) -> EnvelopeView<M::V> {
        EnvelopeView {
            src: self.src@,
            dest: self.dest@,
            msg_id: self.body.msg_id,
            in_reply_to: self.body.in_reply_to,
            message: self.body.message@,
        }
    }
}

/// Whether `src` names a node of the cluster: node identifiers begin with
/// `n`.
pub open spec fn names_a_node(src: Seq<char>) -> bool {
    src.len() > 0 && src[0] == 'n'
}

/// The answer to `request` that carries `message` under identifier `id`:
/// source and destination change places, and the answer names the request's
/// identifier.
pub open spec fn reply_to<A, B>(request: EnvelopeView<A>, id: usize, message: B) -> EnvelopeView<B> {
    EnvelopeView {
        src: request.dest,
        dest: request.src,
        msg_id: Some(id),
        in_reply_to: request.msg_id,
        message,
    }
}

impl<M: View> Envelope<M> {
    /// An envelope from `src` to `dest` that carries `message`, optionally as
    /// the answer to an earlier message. It takes its identifier from `ids`.
    pub fn new(
        src: &str,
        dest: &str,
        in_reply_to: Option<usize>,
        message: M,
        ids: &mut MessageIds,
    ) -> (envelope: Envelope<M>)
        ensures
            envelope@ == (EnvelopeView {
                src: src@,
                dest: dest@,
                msg_id: Some(old(ids)@),
                in_reply_to,
                message: message@,
            }),
            final(ids)@ == following(old(ids)@),
    {
        let id = ids.next_id();
        Envelope {
            src: src.to_owned(),
            dest: dest.to_owned(),
            body: Body { msg_id: Some(id), in_reply_to, message },
        }
    }

    /// An envelope exactly as it arrived, with the identifiers its sender
    /// chose.
    pub fn received(
        src: &str,
        dest: &str,
        msg_id: Option<usize>,
        in_reply_to: Option<usize>,
        message: M,
    ) -> (envelope: Envelope<M>)
        ensures
            envelope@ == (EnvelopeView { src: src@, dest: dest@, msg_id, in_reply_to, message: message@ }),
    {
        Envelope {
            src: src.to_owned(),
            dest: dest.to_owned(),
            body: Body { msg_id, in_reply_to, message },
        }
    }

    /// Whether this envelope comes from another node of the cluster: node
    /// identifiers begin with `n`.
    pub fn is_internal(&self) -> (internal: bool)
        ensures
            internal == names_a_node(self@.src),
    {
        let src = self.src.as_str();
        src.unicode_len() > 0 && src.get_char(0) == 'n'
    }

    /// The answer to this envelope that carries `message`.
    pub fn reply(&self, message: M, ids: &mut MessageIds) -> (answer: Envelope<M>)
        ensures
            answer@ == reply_to(self@, old(ids)@, message@),
            final(ids)@ == following(old(ids)@),
    {
        let id = ids.next_id();
        Envelope {
            src: self.dest.clone(),
            dest: self.src.clone(),
            body: Body { msg_id: Some(id), in_reply_to: self.body.msg_id, message },
        }
    }

    /// The identifier the sender gave this message.
    pub fn msg_id(&self) -> (id: Option<usize>)
        ensures
            id == self@.msg_id,
    {
        self.body.msg_id
    }

    /// The identifier of the message this one answers.
    pub fn in_reply_to(&self) -> (id: Option<usize>)
        ensures
            id == self@.in_reply_to,
    {
        self.body.in_reply_to
    }

    /// The payload.
    pub fn message(&self) -> (message: &M)
        ensures
            message@ == self@.message,
    {
        &self.body.message
    }

}

} // verus!
