//! What every node shares whatever it computes: the plain envelope, the
//! wrapper that couples a node to its transport, and the reasons a node may
//! refuse an envelope.

use vstd::prelude::*;

verus! {

/// A message on its way from `src` to `dest`. Whatever identifies the
/// message, or the message it answers, is part of the body.
#[derive(Debug, Clone, PartialEq, Eq)]
pub struct Envelope<B> {
    /// Who sent the message.
    pub src: String,
    /// Who the message is for.
    pub dest: String,
    /// The payload.
    pub body: B,
}

/// What an `Envelope` holds.
pub struct EnvelopeView<V> {
    pub src: Seq<char>,
    pub dest: Seq<char>,
    pub body: V,
}

impl<B: View> View for Envelope<B> {
    type V = EnvelopeView<B::V>;

    open spec fn view(&self) -> EnvelopeView<B::V> {
        EnvelopeView { src: self.src@, dest: self.dest@, body: self.body@ }
    }
}

impl<B: View> Envelope<B> {
    /// An envelope from `src` to `dest` that carries `body`.
    pub fn new(src: &str, dest: &str, body: B) -> (envelope: Self)
        ensures
            envelope@ == (EnvelopeView { src: src@, dest: dest@, body: body@ }),
    {
        Envelope { src: src.to_owned(), dest: dest.to_owned(), body }
    }

    /// The answer to this envelope that carries `body`: source and
    /// destination change places.
    pub fn reply<T: View>(&self, body: T) -> (answer: Envelope<T>)
        ensures
            answer@ == (EnvelopeView { src: self@.dest, dest: self@.src, body: body@ }),
    {
        Envelope { src: self.dest.clone(), dest: self.src.clone(), body }
    }
}

/// A node together with the transport that feeds it. The transport reads
/// envelopes, hands each to the node, and writes what the node answers.
#[derive(Debug)]
pub struct Maelstrom<A> {
    /// The node that handles the messages.
    pub actor: A,
}

impl<A> Maelstrom<A> {
    /// Couples `actor` to a transport.
    pub fn new(actor: A) -> (runtime: Self)
        ensures
            runtime.actor == actor,
    {
        Maelstrom { actor }
    }

    /// Uncouples the node again.
    pub fn into_actor(self) -> (actor: A)
        ensures
            actor == self.actor,
    {
        self.actor
    }
}

/// Why a node refused an envelope. A refusal changes nothing and sends
/// nothing; the node goes on with the next envelope.
#[derive(Debug, Clone, Copy, PartialEq, Eq, Structural)]
pub enum Fault {
    /// The envelope is addressed to another node.
    Misaddressed,
    /// The node cannot act on the message before it has been told who it is.
    NotInitialized,
    /// The message is one a node does not act on.
    UnexpectedMessage,
    /// A count would grow beyond what the machine can hold.
    Overflow,
    /// The message lacks a field that its kind must have.
    Malformed,
}

} // verus!
