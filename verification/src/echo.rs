//! The echo service: whatever a client sends comes back.
//!
//! It is here twice. `handle_message` works on typed messages. `Echo` works
//! on the JSON body as it came off the wire: it reads the members it needs
//! and answers with the same body, in which it has set the answer's type and
//! identifiers.

use crate::common::Fault;
use crate::envelope::{following, reply_to, Envelope, MessageIds};
use crate::json::{number_at, text_at, Member, Payload};
use crate::names::names_of;
use vstd::prelude::*;

verus! {

/// The messages of the echo service.
#[derive(Debug, Clone, PartialEq, Eq)]
#[allow(inconsistent_fields)]
pub enum Message {
    Init { node_id: String, node_ids: Vec<String> },
    InitOk,
    Echo { echo: String },
    EchoOk { echo: String },
}

/// What a `Message` holds.
#[allow(inconsistent_fields)]
pub enum MessageView {
    Init { node_id: Seq<char>, node_ids: Seq<Seq<char>> },
    InitOk,
    Echo { echo: Seq<char> },
    EchoOk { echo: Seq<char> },
}

impl View for Message {
    type V = MessageView;

    open spec fn view(&self) -> MessageView {
        match self {
            Message::Init { node_id, node_ids } => MessageView::Init {
                node_id: node_id@,
                node_ids: names_of(node_ids@),
            },
            Message::InitOk => MessageView::InitOk,
            Message::Echo { echo } => MessageView::Echo { echo: echo@ },
            Message::EchoOk { echo } => MessageView::EchoOk { echo: echo@ },
        }
    }
}

/// What the service answers to `message`: `Init` is confirmed, an `Echo`
/// comes back with its text, and an answer gets no answer.
pub open spec fn answer(message: MessageView) -> Option<MessageView> {
    match message {
        MessageView::Init { .. } => Some(MessageView::InitOk),
        MessageView::Echo { echo } => Some(MessageView::EchoOk { echo }),
        _ => None,
    }
}

/// Handles one envelope: answers a request in an envelope back to its
/// sender, and ignores anything else.
pub fn handle_message(envelope: &Envelope<Message>, ids: &mut MessageIds) -> (reply: Option<
    Envelope<Message>,
>)
    ensures
        match reply {
            Some(reply) => {
                &&& answer(envelope@.message) == Some(reply@.message)
                &&& reply@ == reply_to(envelope@, old(ids)@, reply@.message)
                &&& final(ids)@ == following(old(ids)@)
            },
            None => answer(envelope@.message) is None && final(ids)@ == old(ids)@,
        },
{
    match envelope.message() {
        Message::Echo { echo } => Some(envelope.reply(Message::EchoOk { echo: echo.clone() }, ids)),
        Message::Init { .. } => Some(envelope.reply(Message::InitOk, ids)),
        _ => None,
    }
}

/// An echo node that works on JSON bodies.
pub struct Echo {
    counter: usize,
    node_id: Option<String>,
}

/// What an `Echo` holds.
pub struct EchoView {
    /// How many messages the node has answered, up to wrap-around.
    pub counter: usize,
    /// The node's identifier, once it has been told.
    pub node_id: Option<Seq<char>>,
}

impl View for Echo {
    type V = EchoView;

    closed spec fn view(&self) -> EchoView {
        EchoView {
            counter: self.counter,
            node_id: match self.node_id {
                Some(id) => Some(id@),
                None => None,
            },
        }
    }
}

/// What a body asks for.
pub enum Asked {
    /// The node is told its identifier.
    Init { msg_id: u64, node_id: Seq<char> },
    /// The body is to come back.
    Echo { msg_id: u64 },
}

/// What `body` asks for, or why it cannot be answered. A body must have a
/// number as `msg_id` and a text as `type`; an `init` must have a text as
/// `node_id` and an `echo` a text as `echo`; no other type is known.
pub open spec fn asked(body: Map<Seq<char>, Member>) -> Result<Asked, Fault> {
    match (number_at(body, "msg_id"@), text_at(body, "type"@)) {
        (Some(msg_id), Some(kind)) => {
            if kind == "init"@ {
                match text_at(body, "node_id"@) {
                    Some(node_id) => Ok(Asked::Init { msg_id, node_id }),
                    None => Err(Fault::Malformed),
                }
            } else if kind == "echo"@ {
                match text_at(body, "echo"@) {
                    Some(_) => Ok(Asked::Echo { msg_id }),
                    None => Err(Fault::Malformed),
                }
            } else {
                Err(Fault::UnexpectedMessage)
            }
        },
        _ => Err(Fault::Malformed),
    }
}

/// The body of the answer: the body of the request, in which `type` names
/// the answer, `msg_id` is the answer's identifier and `in_reply_to` the
/// request's.
pub open spec fn answered(
    body: Map<Seq<char>, Member>,
    kind: Seq<char>,
    msg_id: u64,
    in_reply_to: u64,
) -> Map<Seq<char>, Member> {
    body.insert("type"@, Member::Text(kind)).insert("msg_id"@, Member::Number(msg_id)).insert(
        "in_reply_to"@,
        Member::Number(in_reply_to),
    )
}

impl EchoView {
    /// The node after a body that asks `asked`: it has answered one message
    /// more, and an `init` has told it who it is.
    pub open spec fn after(self, asked: Asked) -> EchoView {
        EchoView {
            counter: following(self.counter),
            node_id: match asked {
                Asked::Init { node_id, .. } => Some(node_id),
                Asked::Echo { .. } => self.node_id,
            },
        }
    }

    /// The body with which the node answers `body`, which asks `asked`.
    pub open spec fn answer(self, body: Map<Seq<char>, Member>, asked: Asked) -> Map<
        Seq<char>,
        Member,
    > {
        match asked {
            Asked::Init { msg_id, .. } => answered(
                body,
                "init_ok"@,
                following(self.counter) as u64,
                msg_id,
            ),
            Asked::Echo { msg_id } => answered(
                body,
                "echo_ok"@,
                following(self.counter) as u64,
                msg_id,
            ),
        }
    }
}

impl Echo {
    /// A node that has been told nothing and has answered nothing.
    pub fn new() -> (node: Self)
        ensures
            node@ == (EchoView { counter: 0, node_id: None }),
    {
        Echo { counter: 0, node_id: None }
    }

    /// How many messages the node has answered.
    pub fn counter(&self) -> (counter: usize)
        ensures
            counter == self@.counter,
    {
        self.counter
    }

    /// Handles one envelope. A body that asks for something is answered by
    /// an envelope back to the sender with the body that `answer` describes,
    /// and the node changes as `after` says. A body that `asked` finds fault
    /// with is refused for that reason and changes nothing.
    pub fn handle_message(&mut self, msg: &crate::common::Envelope<Payload>) -> (outcome: Result<
        crate::common::Envelope<Payload>,
        Fault,
    >)
        ensures
            match outcome {
                Ok(reply) => {
                    &&& asked(msg@.body) matches Ok(request)
                    &&& final(self)@ == old(self)@.after(request)
                    &&& reply@.src == msg@.dest
                    &&& reply@.dest == msg@.src
                    &&& reply@.body == old(self)@.answer(msg@.body, request)
                },
                Err(fault) => {
                    &&& asked(msg@.body) == Err::<Asked, Fault>(fault)
                    &&& final(self)@ == old(self)@
                },
            },
    {
        let payload = &msg.body;
        let msg_id = match payload.number("msg_id") {
            Some(id) => id,
            None => {
                return Err(Fault::Malformed);
            },
        };
        let kind = match payload.text("type") {
            Some(kind) => kind,
            None => {
                return Err(Fault::Malformed);
            },
        };
        let answer_kind = if kind == "init".to_owned() {
            match payload.text("node_id") {
                Some(node_id) => {
                    self.node_id = Some(node_id);
                },
                None => {
                    return Err(Fault::Malformed);
                },
            }
            "init_ok"
        } else if kind == "echo".to_owned() {
            if payload.text("echo").is_none() {
                return Err(Fault::Malformed);
            }
            "echo_ok"
        } else {
            return Err(Fault::UnexpectedMessage);
        };
        if self.counter == usize::MAX {
            self.counter = 0;
        } else {
            self.counter = self.counter + 1;
        }
        let mut body = payload.copy();
        body.set_text("type", answer_kind);
        body.set_number("msg_id", self.counter as u64);
        body.set_number("in_reply_to", msg_id);
        Ok(msg.reply(body))
    }
}

} // verus!
