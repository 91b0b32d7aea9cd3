//! Identifiers that no two requests share: a node hands out its own
//! identifier followed by a dash and a count that goes up with every
//! request.

use crate::common::Fault;
use crate::envelope::{following, reply_to, Envelope, MessageIds};
use crate::names::names_of;
use vstd::prelude::*;

verus! {

/// The messages of the identifier service.
#[derive(Debug, Clone, PartialEq, Eq)]
#[allow(inconsistent_fields)]
pub enum Message {
    Init { node_id: String, node_ids: Vec<String> },
    InitOk,
    Generate,
    GenerateOk { id: String },
}

/// What a `Message` holds.
pub enum MessageView {
    Init { node_id: Seq<char>, node_ids: Seq<Seq<char>> },
    InitOk,
    Generate,
    GenerateOk { id: Seq<char> },
}

impl View for Message {
    type V = MessageView;

    open spec fn view(&self) -> MessageView {
        match self {
            Message::Init { node_id, node_ids } => MessageView::Init {
                node_id: node_id@,
                node_ids: names_of(node_ids@),
            },
            Message::InitOk => MessageView::InitOk,
            Message::Generate => MessageView::Generate,
            Message::GenerateOk { id } => MessageView::GenerateOk { id: id@ },
        }
    }
}

/// The character that stands for the digit `d`.
pub open spec fn digit_char(d: nat) -> char {
    if d == 0 {
        '0'
    } else if d == 1 {
        '1'
    } else if d == 2 {
        '2'
    } else if d == 3 {
        '3'
    } else if d == 4 {
        '4'
    } else if d == 5 {
        '5'
    } else if d == 6 {
        '6'
    } else if d == 7 {
        '7'
    } else if d == 8 {
        '8'
    } else {
        '9'
    }
}

/// `n` written in decimal, without leading zeros.
pub open spec fn decimal(n: nat) -> Seq<char>
    decreases n,
{
    if n < 10 {
        seq![digit_char(n)]
    } else {
        decimal(n / 10).push(digit_char(n % 10))
    }
}

/// The identifier that node `node` hands out at count `count`.
pub open spec fn generated(node: Seq<char>, count: nat) -> Seq<char> {
    node.push('-') + decimal(count)
}

fn digit_text(d: usize) -> (text: &'static str)
    requires
        d < 10,
    ensures
        text@ == seq![digit_char(d as nat)],
{
    proof {
        reveal_strlit("0");
        reveal_strlit("1");
        reveal_strlit("2");
        reveal_strlit("3");
        reveal_strlit("4");
        reveal_strlit("5");
        reveal_strlit("6");
        reveal_strlit("7");
        reveal_strlit("8");
        reveal_strlit("9");
    }
    let text = if d == 0 {
        "0"
    } else if d == 1 {
        "1"
    } else if d == 2 {
        "2"
    } else if d == 3 {
        "3"
    } else if d == 4 {
        "4"
    } else if d == 5 {
        "5"
    } else if d == 6 {
        "6"
    } else if d == 7 {
        "7"
    } else if d == 8 {
        "8"
    } else {
        "9"
    };
    proof {
        assert(text@ =~= seq![digit_char(d as nat)]);
    }
    text
}

/// `n` written in decimal.
pub fn decimal_text(n: usize) -> (text: String)
    ensures
        text@ == decimal(n as nat),
    decreases n,
{
    if n < 10 {
        digit_text(n).to_owned()
    } else {
        let front = decimal_text(n / 10);
        let text = front.concat(digit_text(n % 10));
        proof {
            assert(text@ =~= decimal((n / 10) as nat).push(digit_char((n % 10) as nat)));
        }
        text
    }
}

/// The state of an identifier node.
pub struct UniqueUuid {
    counter: usize,
    node_id: Option<String>,
}

/// What a `UniqueUuid` holds.
pub struct UniqueUuidView {
    /// How many identifiers the node has handed out, up to wrap-around.
    pub counter: usize,
    /// The node's identifier, once it has been told.
    pub node_id: Option<Seq<char>>,
}

impl View for UniqueUuid {
    type V = UniqueUuidView;

    closed spec fn view(&self) -> UniqueUuidView {
        UniqueUuidView {
            counter: self.counter,
            node_id: match self.node_id {
                Some(id) => Some(id@),
                None => None,
            },
        }
    }
}

impl UniqueUuidView {
    /// The node after `message`.
    pub open spec fn after(self, message: MessageView) -> UniqueUuidView {
        match message {
            MessageView::Init { node_id, .. } => UniqueUuidView { node_id: Some(node_id), ..self },
            MessageView::Generate => if self.node_id is Some {
                UniqueUuidView { counter: following(self.counter), ..self }
            } else {
                self
            },
            _ => self,
        }
    }

    /// What the node answers to `message`, if it answers.
    pub open spec fn answer(self, message: MessageView) -> Option<MessageView> {
        match message {
            MessageView::Init { .. } => Some(MessageView::InitOk),
            MessageView::Generate => match self.node_id {
                Some(node) => Some(
                    MessageView::GenerateOk { id: generated(node, self.counter as nat) },
                ),
                None => None,
            },
            _ => None,
        }
    }
}

impl UniqueUuid {
    /// A node that has been told nothing and has handed out nothing.
    pub fn new() -> (node: Self)
        ensures
            node@ == (UniqueUuidView { counter: 0, node_id: None }),
    {
        UniqueUuid { counter: 0, node_id: None }
    }
}

/// Handles one envelope. `Init` tells the node who it is; `Generate` is
/// answered with a new identifier, and is refused, changing nothing, as long
/// as the node does not know who it is; anything else is ignored.
pub fn handle_message(state: &mut UniqueUuid, envelope: &Envelope<Message>, ids: &mut MessageIds) -> (outcome:
    Result<Option<Envelope<Message>>, Fault>)
    ensures
        match outcome {
            Ok(Some(reply)) => {
                &&& final(state)@ == old(state)@.after(envelope@.message)
                &&& old(state)@.answer(envelope@.message) == Some(reply@.message)
                &&& reply@ == reply_to(envelope@, old(ids)@, reply@.message)
                &&& final(ids)@ == following(old(ids)@)
            },
            Ok(None) => {
                &&& !(envelope@.message is Init) && !(envelope@.message is Generate)
                &&& final(state)@ == old(state)@
                &&& final(ids)@ == old(ids)@
            },
            Err(fault) => {
                &&& envelope@.message is Generate
                &&& old(state)@.node_id is None
                &&& fault == Fault::NotInitialized
                &&& final(state)@ == old(state)@
                &&& final(ids)@ == old(ids)@
            },
        },
{
    match envelope.message() {
        Message::Init { node_id, .. } => {
            state.node_id = Some(node_id.clone());
            Ok(Some(envelope.reply(Message::InitOk, ids)))
        },
        Message::Generate => {
            let mut id = match &state.node_id {
                Some(node) => node.clone(),
                None => {
                    return Err(Fault::NotInitialized);
                },
            };
            let ghost node = id@;
            proof {
                reveal_strlit("-");
            }
            id.append("-");
            let count = decimal_text(state.counter);
            id.append(count.as_str());
            proof {
                assert(id@ =~= generated(node, state.counter as nat));
            }
            if state.counter == usize::MAX {
                state.counter = 0;
            } else {
                state.counter = state.counter + 1;
            }
            Ok(Some(envelope.reply(Message::GenerateOk { id }, ids)))
        },
        _ => Ok(None),
    }
}

/// A number written in decimal has one digit exactly if it is below ten.
pub proof fn lemma_decimal_len(n: nat)
    ensures
        decimal(n).len() >= 1,
        decimal(n).len() == 1 <==> n < 10,
    decreases n,
{
    if n >= 10 {
        lemma_decimal_len(n / 10);
    }
}

/// Different numbers are written differently.
pub proof fn lemma_decimal_injective(a: nat, b: nat)
    requires
        a != b,
    ensures
        decimal(a) != decimal(b),
    decreases a,
{
    lemma_decimal_len(a);
    lemma_decimal_len(b);
    if a < 10 && b < 10 {
        assert(decimal(a)[0] != decimal(b)[0]);
    } else if a >= 10 && b >= 10 {
        let x = decimal(a / 10);
        let y = decimal(b / 10);
        if a % 10 != b % 10 {
            assert(decimal(a).last() == digit_char(a % 10));
            assert(decimal(b).last() == digit_char(b % 10));
        } else {
            assert(a / 10 != b / 10);
            lemma_decimal_injective(a / 10, b / 10);
            if decimal(a) == decimal(b) {
                assert(decimal(a).drop_last() =~= x);
                assert(decimal(b).drop_last() =~= y);
            }
        }
    }
}

/// One node never hands out the same identifier at two different counts.
pub proof fn law_identifiers_differ(node: Seq<char>, a: nat, b: nat)
    requires
        a != b,
    ensures
        generated(node, a) != generated(node, b),
{
    lemma_decimal_injective(a, b);
    let prefix = node.push('-');
    if generated(node, a) == generated(node, b) {
        assert(generated(node, a).skip(prefix.len() as int) =~= decimal(a));
        assert(generated(node, b).skip(prefix.len() as int) =~= decimal(b));
    }
}

} // verus!
