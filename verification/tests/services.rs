use maelstrom_gossip::common;
use maelstrom_gossip::common::Fault;
use maelstrom_gossip::echo;
use maelstrom_gossip::envelope::{Envelope, MessageIds};
use maelstrom_gossip::json::Payload;
use maelstrom_gossip::unique_id;

fn payload(text: &str) -> Payload {
    Payload::new(serde_json::from_str(text).unwrap())
}

fn value(text: &str) -> serde_json::Value {
    serde_json::from_str(text).unwrap()
}

#[test]
fn echo_returns_the_text() {
    let mut ids = MessageIds::new();
    let request = Envelope::received(
        "c1",
        "n1",
        Some(3),
        None,
        echo::Message::Echo { echo: "Please echo 35".to_string() },
    );
    let reply = echo::handle_message(&request, &mut ids).unwrap();
    assert_eq!(reply.src, "n1");
    assert_eq!(reply.dest, "c1");
    assert_eq!(reply.in_reply_to(), Some(3));
    assert_eq!(reply.message(), &echo::Message::EchoOk { echo: "Please echo 35".to_string() });
    let init = echo::Message::Init { node_id: "n1".to_string(), node_ids: vec![] };
    let reply =
        echo::handle_message(&Envelope::received("c1", "n1", Some(1), None, init), &mut ids);
    assert_eq!(reply.unwrap().message(), &echo::Message::InitOk);
    let answer = Envelope::received("c1", "n1", None, None, echo::Message::InitOk);
    assert_eq!(echo::handle_message(&answer, &mut ids), None);
    assert_eq!(ids.next_id(), 2);
}

#[test]
fn payload_reads_numbers_and_texts() {
    let body = payload(r#"{"a": 64, "b": -64, "c": 256.5, "d": "text", "e": {"f": 1}, "g": "7"}"#);
    assert!(body.has_members());
    assert_eq!(body.number("a"), Some(64));
    assert_eq!(body.number("b"), None);
    assert_eq!(body.number("c"), None);
    assert_eq!(body.number("d"), None);
    assert_eq!(body.number("g"), None);
    assert_eq!(body.number("missing"), None);
    assert_eq!(body.text("d"), Some("text".to_string()));
    assert_eq!(body.text("g"), Some("7".to_string()));
    assert_eq!(body.text("a"), None);
    assert_eq!(body.text("e"), None);
    assert_eq!(body.text("missing"), None);
    let big = payload(r#"{"n": 18446744073709551615}"#);
    assert_eq!(big.number("n"), Some(u64::MAX));
}

#[test]
fn payload_that_is_no_object_has_no_members_and_takes_none() {
    for text in ["[1, 2]", "\"type\"", "5", "null", "true"] {
        let mut body = payload(text);
        assert!(!body.has_members());
        assert_eq!(body.number("0"), None);
        assert_eq!(body.text("type"), None);
        assert!(!body.set_number("a", 1));
        assert!(!body.set_text("a", "b"));
        assert_eq!(body.into_value(), value(text));
    }
}

#[test]
fn payload_set_replaces_one_member_and_keeps_the_rest() {
    let mut body = payload(r#"{"type": "echo", "msg_id": 1, "echo": "hi"}"#);
    let before = body.copy();
    assert!(body.set_number("msg_id", 9));
    assert!(body.set_text("type", "echo_ok"));
    assert!(body.set_number("in_reply_to", 1));
    assert!(body.set_text("echo", "ho"));
    assert_eq!(body.number("msg_id"), Some(9));
    assert_eq!(body.text("type"), Some("echo_ok".to_string()));
    assert_eq!(
        body.into_value(),
        value(r#"{"type": "echo_ok", "msg_id": 9, "echo": "ho", "in_reply_to": 1}"#)
    );
    // The copy was taken before the changes and does not show them.
    assert_eq!(before.into_value(), value(r#"{"type": "echo", "msg_id": 1, "echo": "hi"}"#));
}

#[test]
fn json_echo_answers_with_the_request_body_marked_as_answer() {
    let mut node = echo::Echo::new();
    let init = common::Envelope::new(
        "c1",
        "n1",
        payload(r#"{"type": "init", "msg_id": 1, "node_id": "n1", "node_ids": ["n1"]}"#),
    );
    let reply = node.handle_message(&init).unwrap();
    assert_eq!(reply.src, "n1");
    assert_eq!(reply.dest, "c1");
    assert_eq!(
        reply.body.into_value(),
        value(
            r#"{"type": "init_ok", "msg_id": 1, "in_reply_to": 1, "node_id": "n1",
                "node_ids": ["n1"]}"#
        )
    );
    assert_eq!(node.counter(), 1);

    let request = common::Envelope::new(
        "c2",
        "n1",
        payload(r#"{"type": "echo", "msg_id": 17, "echo": "hello there"}"#),
    );
    let reply = node.handle_message(&request).unwrap();
    assert_eq!(reply.dest, "c2");
    assert_eq!(
        reply.body.into_value(),
        value(r#"{"type": "echo_ok", "msg_id": 2, "in_reply_to": 17, "echo": "hello there"}"#)
    );
    // The request is as it was.
    assert_eq!(
        request.body.into_value(),
        value(r#"{"type": "echo", "msg_id": 17, "echo": "hello there"}"#)
    );
    assert_eq!(node.counter(), 2);
}

#[test]
fn json_echo_refuses_what_it_cannot_answer() {
    let mut node = echo::Echo::new();
    let ask = |text: &str| common::Envelope::new("c1", "n1", payload(text));
    let fault = |node: &mut echo::Echo, text: &str| node.handle_message(&ask(text)).err();
    assert_eq!(fault(&mut node, r#"{"type": "echo", "echo": "x"}"#), Some(Fault::Malformed));
    assert_eq!(
        fault(&mut node, r#"{"type": "echo", "msg_id": "1", "echo": "x"}"#),
        Some(Fault::Malformed)
    );
    assert_eq!(fault(&mut node, r#"{"msg_id": 1, "echo": "x"}"#), Some(Fault::Malformed));
    assert_eq!(fault(&mut node, r#"{"type": 5, "msg_id": 1}"#), Some(Fault::Malformed));
    assert_eq!(fault(&mut node, r#"{"type": "echo", "msg_id": 1}"#), Some(Fault::Malformed));
    assert_eq!(fault(&mut node, r#"{"type": "init", "msg_id": 1}"#), Some(Fault::Malformed));
    assert_eq!(
        fault(&mut node, r#"{"type": "echo_ok", "msg_id": 1, "echo": "x"}"#),
        Some(Fault::UnexpectedMessage)
    );
    assert_eq!(fault(&mut node, "[1]"), Some(Fault::Malformed));
    assert_eq!(node.counter(), 0);
}

#[test]
fn numbers_are_written_in_decimal() {
    assert_eq!(unique_id::decimal_text(0), "0");
    assert_eq!(unique_id::decimal_text(7), "7");
    assert_eq!(unique_id::decimal_text(10), "10");
    assert_eq!(unique_id::decimal_text(1234567890), "1234567890");
    assert_eq!(unique_id::decimal_text(usize::MAX), usize::MAX.to_string());
}

#[test]
fn generated_identifiers_carry_the_node_and_a_rising_count() {
    let mut ids = MessageIds::new();
    let mut node = unique_id::UniqueUuid::new();
    let generate = Envelope::received("c1", "n3", Some(4), None, unique_id::Message::Generate);
    assert_eq!(
        unique_id::handle_message(&mut node, &generate, &mut ids),
        Err(Fault::NotInitialized)
    );
    let init = unique_id::Message::Init { node_id: "n3".to_string(), node_ids: vec![] };
    let reply = unique_id::handle_message(
        &mut node,
        &Envelope::received("c1", "n3", Some(1), None, init),
        &mut ids,
    );
    assert_eq!(reply.unwrap().unwrap().message(), &unique_id::Message::InitOk);
    for count in 0..12 {
        let reply = unique_id::handle_message(&mut node, &generate, &mut ids).unwrap().unwrap();
        assert_eq!(reply.dest, "c1");
        assert_eq!(reply.in_reply_to(), Some(4));
        assert_eq!(
            reply.message(),
            &unique_id::Message::GenerateOk { id: format!("n3-{}", count) }
        );
    }
    let ignored = Envelope::received("c1", "n3", None, None, unique_id::Message::InitOk);
    assert_eq!(unique_id::handle_message(&mut node, &ignored, &mut ids), Ok(None));
}
