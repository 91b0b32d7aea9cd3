use maelstrom_gossip::common::Fault;
use maelstrom_gossip::counter::{
    handle_message, is_a_kv_store_envelope, message_for_kv_store, Counter, Event, Message,
};
use maelstrom_gossip::envelope::{Envelope, MessageIds};

fn names(list: &[&str]) -> Vec<String> {
    list.iter().map(|s| s.to_string()).collect()
}

fn cas(from: usize, to: usize, create: Option<bool>) -> Message {
    Message::Cas { key: "total".to_string(), from, to, create_if_not_exists: create }
}

fn inbound(src: &str, id: Option<usize>, re: Option<usize>, message: Message) -> Event {
    Event::Inbound(Envelope::received(src, "n1", id, re, message))
}

/// A node that has been initialised and whose first compare-and-set was confirmed.
fn started(ids: &mut MessageIds) -> Counter {
    let mut counter = Counter::new();
    let init = Message::Init { node_id: "n1".to_string(), node_ids: names(&["n1", "n2", "n3"]) };
    let sent = handle_message(&mut counter, &inbound("c1", Some(1), None, init), ids).unwrap();
    assert_eq!(sent.len(), 2);
    assert_eq!(sent[0], Envelope::received("n1", "c1", Some(0), Some(1), Message::InitOk));
    assert_eq!(
        sent[1],
        Envelope::received("n1", "seq-kv", Some(1), None, cas(0, 0, Some(true)))
    );
    let ok = inbound("seq-kv", Some(0), Some(1), Message::CasOk);
    assert_eq!(handle_message(&mut counter, &ok, ids).unwrap(), vec![]);
    counter
}

#[test]
fn envelopes_of_the_store_are_told_apart() {
    let mut ids = MessageIds::new();
    let to_store = message_for_kv_store("n1", Message::Read { key: Some("total".into()) }, &mut ids);
    assert_eq!(to_store.src, "n1");
    assert_eq!(to_store.dest, "seq-kv");
    assert_eq!(to_store.msg_id(), Some(0));
    assert_eq!(to_store.in_reply_to(), None);
    assert!(is_a_kv_store_envelope(&to_store));
    let from_store = Envelope::received("seq-kv", "n1", None, Some(0), Message::ReadOk { value: 3 });
    assert!(is_a_kv_store_envelope(&from_store));
    let keyed = Envelope::received("n2", "n1", None, None, Message::Read { key: Some("x".into()) });
    assert!(is_a_kv_store_envelope(&keyed));
    let plain = Envelope::received("n2", "n1", None, None, Message::Read { key: None });
    assert!(!is_a_kv_store_envelope(&plain));
    let other = Envelope::received("c1", "n1", None, None, Message::Add { delta: 1 });
    assert!(!is_a_kv_store_envelope(&other));
}

#[test]
fn adds_are_collected_while_a_write_is_under_way() {
    let mut ids = MessageIds::new();
    let mut counter = started(&mut ids);
    assert_eq!(counter.value(), 0);

    let add = |delta| inbound("c1", Some(5), None, Message::Add { delta });
    let sent = handle_message(&mut counter, &add(3), &mut ids).unwrap();
    assert_eq!(
        sent,
        vec![
            Envelope::received("n1", "c1", Some(2), Some(5), Message::AddOk),
            Envelope::received("n1", "seq-kv", Some(3), None, cas(0, 3, None)),
        ]
    );
    // The write is under way: a further add is confirmed and kept.
    let sent = handle_message(&mut counter, &add(4), &mut ids).unwrap();
    assert_eq!(sent, vec![Envelope::received("n1", "c1", Some(4), Some(5), Message::AddOk)]);
    assert_eq!(counter.pending_add(), 7);
    assert_eq!(counter.value(), 0);

    // A confirmation of some other write changes nothing.
    let stale = inbound("seq-kv", None, Some(99), Message::CasOk);
    assert_eq!(handle_message(&mut counter, &stale, &mut ids).unwrap(), vec![]);
    assert_eq!(counter.pending_add(), 7);

    // The confirmation of the write under way settles what it wrote.
    let ok = inbound("seq-kv", None, Some(3), Message::CasOk);
    assert_eq!(handle_message(&mut counter, &ok, &mut ids).unwrap(), vec![]);
    assert_eq!(counter.value(), 3);
    assert_eq!(counter.pending_add(), 0);

    let read = inbound("c1", Some(6), None, Message::Read { key: None });
    assert_eq!(
        handle_message(&mut counter, &read, &mut ids).unwrap(),
        vec![Envelope::received("n1", "c1", Some(5), Some(6), Message::ReadOk { value: 3 })]
    );
}

#[test]
fn a_refused_write_asks_the_store_and_writes_again() {
    let mut ids = MessageIds::new();
    let mut counter = started(&mut ids);
    let add = inbound("c1", Some(5), None, Message::Add { delta: 2 });
    handle_message(&mut counter, &add, &mut ids).unwrap();
    let error =
        inbound("seq-kv", None, Some(3), Message::Error { code: 22, text: "no".to_string() });
    let sent = handle_message(&mut counter, &error, &mut ids).unwrap();
    assert_eq!(
        sent,
        vec![
            Envelope::received(
                "n1",
                "seq-kv",
                Some(4),
                None,
                Message::Read { key: Some("total".to_string()) }
            ),
            Envelope::received("n1", "seq-kv", Some(5), None, cas(0, 2, None)),
        ]
    );
}

#[test]
fn totals_seen_elsewhere_are_taken_over() {
    let mut ids = MessageIds::new();
    let mut counter = started(&mut ids);
    let seen = |src: &str, value| inbound(src, None, None, Message::ReadOk { value });
    handle_message(&mut counter, &seen("n2", 10), &mut ids).unwrap();
    assert_eq!(counter.value(), 10);
    // A neighbour's lower total is ignored, the store's is authoritative.
    handle_message(&mut counter, &seen("n3", 4), &mut ids).unwrap();
    assert_eq!(counter.value(), 10);
    handle_message(&mut counter, &seen("seq-kv", 4), &mut ids).unwrap();
    assert_eq!(counter.value(), 4);
}

#[test]
fn an_idle_node_asks_its_peers_on_timeout() {
    let mut ids = MessageIds::new();
    let mut counter = started(&mut ids);
    let sent = handle_message(&mut counter, &Event::Timeout, &mut ids).unwrap();
    let ask = |dest: &str, id| {
        Envelope::received("n1", dest, Some(id), None, Message::Read { key: None })
    };
    assert_eq!(sent, vec![ask("n2", 2), ask("n3", 3)]);
    assert_eq!(handle_message(&mut counter, &Event::Disconnected, &mut ids).unwrap(), vec![]);

    let topology = inbound("c1", Some(8), None, Message::Topology { topology: vec![] });
    assert_eq!(
        handle_message(&mut counter, &topology, &mut ids).unwrap(),
        vec![Envelope::received("n1", "c1", Some(4), Some(8), Message::TopologyOk)]
    );
    let ignored = inbound("c1", Some(9), None, Message::WriteOk);
    assert_eq!(handle_message(&mut counter, &ignored, &mut ids).unwrap(), vec![]);

    // With something to write, a timeout asks nobody.
    let add = inbound("c1", Some(5), None, Message::Add { delta: 1 });
    handle_message(&mut counter, &add, &mut ids).unwrap();
    assert_eq!(handle_message(&mut counter, &Event::Timeout, &mut ids).unwrap(), vec![]);
}

#[test]
fn counts_that_do_not_fit_are_refused() {
    let mut ids = MessageIds::new();
    let mut counter = started(&mut ids);
    let add = |delta| inbound("c1", Some(5), None, Message::Add { delta });
    handle_message(&mut counter, &add(usize::MAX), &mut ids).unwrap();
    assert!(!counter.accepts(&add(1)));
    assert_eq!(handle_message(&mut counter, &add(1), &mut ids), Err(Fault::Overflow));
    assert_eq!(counter.pending_add(), usize::MAX);
    assert!(counter.accepts(&add(0)));
    assert_eq!(ids.next_id(), 4);
}
