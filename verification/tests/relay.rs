use maelstrom_gossip::common::{Envelope, Fault};
use maelstrom_gossip::relay::{Message, MessageAcknowledger, MessageBroadcaster, Node};

fn names(list: &[&str]) -> Vec<String> {
    list.iter().map(|s| s.to_string()).collect()
}

fn started(id: &str, members: &[&str], neighbors: &[&str]) -> MessageBroadcaster {
    let mut node = MessageBroadcaster::new(Node::new());
    let init = Message::Init { msg_id: 1, node_id: id.to_string(), node_ids: names(members) };
    let sent = node.run(&Envelope::new("c1", id, init)).unwrap();
    assert_eq!(sent, vec![Envelope::new(id, "c1", Message::InitOk { in_reply_to: 1 })]);
    let topology =
        Message::Topology { msg_id: 2, topology: vec![(id.to_string(), names(neighbors))] };
    let sent = node.run(&Envelope::new("c1", id, topology)).unwrap();
    assert_eq!(sent, vec![Envelope::new(id, "c1", Message::TopologyOk { in_reply_to: 2 })]);
    node
}

fn forward(src: &str, dest: &str, message: usize) -> Envelope<Message> {
    Envelope::new(src, dest, Message::Broadcast { msg_id: None, message })
}

#[test]
fn only_unnumbered_broadcasts_come_from_server_nodes() {
    assert!(Message::Broadcast { msg_id: None, message: 1 }.is_from_server_node());
    assert!(!Message::Broadcast { msg_id: Some(3), message: 1 }.is_from_server_node());
    assert!(Message::BroadcastOk { in_reply_to: None }.is_from_server_node());
    assert!(!Message::BroadcastOk { in_reply_to: Some(3) }.is_from_server_node());
    assert!(!Message::Read { msg_id: 1 }.is_from_server_node());
    assert!(!Message::InitOk { in_reply_to: 1 }.is_from_server_node());
}

#[test]
fn a_new_value_from_a_client_is_confirmed_and_forwarded() {
    let mut node = started("n1", &["n1", "n2", "n3"], &["n2", "n3"]);
    let request = Envelope::new("c1", "n1", Message::Broadcast { msg_id: Some(5), message: 42 });
    let confirmation = Envelope::new("n1", "c1", Message::BroadcastOk { in_reply_to: Some(5) });
    let sent = node.run(&request).unwrap();
    assert_eq!(sent, vec![confirmation.clone(), forward("n1", "n2", 42), forward("n1", "n3", 42)]);
    assert_eq!(node.state().values(), vec![42]);
}

#[test]
fn a_repeated_value_from_a_client_is_confirmed_and_not_forwarded() {
    let mut node = started("n1", &["n1", "n2", "n3"], &["n2", "n3"]);
    let request = Envelope::new("c1", "n1", Message::Broadcast { msg_id: Some(5), message: 42 });
    node.run(&request).unwrap();
    let again = Envelope::new("c2", "n1", Message::Broadcast { msg_id: Some(9), message: 42 });
    assert_eq!(
        node.run(&again).unwrap(),
        vec![Envelope::new("n1", "c2", Message::BroadcastOk { in_reply_to: Some(9) })]
    );
    assert_eq!(node.state().values(), vec![42]);
}

#[test]
fn a_value_from_a_node_is_not_confirmed_and_not_sent_back() {
    let mut node = started("n2", &["n1", "n2", "n3"], &["n1", "n3"]);
    let sent = node.run(&forward("n1", "n2", 42)).unwrap();
    assert_eq!(sent, vec![forward("n2", "n3", 42)]);
    // The same value from another node causes nothing at all.
    assert_eq!(node.run(&forward("n3", "n2", 42)).unwrap(), vec![]);
    let read = node.run(&Envelope::new("c1", "n2", Message::Read { msg_id: 8 })).unwrap();
    assert_eq!(
        read,
        vec![Envelope::new("n2", "c1", Message::ReadOk { in_reply_to: 8, messages: vec![42] })]
    );
    assert_eq!(
        node.run(&Envelope::new("n1", "n2", Message::BroadcastOk { in_reply_to: None })).unwrap(),
        vec![]
    );
}

#[test]
fn a_neighbour_declared_twice_gets_a_value_once() {
    let mut node = started("n1", &["n1", "n2", "n3"], &["n2", "n3", "n2"]);
    let request = Envelope::new("c1", "n1", Message::Broadcast { msg_id: Some(5), message: 7 });
    assert_eq!(
        node.run(&request).unwrap(),
        vec![
            Envelope::new("n1", "c1", Message::BroadcastOk { in_reply_to: Some(5) }),
            forward("n1", "n2", 7),
            forward("n1", "n3", 7),
        ]
    );
}

#[test]
fn without_a_declaration_the_stride_partition_applies() {
    let members = ["n0", "n1", "n2", "n3", "n4", "n5", "n6", "n7"];
    let mut node = MessageBroadcaster::new(Node::new());
    let init = Message::Init { msg_id: 1, node_id: "n0".to_string(), node_ids: names(&members) };
    node.run(&Envelope::new("c1", "n0", init)).unwrap();
    let topology = Message::Topology { msg_id: 2, topology: vec![] };
    assert_eq!(
        node.run(&Envelope::new("c1", "n0", topology)).unwrap(),
        vec![Envelope::new("n0", "c1", Message::TopologyOk { in_reply_to: 2 })]
    );
    let request = Envelope::new("c1", "n0", Message::Broadcast { msg_id: Some(5), message: 3 });
    assert_eq!(
        node.run(&request).unwrap(),
        vec![
            Envelope::new("n0", "c1", Message::BroadcastOk { in_reply_to: Some(5) }),
            forward("n0", "n1", 3),
            forward("n0", "n5", 3),
        ]
    );
}

#[test]
fn a_broadcast_before_init_or_topology_is_recorded_and_confirmed() {
    let mut fresh = MessageBroadcaster::new(Node::new());
    let broadcast = |id, message| {
        Envelope::new("c1", "n1", Message::Broadcast { msg_id: Some(id), message })
    };
    let confirmed =
        |id| vec![Envelope::new("n1", "c1", Message::BroadcastOk { in_reply_to: Some(id) })];
    assert_eq!(fresh.run(&broadcast(1, 10)).unwrap(), confirmed(1));
    assert_eq!(fresh.state().values(), vec![10]);

    let init =
        Message::Init { msg_id: 2, node_id: "n1".to_string(), node_ids: names(&["n1", "n2"]) };
    fresh.run(&Envelope::new("c1", "n1", init)).unwrap();
    // Known who it is, but no topology yet: nobody to forward to.
    assert_eq!(fresh.run(&broadcast(3, 11)).unwrap(), confirmed(3));
    let mut values = fresh.state().values();
    values.sort();
    assert_eq!(values, vec![10, 11]);
}

#[test]
fn broadcaster_refusals_change_nothing() {
    let mut node = started("n1", &["n1", "n2"], &["n2"]);
    let elsewhere = Envelope::new("c1", "n2", Message::Broadcast { msg_id: Some(3), message: 1 });
    assert_eq!(node.run(&elsewhere), Err(Fault::Misaddressed));
    for answer in [
        Message::InitOk { in_reply_to: 1 },
        Message::TopologyOk { in_reply_to: 1 },
        Message::ReadOk { in_reply_to: 1, messages: vec![] },
    ] {
        assert_eq!(node.run(&Envelope::new("c1", "n1", answer)), Err(Fault::UnexpectedMessage));
    }
    assert!(node.state().values().is_empty());
}

#[test]
fn acknowledger_records_and_confirms_without_forwarding() {
    let mut node = MessageAcknowledger::new(Node::new());
    let init =
        Message::Init { msg_id: 1, node_id: "n1".to_string(), node_ids: names(&["n1", "n2"]) };
    node.run(&Envelope::new("c1", "n1", init)).unwrap();
    let request = Envelope::new("c1", "n1", Message::Broadcast { msg_id: Some(5), message: 7 });
    let expected = vec![Envelope::new("n1", "c1", Message::BroadcastOk { in_reply_to: Some(5) })];
    assert_eq!(node.run(&request).unwrap(), expected);
    assert_eq!(node.run(&request).unwrap(), expected);
    assert_eq!(node.state().values(), vec![7]);
    assert_eq!(
        node.run(&Envelope::new("n2", "n1", Message::BroadcastOk { in_reply_to: None })),
        Err(Fault::UnexpectedMessage)
    );
    assert_eq!(
        node.run(&Envelope::new("c1", "n9", Message::Read { msg_id: 2 })),
        Err(Fault::Misaddressed)
    );
    let topology = Message::Topology { msg_id: 4, topology: vec![] };
    assert_eq!(
        node.run(&Envelope::new("c1", "n1", topology)).unwrap(),
        vec![Envelope::new("n1", "c1", Message::TopologyOk { in_reply_to: 4 })]
    );
}
