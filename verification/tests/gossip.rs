use maelstrom_gossip::envelope::{Envelope, MessageIds};
use maelstrom_gossip::node::Node;
use maelstrom_gossip::protocol::{Error, Message};
use maelstrom_gossip::scheduler::{Event, GossipScheduler, SYNC_INTERVAL};

fn names(list: &[&str]) -> Vec<String> {
    list.iter().map(|s| s.to_string()).collect()
}

fn from_client(dest: &str, id: usize, message: Message) -> Envelope<Message> {
    Envelope::received("c1", dest, Some(id), None, message)
}

fn sorted(mut values: Vec<usize>) -> Vec<usize> {
    values.sort();
    values
}

/// A node that knows who it is and whom it talks to.
fn started(id: &str, members: &[&str], neighbors: &[&str], ids: &mut MessageIds) -> Node {
    let mut node = Node::new();
    let init = Message::Init { node_id: id.to_string(), node_ids: names(members) };
    let reply = node.handle(&from_client(id, 1, init), ids).unwrap().unwrap();
    assert_eq!(reply.message(), &Message::InitOk);
    let topology = Message::Topology { topology: vec![(id.to_string(), names(neighbors))] };
    let reply = node.handle(&from_client(id, 2, topology), ids).unwrap().unwrap();
    assert_eq!(reply.message(), &Message::TopologyOk);
    node
}

fn read(node: &mut Node, ids: &mut MessageIds) -> Vec<usize> {
    let id = node.id();
    let reply = node.handle(&from_client(&id, 99, Message::Read), ids).unwrap().unwrap();
    match reply.message() {
        Message::ReadOk { messages } => sorted(messages.clone()),
        other => panic!("expected read_ok, got {:?}", other),
    }
}

#[test]
fn single_node_broadcast_then_read() {
    let mut ids = MessageIds::new();
    let mut node = started("n1", &["n1"], &[], &mut ids);
    let request = from_client("n1", 7, Message::Broadcast { message: 5 });
    let reply = node.handle(&request, &mut ids).unwrap().unwrap();
    assert_eq!(reply.message(), &Message::BroadcastOk);
    assert_eq!(reply.src, "n1");
    assert_eq!(reply.dest, "c1");
    assert_eq!(reply.in_reply_to(), Some(7));
    assert_eq!(reply.msg_id(), Some(2));
    assert_eq!(read(&mut node, &mut ids), vec![5]);
}

#[test]
fn two_nodes_converge_after_one_flush() {
    let mut ids1 = MessageIds::new();
    let mut ids2 = MessageIds::new();
    let mut n1 = started("n1", &["n1", "n2"], &["n2"], &mut ids1);
    let mut n2 = started("n2", &["n1", "n2"], &["n1"], &mut ids2);
    n1.handle(&from_client("n1", 3, Message::Broadcast { message: 7 }), &mut ids1).unwrap();
    assert_eq!(read(&mut n2, &mut ids2), Vec::<usize>::new());

    let sent = n1.flush(&mut ids1);
    assert_eq!(sent.len(), 1);
    assert_eq!(sent[0].src, "n1");
    assert_eq!(sent[0].dest, "n2");
    assert_eq!(sent[0].message(), &Message::Sync { messages: vec![7] });
    assert_eq!(sent[0].in_reply_to(), None);

    let ack = n2.handle(&sent[0], &mut ids2).unwrap().unwrap();
    assert_eq!(ack.message(), &Message::SyncOk { messages: vec![7] });
    assert_eq!(ack.dest, "n1");
    assert_eq!(read(&mut n2, &mut ids2), vec![7]);
    // The value came from n1, so n2 does not queue it back.
    assert_eq!(n2.pending_for("n1"), Vec::<usize>::new());
    assert!(n2.flush(&mut ids2).is_empty());

    assert_eq!(n1.pending_for("n2"), vec![7]);
    assert_eq!(n1.handle(&ack, &mut ids1).unwrap(), None);
    assert_eq!(n1.pending_for("n2"), Vec::<usize>::new());
    assert!(n1.flush(&mut ids1).is_empty());
}

#[test]
fn sync_delivered_twice_is_idempotent() {
    let mut ids = MessageIds::new();
    let mut node = started("n1", &["n1", "n2", "n3"], &["n2", "n3"], &mut ids);
    let sync = Envelope::received("n2", "n1", None, None, Message::Sync { messages: vec![3, 3, 4] });
    let first = node.handle(&sync, &mut ids).unwrap().unwrap();
    assert_eq!(first.message(), &Message::SyncOk { messages: vec![3, 3, 4] });
    let second = node.handle(&sync, &mut ids).unwrap().unwrap();
    assert_eq!(second.message(), &Message::SyncOk { messages: vec![3, 3, 4] });
    assert_eq!(read(&mut node, &mut ids), vec![3, 4]);
    assert_eq!(node.messages().len(), 2);
    // Each value was queued once, and never for the sender.
    assert_eq!(node.pending_for("n3"), vec![3, 4]);
    assert_eq!(node.pending_for("n2"), Vec::<usize>::new());
}

#[test]
fn stride_topology_of_eight_nodes() {
    let members = ["n0", "n1", "n2", "n3", "n4", "n5", "n6", "n7"];
    let mut ids = MessageIds::new();
    let mut node = Node::new();
    let init = Message::Init { node_id: "n0".to_string(), node_ids: names(&members) };
    node.handle(&from_client("n0", 1, init), &mut ids).unwrap();
    // No adjacency is declared for n0, so the stride partition applies.
    let topology = Message::Topology { topology: vec![] };
    node.handle(&from_client("n0", 2, topology), &mut ids).unwrap();
    assert_eq!(node.neighbors(), names(&["n1", "n5"]));
}

#[test]
fn observe_twice_queues_once() {
    let mut ids = MessageIds::new();
    let mut node = started("n1", &["n1", "n2"], &["n2"], &mut ids);
    node.handle(&from_client("n1", 3, Message::Broadcast { message: 9 }), &mut ids).unwrap();
    let reply = node.handle(&from_client("n1", 4, Message::Broadcast { message: 9 }), &mut ids);
    assert_eq!(reply.unwrap().unwrap().message(), &Message::BroadcastOk);
    assert_eq!(read(&mut node, &mut ids), vec![9]);
    assert_eq!(node.pending_for("n2"), vec![9]);
}

#[test]
fn acknowledging_an_unknown_value_changes_nothing() {
    let mut ids = MessageIds::new();
    let mut node = started("n1", &["n1", "n2"], &["n2"], &mut ids);
    node.handle(&from_client("n1", 3, Message::Broadcast { message: 1 }), &mut ids).unwrap();
    let ack = Envelope::received("n2", "n1", None, None, Message::SyncOk { messages: vec![42] });
    assert_eq!(node.handle(&ack, &mut ids).unwrap(), None);
    assert_eq!(node.pending_for("n2"), vec![1]);
    let stranger = Envelope::received("n9", "n1", None, None, Message::SyncOk { messages: vec![1] });
    assert_eq!(node.handle(&stranger, &mut ids).unwrap(), None);
    assert_eq!(node.pending_for("n2"), vec![1]);
    assert_eq!(read(&mut node, &mut ids), vec![1]);
}

#[test]
fn answers_are_refused() {
    let mut ids = MessageIds::new();
    let mut node = started("n1", &["n1"], &[], &mut ids);
    for (message, kind) in [
        (Message::InitOk, "init_ok"),
        (Message::TopologyOk, "topology_ok"),
        (Message::BroadcastOk, "broadcast_ok"),
        (Message::ReadOk { messages: vec![1] }, "read_ok"),
    ] {
        let outcome = node.handle(&from_client("n1", 5, message), &mut ids);
        assert_eq!(outcome, Err(Error::UnexpectedMessage(kind.to_string())));
    }
    assert_eq!(
        Error::UnexpectedMessage("read_ok".to_string()).describe(),
        "unexpected message: read_ok"
    );
    // The node is still alive.
    assert_eq!(read(&mut node, &mut ids), Vec::<usize>::new());
}

#[test]
fn broadcast_before_topology_is_recorded_but_not_queued() {
    let mut ids = MessageIds::new();
    let mut node = Node::new();
    let reply = node.handle(&from_client("n1", 1, Message::Broadcast { message: 8 }), &mut ids);
    assert_eq!(reply.unwrap().unwrap().message(), &Message::BroadcastOk);
    assert_eq!(read(&mut node, &mut ids), vec![8]);
    assert!(node.flush(&mut ids).is_empty());
}

#[test]
fn scheduler_flushes_on_the_deadline_and_keeps_its_pace() {
    let mut ids = MessageIds::new();
    let mut node = started("n1", &["n1", "n2"], &["n2"], &mut ids);
    let mut scheduler = GossipScheduler::new(1000, SYNC_INTERVAL);
    assert_eq!(scheduler.deadline(), 1250);
    assert_eq!(scheduler.wait_budget(1100), 150);
    assert_eq!(scheduler.wait_budget(1300), 0);
    assert!(!scheduler.is_due(1249));
    assert!(scheduler.is_due(1250));

    let inbound = Event::Inbound(from_client("n1", 3, Message::Broadcast { message: 6 }));
    let turn = scheduler.turn(&mut node, &inbound, 1100, &mut ids);
    assert!(turn.refused.is_none());
    assert_eq!(turn.outbound.len(), 1);
    assert_eq!(turn.outbound[0].message(), &Message::BroadcastOk);
    assert_eq!(scheduler.deadline(), 1250);

    // The timer is noticed late; the next deadline still counts from the old one.
    let turn = scheduler.turn(&mut node, &Event::Timeout, 1290, &mut ids);
    assert_eq!(turn.outbound.len(), 1);
    assert_eq!(turn.outbound[0].dest, "n2");
    assert_eq!(turn.outbound[0].message(), &Message::Sync { messages: vec![6] });
    assert_eq!(scheduler.deadline(), 1500);

    // Nothing was acknowledged, so the next flush sends the value again.
    let turn = scheduler.turn(&mut node, &Event::Timeout, 1500, &mut ids);
    assert_eq!(turn.outbound.len(), 1);
    assert_eq!(turn.outbound[0].message(), &Message::Sync { messages: vec![6] });
    assert_eq!(scheduler.deadline(), 1750);

    let refused = Event::Inbound(from_client("n1", 4, Message::ReadOk { messages: vec![] }));
    let turn = scheduler.turn(&mut node, &refused, 1600, &mut ids);
    assert_eq!(turn.refused, Some(Error::UnexpectedMessage("read_ok".to_string())));
    assert!(turn.outbound.is_empty());
}

#[test]
fn scheduler_deadline_saturates() {
    let mut scheduler = GossipScheduler::new(u64::MAX - 10, 250);
    assert_eq!(scheduler.deadline(), u64::MAX);
    scheduler.advance();
    assert_eq!(scheduler.deadline(), u64::MAX);
}

/// One flush of every node, with every `Sync` and every `SyncOk` delivered.
fn round(cluster: &mut Vec<(Node, MessageIds)>) {
    for sender in 0..cluster.len() {
        let sent = {
            let (node, ids) = &mut cluster[sender];
            node.flush(ids)
        };
        for sync in sent {
            let receiver = cluster.iter().position(|(node, _)| node.id() == sync.dest).unwrap();
            let ack = {
                let (node, ids) = &mut cluster[receiver];
                node.handle(&sync, ids).unwrap().unwrap()
            };
            assert_eq!(ack.dest, sync.src);
            let (node, ids) = &mut cluster[sender];
            assert_eq!(node.handle(&ack, ids).unwrap(), None);
        }
    }
}

#[test]
fn a_line_of_three_converges_in_two_rounds() {
    let members = ["n1", "n2", "n3"];
    let mut cluster = Vec::new();
    for (id, neighbors) in [("n1", vec!["n2"]), ("n2", vec!["n1", "n3"]), ("n3", vec!["n2"])] {
        let mut ids = MessageIds::new();
        let node = started(id, &members, &neighbors, &mut ids);
        cluster.push((node, ids));
    }
    for (at, value) in [(0, 1), (2, 3), (1, 2), (0, 3)] {
        let (node, ids) = &mut cluster[at];
        let dest = node.id();
        let request = from_client(&dest, 7, Message::Broadcast { message: value });
        node.handle(&request, ids).unwrap();
    }
    round(&mut cluster);
    // The ends are two edges apart: one round does not carry a value across.
    let (n3, ids3) = &mut cluster[2];
    assert_eq!(read(n3, ids3), vec![1, 2, 3]);
    round(&mut cluster);
    for (node, ids) in cluster.iter_mut() {
        assert_eq!(read(node, ids), vec![1, 2, 3]);
    }
    // Everything was acknowledged: there is nothing left to send.
    round(&mut cluster);
    for (node, ids) in cluster.iter_mut() {
        assert!(node.flush(ids).is_empty());
    }
}

#[test]
fn a_value_that_takes_two_hops_needs_two_rounds() {
    let members = ["n1", "n2", "n3"];
    let mut cluster = Vec::new();
    for (id, neighbors) in [("n3", vec!["n2"]), ("n2", vec!["n1", "n3"]), ("n1", vec!["n2"])] {
        let mut ids = MessageIds::new();
        let node = started(id, &members, &neighbors, &mut ids);
        cluster.push((node, ids));
    }
    // The value starts at n1, which flushes last in a round.
    let (n1, ids1) = &mut cluster[2];
    n1.handle(&from_client("n1", 7, Message::Broadcast { message: 9 }), ids1).unwrap();
    round(&mut cluster);
    let (n3, ids3) = &mut cluster[0];
    assert_eq!(read(n3, ids3), Vec::<usize>::new());
    let (n2, ids2) = &mut cluster[1];
    assert_eq!(read(n2, ids2), vec![9]);
    round(&mut cluster);
    let (n3, ids3) = &mut cluster[0];
    assert_eq!(read(n3, ids3), vec![9]);
}

#[test]
fn a_lost_sync_is_sent_again_and_a_lost_answer_does_no_harm() {
    let mut ids1 = MessageIds::new();
    let mut ids2 = MessageIds::new();
    let mut n1 = started("n1", &["n1", "n2"], &["n2"], &mut ids1);
    let mut n2 = started("n2", &["n1", "n2"], &["n1"], &mut ids2);
    n1.handle(&from_client("n1", 3, Message::Broadcast { message: 7 }), &mut ids1).unwrap();
    // The first flush is lost on the way.
    let lost = n1.flush(&mut ids1);
    assert_eq!(lost.len(), 1);
    // The second arrives, but its answer is lost.
    let sent = n1.flush(&mut ids1);
    assert_eq!(sent[0].message(), lost[0].message());
    n2.handle(&sent[0], &mut ids2).unwrap();
    // A value broadcast in between joins the buffer.
    n1.handle(&from_client("n1", 4, Message::Broadcast { message: 8 }), &mut ids1).unwrap();
    let again = n1.flush(&mut ids1);
    assert_eq!(again[0].message(), &Message::Sync { messages: vec![7, 8] });
    // The late answer to the second flush retires only what it names.
    let late = Envelope::received("n2", "n1", None, None, Message::SyncOk { messages: vec![7] });
    n1.handle(&late, &mut ids1).unwrap();
    assert_eq!(n1.pending_for("n2"), vec![8]);
    let ack = n2.handle(&again[0], &mut ids2).unwrap().unwrap();
    assert_eq!(ack.message(), &Message::SyncOk { messages: vec![7, 8] });
    n1.handle(&ack, &mut ids1).unwrap();
    assert_eq!(n1.pending_for("n2"), Vec::<usize>::new());
    assert_eq!(read(&mut n2, &mut ids2), vec![7, 8]);
}

#[test]
fn a_new_value_from_a_peer_goes_to_every_neighbour_but_that_peer() {
    let mut ids = MessageIds::new();
    let mut node = started("n1", &["n1", "n2", "n3", "n4"], &["n2", "n3", "n4"], &mut ids);
    node.handle(&from_client("n1", 3, Message::Broadcast { message: 1 }), &mut ids).unwrap();
    let sync = Envelope::received("n3", "n1", None, None, Message::Sync { messages: vec![1, 2] });
    node.handle(&sync, &mut ids).unwrap();
    assert_eq!(node.pending_for("n2"), vec![1, 2]);
    assert_eq!(node.pending_for("n3"), vec![1]);
    assert_eq!(node.pending_for("n4"), vec![1, 2]);
    let mut sent = node.flush(&mut ids);
    sent.sort_by(|a, b| a.dest.cmp(&b.dest));
    let batches: Vec<(String, Message)> =
        sent.into_iter().map(|e| (e.dest.clone(), e.message().clone())).collect();
    assert_eq!(
        batches,
        vec![
            ("n2".to_string(), Message::Sync { messages: vec![1, 2] }),
            ("n3".to_string(), Message::Sync { messages: vec![1] }),
            ("n4".to_string(), Message::Sync { messages: vec![1, 2] }),
        ]
    );
}

#[test]
fn a_second_init_does_not_change_the_identity() {
    let mut ids = MessageIds::new();
    let mut node = started("n1", &["n1", "n2"], &["n2"], &mut ids);
    let again = Message::Init { node_id: "n7".to_string(), node_ids: names(&["n7"]) };
    let reply = node.handle(&from_client("n1", 5, again), &mut ids).unwrap().unwrap();
    assert_eq!(reply.message(), &Message::InitOk);
    assert_eq!(node.id(), "n1");
    assert_eq!(node.neighbors(), names(&["n2"]));
}
