use maelstrom_gossip::common;
use maelstrom_gossip::envelope::{Envelope, MessageIds};
use maelstrom_gossip::message_set::MessageSet;
use maelstrom_gossip::names::{clone_names, dedup, has_name, position_of, select};
use maelstrom_gossip::outbox::{slice_contains, NeighborOutbox, RemoteNodeHandler};
use maelstrom_gossip::protocol::Message;
use maelstrom_gossip::topology::{declared_neighbors, resolve_neighbors, stride_neighbors, STRIDE};

fn names(list: &[&str]) -> Vec<String> {
    list.iter().map(|s| s.to_string()).collect()
}

#[test]
fn message_set_observe_reports_novelty() {
    let mut set = MessageSet::new();
    assert!(set.read().is_empty());
    assert!(set.observe(4));
    assert!(!set.observe(4));
    assert!(set.observe(2));
    assert!(set.contains(4));
    assert!(!set.contains(5));
    let mut values = set.read();
    values.sort();
    assert_eq!(values, vec![2, 4]);
}

#[test]
fn handler_queues_each_value_once_and_keeps_order() {
    let mut handler = RemoteNodeHandler::new();
    assert!(handler.is_empty());
    handler.send_message(3);
    handler.send_message(1);
    handler.send_message(3);
    handler.send_message(2);
    assert_eq!(handler.pending(), vec![3, 1, 2]);
    assert!(handler.is_pending(1));
    assert!(!handler.is_pending(9));
    assert!(!handler.is_empty());
}

#[test]
fn handler_acknowledge_removes_exactly_the_named_values() {
    let mut handler = RemoteNodeHandler::new();
    for v in [5, 6, 7, 8] {
        handler.send_message(v);
    }
    handler.acknowledge_synced(&[6, 8, 100]);
    assert_eq!(handler.pending(), vec![5, 7]);
    handler.acknowledge_synced(&[]);
    assert_eq!(handler.pending(), vec![5, 7]);
    // A value queued between a flush and its acknowledgment survives it.
    handler.send_message(9);
    handler.acknowledge_synced(&[5, 7]);
    assert_eq!(handler.pending(), vec![9]);
}

#[test]
fn enqueue_then_acknowledge_leaves_the_outbox_without_the_value() {
    let mut outbox = NeighborOutbox::new();
    outbox.enqueue("n2", 11);
    assert_eq!(outbox.drain_all("n2"), vec![11]);
    // Draining does not clear.
    assert_eq!(outbox.drain_all("n2"), vec![11]);
    outbox.acknowledge("n2", &[11]);
    assert_eq!(outbox.drain_all("n2"), Vec::<usize>::new());
}

#[test]
fn outbox_acknowledging_what_was_never_queued_is_a_no_op() {
    let mut outbox = NeighborOutbox::new();
    outbox.enqueue("n2", 1);
    outbox.acknowledge("n2", &[2]);
    outbox.acknowledge("n3", &[1]);
    assert_eq!(outbox.drain_all("n2"), vec![1]);
    assert_eq!(outbox.drain_all("n3"), Vec::<usize>::new());
}

#[test]
fn outbox_fans_out_to_all_but_one() {
    let mut outbox = NeighborOutbox::new();
    let neighbors = names(&["n2", "n3", "n4"]);
    let skip = "n3".to_string();
    outbox.enqueue_all(&neighbors, Some(&skip), 7);
    outbox.enqueue_all(&neighbors, None, 8);
    assert_eq!(outbox.drain_all("n2"), vec![7, 8]);
    assert_eq!(outbox.drain_all("n3"), vec![8]);
    assert_eq!(outbox.drain_all("n4"), vec![7, 8]);
}

#[test]
fn outbox_batches_skip_empty_buffers() {
    let mut outbox = NeighborOutbox::new();
    assert!(outbox.batches().is_empty());
    outbox.enqueue("n2", 1);
    outbox.enqueue("n3", 2);
    outbox.enqueue("n3", 3);
    outbox.acknowledge("n2", &[1]);
    let batches = outbox.batches();
    assert_eq!(batches, vec![("n3".to_string(), vec![2, 3])]);
    // The buffers are as they were.
    assert_eq!(outbox.batches(), batches);
}

#[test]
fn slice_contains_finds_members_only() {
    assert!(slice_contains(&[1, 2, 3], 2));
    assert!(!slice_contains(&[1, 2, 3], 4));
    assert!(!slice_contains(&[], 0));
}

#[test]
fn stride_partition_selects_every_fourth_node_from_the_offset() {
    let members = names(&["n0", "n1", "n2", "n3", "n4", "n5", "n6", "n7"]);
    assert_eq!(STRIDE, 4);
    assert_eq!(stride_neighbors(&members, 0, STRIDE), names(&["n1", "n5"]));
    assert_eq!(stride_neighbors(&members, 1, STRIDE), names(&["n2", "n6"]));
    assert_eq!(stride_neighbors(&members, 3, STRIDE), names(&["n0", "n4"]));
    assert_eq!(stride_neighbors(&members, 7, STRIDE), names(&["n0", "n4"]));
    assert_eq!(stride_neighbors(&members, 6, STRIDE), names(&["n3", "n7"]));
}

#[test]
fn stride_partition_never_selects_the_node_itself() {
    let members = names(&["a", "b", "c"]);
    // With a stride of one every position is selected, but not one's own.
    assert_eq!(stride_neighbors(&members, 1, 1), names(&["a", "c"]));
    assert_eq!(stride_neighbors(&members, 0, 2), names(&["b"]));
    assert_eq!(stride_neighbors(&members, 0, 5), names(&["b"]));
    assert_eq!(stride_neighbors(&names(&["a"]), 0, 4), Vec::<String>::new());
}

#[test]
fn declared_adjacency_takes_precedence_over_the_stride() {
    let members = names(&["n0", "n1", "n2", "n3", "n4", "n5"]);
    let topology =
        vec![("n1".to_string(), names(&["n0"])), ("n0".to_string(), names(&["n3", "n4"]))];
    assert_eq!(declared_neighbors(&topology, "n0"), Some(names(&["n3", "n4"])));
    assert_eq!(declared_neighbors(&topology, "n2"), None);
    assert_eq!(resolve_neighbors("n0", &members, &topology, STRIDE), names(&["n3", "n4"]));
    assert_eq!(resolve_neighbors("n2", &members, &topology, STRIDE), names(&["n3"]));
    // A node that is no member has nobody to talk to.
    assert_eq!(resolve_neighbors("zz", &members, &topology, STRIDE), Vec::<String>::new());
}

#[test]
fn name_lists_are_searched_from_the_front() {
    let list = names(&["a", "b", "a", "c"]);
    assert_eq!(position_of(&list, "a"), Some(0));
    assert_eq!(position_of(&list, "c"), Some(3));
    assert_eq!(position_of(&list, "d"), None);
    assert!(has_name(&list, "b"));
    assert!(!has_name(&list, ""));
    assert_eq!(clone_names(&list), list);
    assert_eq!(dedup(&list), names(&["a", "b", "c"]));
    let others = names(&["c", "a"]);
    assert_eq!(select(&list, &others, true), names(&["a", "a", "c"]));
    assert_eq!(select(&list, &others, false), names(&["b"]));
}

#[test]
fn message_ids_count_up_and_wrap() {
    let mut ids = MessageIds::new();
    assert_eq!(ids.next_id(), 0);
    assert_eq!(ids.next_id(), 1);
    assert_eq!(ids.next_id(), 2);
}

#[test]
fn envelope_new_takes_the_next_identifier() {
    let mut ids = MessageIds::new();
    ids.next_id();
    let envelope = Envelope::new("n1", "n2", Some(9), Message::Read, &mut ids);
    assert_eq!(envelope.src, "n1");
    assert_eq!(envelope.dest, "n2");
    assert_eq!(envelope.msg_id(), Some(1));
    assert_eq!(envelope.in_reply_to(), Some(9));
    assert_eq!(envelope.message(), &Message::Read);
    assert_eq!(envelope.body.msg_id(), Some(1));
    assert_eq!(envelope.body.in_reply_to(), Some(9));
    assert_eq!(envelope.body.message(), &Message::Read);
    assert_eq!(ids.next_id(), 2);
}

#[test]
fn envelope_reply_swaps_the_addresses_and_names_the_request() {
    let mut ids = MessageIds::new();
    let request = Envelope::received("c3", "n1", Some(40), None, Message::Read);
    let reply = request.reply(Message::ReadOk { messages: vec![] }, &mut ids);
    assert_eq!(reply.src, "n1");
    assert_eq!(reply.dest, "c3");
    assert_eq!(reply.msg_id(), Some(0));
    assert_eq!(reply.in_reply_to(), Some(40));
    let unnumbered = Envelope::received("n2", "n1", None, None, Message::Read);
    assert_eq!(unnumbered.reply(Message::InitOk, &mut ids).in_reply_to(), None);
}

#[test]
fn envelope_is_internal_goes_by_the_first_letter() {
    let from = |src: &str| Envelope::received(src, "n1", None, None, Message::Read);
    assert!(from("n2").is_internal());
    assert!(from("n").is_internal());
    assert!(!from("c2").is_internal());
    assert!(!from("seq-kv").is_internal());
    assert!(!from("").is_internal());
    assert!(!from("Ñ1").is_internal());
}

#[test]
fn message_kinds_have_their_wire_names() {
    assert_eq!(Message::Init { node_id: "n1".into(), node_ids: vec![] }.kind_name(), "init");
    assert_eq!(Message::InitOk.kind_name(), "init_ok");
    assert_eq!(Message::Topology { topology: vec![] }.kind_name(), "topology");
    assert_eq!(Message::TopologyOk.kind_name(), "topology_ok");
    assert_eq!(Message::Broadcast { message: 1 }.kind_name(), "broadcast");
    assert_eq!(Message::BroadcastOk.kind_name(), "broadcast_ok");
    assert_eq!(Message::Read.kind_name(), "read");
    assert_eq!(Message::ReadOk { messages: vec![] }.kind_name(), "read_ok");
    assert_eq!(Message::Sync { messages: vec![] }.kind_name(), "sync");
    assert_eq!(Message::SyncOk { messages: vec![] }.kind_name(), "sync_ok");
    assert!(Message::Sync { messages: vec![] }.is_request());
    assert!(Message::SyncOk { messages: vec![] }.is_request());
    assert!(!Message::ReadOk { messages: vec![] }.is_request());
}

#[test]
fn plain_envelope_reply_swaps_the_addresses() {
    let request = common::Envelope::new("c1", "n1", 5usize);
    assert_eq!(request.src, "c1");
    assert_eq!(request.dest, "n1");
    let reply = request.reply(6usize);
    assert_eq!(reply, common::Envelope::new("n1", "c1", 6usize));
    let runtime = common::Maelstrom::new(7usize);
    assert_eq!(runtime.actor, 7);
    assert_eq!(runtime.into_actor(), 7);
}
