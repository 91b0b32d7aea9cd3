use maelstrom_gossip::common::Envelope;
use maelstrom_gossip::flood::{
    process_internal_message_request, Broadcast, InternalRequest, InternalResponse, Request,
    Response,
};

fn names(list: &[&str]) -> Vec<String> {
    list.iter().map(|s| s.to_string()).collect()
}

fn add(value: usize, remaining: &[&str]) -> Request {
    Request::Internal {
        request: InternalRequest::Add { value, remaining_nodes: names(remaining) },
    }
}

fn add_ok(forwarded_to: &[&str]) -> Response {
    Response::Internal {
        response: InternalResponse::AddOk { forwarded_to: names(forwarded_to) },
    }
}

fn started(id: &str, members: &[&str], neighbors: &[&str]) -> Broadcast {
    let mut node = Broadcast::new();
    assert!(!node.is_initialized());
    let init = Request::Init { msg_id: 1, node_id: id.to_string(), node_ids: names(members) };
    let reaction = node.handle_message(&Envelope::new("c1", id, init));
    assert_eq!(reaction.reply, Some(Envelope::new(id, "c1", Response::InitOk { in_reply_to: 1 })));
    assert!(reaction.forwarded.is_empty());
    assert!(node.is_initialized());
    let topology =
        Request::Topology { msg_id: 2, topology: vec![(id.to_string(), names(neighbors))] };
    let reaction = node.handle_message(&Envelope::new("c1", id, topology));
    assert_eq!(
        reaction.reply,
        Some(Envelope::new(id, "c1", Response::Topology { in_reply_to: 2 }))
    );
    assert!(reaction.forwarded.is_empty());
    node
}

#[test]
fn propagate_sends_one_request_to_each_target() {
    let node = started("n1", &["n1", "n2", "n3", "n4"], &["n2", "n3"]);
    let sent = node.propagate(9, names(&["n2", "n3"]), names(&["n4"]));
    assert_eq!(
        sent,
        vec![
            Envelope::new("n1", "n2", add(9, &["n4"])),
            Envelope::new("n1", "n3", add(9, &["n4"])),
        ]
    );
    assert_eq!(node.propagate(9, vec![], names(&["n4"])), vec![]);
    // Nothing of the node has changed.
    assert!(node.values().is_empty());
    assert_eq!(node.neighbors(), names(&["n2", "n3"]));
}

#[test]
fn a_client_broadcast_floods_the_neighbours_with_the_rest_to_reach() {
    let mut node = started("n1", &["n1", "n2", "n3", "n4", "n5"], &["n2", "n3", "n2"]);
    assert_eq!(node.neighbors(), names(&["n2", "n3"]));
    let request = Envelope::new("c1", "n1", Request::Broadcast { msg_id: 3, message: 77 });
    let reaction = node.handle_message(&request);
    assert_eq!(
        reaction.reply,
        Some(Envelope::new("n1", "c1", Response::BroadcastOk { in_reply_to: 3 }))
    );
    assert_eq!(
        reaction.forwarded,
        vec![
            Envelope::new("n1", "n2", add(77, &["n1", "n4", "n5"])),
            Envelope::new("n1", "n3", add(77, &["n1", "n4", "n5"])),
        ]
    );
    let read = node.handle_message(&Envelope::new("c1", "n1", Request::Read { msg_id: 4 }));
    assert_eq!(
        read.reply,
        Some(Envelope::new("n1", "c1", Response::Read { in_reply_to: 4, messages: vec![77] }))
    );
    assert!(read.forwarded.is_empty());
}

#[test]
fn a_repeated_broadcast_is_confirmed_and_floods_nobody() {
    let mut node = started("n1", &["n1", "n2", "n3"], &["n2", "n3"]);
    let request = Envelope::new("c1", "n1", Request::Broadcast { msg_id: 3, message: 77 });
    assert_eq!(node.handle_message(&request).forwarded.len(), 2);
    let again = Envelope::new("c2", "n1", Request::Broadcast { msg_id: 8, message: 77 });
    let reaction = node.handle_message(&again);
    assert_eq!(
        reaction.reply,
        Some(Envelope::new("n1", "c2", Response::BroadcastOk { in_reply_to: 8 }))
    );
    assert!(reaction.forwarded.is_empty());
    assert_eq!(node.values(), vec![77]);
}

#[test]
fn an_internal_request_serves_the_neighbours_on_its_list() {
    let mut node = started("n2", &["n1", "n2", "n3", "n4", "n5"], &["n1", "n4", "n3"]);
    let request = InternalRequest::Add { value: 5, remaining_nodes: names(&["n3", "n5", "n4", "n5"]) };
    let outcome = process_internal_message_request(&mut node, &request);
    assert_eq!(outcome.response, Some(add_ok(&["n4", "n3"])));
    assert_eq!(
        outcome.forwarded,
        vec![Envelope::new("n2", "n4", add(5, &["n5"])), Envelope::new("n2", "n3", add(5, &["n5"]))]
    );
    assert_eq!(node.values(), vec![5]);

    // Through the envelope the answer goes back to the asking node.
    let envelope = Envelope::new("n1", "n2", add(6, &["n9"]));
    let reaction = node.handle_message(&envelope);
    assert_eq!(reaction.reply, Some(Envelope::new("n2", "n1", add_ok(&[]))));
    assert!(reaction.forwarded.is_empty());
    let mut values = node.values();
    values.sort();
    assert_eq!(values, vec![5, 6]);
}

#[test]
fn an_internal_request_with_a_known_value_is_passed_on_to_nobody() {
    let mut node = started("n2", &["n1", "n2", "n3", "n4"], &["n1", "n3", "n4"]);
    let request = InternalRequest::Add { value: 5, remaining_nodes: names(&["n3", "n4"]) };
    let first = process_internal_message_request(&mut node, &request);
    assert_eq!(first.response, Some(add_ok(&["n3", "n4"])));
    assert_eq!(first.forwarded.len(), 2);
    let second = process_internal_message_request(&mut node, &request);
    assert_eq!(second.response, Some(add_ok(&[])));
    assert!(second.forwarded.is_empty());
    assert_eq!(node.values(), vec![5]);
}

#[test]
fn a_topology_without_a_declaration_gives_the_stride_partition() {
    let members = ["n0", "n1", "n2", "n3", "n4", "n5", "n6", "n7"];
    let mut node = Broadcast::new();
    let init = Request::Init { msg_id: 1, node_id: "n0".to_string(), node_ids: names(&members) };
    node.handle_message(&Envelope::new("c1", "n0", init));
    let topology = Request::Topology {
        msg_id: 2,
        topology: vec![("n3".to_string(), names(&["n0"]))],
    };
    let reaction = node.handle_message(&Envelope::new("c1", "n0", topology));
    assert_eq!(
        reaction.reply,
        Some(Envelope::new("n0", "c1", Response::Topology { in_reply_to: 2 }))
    );
    assert_eq!(node.neighbors(), names(&["n1", "n5"]));
}

#[test]
fn a_node_that_was_told_nothing_records_and_answers() {
    let mut fresh = Broadcast::new();
    let broadcast = Envelope::new("c1", "n1", Request::Broadcast { msg_id: 3, message: 1 });
    let reaction = fresh.handle_message(&broadcast);
    assert_eq!(
        reaction.reply,
        Some(Envelope::new("n1", "c1", Response::BroadcastOk { in_reply_to: 3 }))
    );
    assert!(reaction.forwarded.is_empty());

    let topology = Request::Topology { msg_id: 2, topology: vec![("n1".to_string(), names(&["n2"]))] };
    let reaction = fresh.handle_message(&Envelope::new("c1", "n1", topology));
    assert_eq!(
        reaction.reply,
        Some(Envelope::new("n1", "c1", Response::Topology { in_reply_to: 2 }))
    );
    // Without an identity the declaration cannot be looked up.
    assert!(fresh.neighbors().is_empty());

    let reaction = fresh.handle_message(&Envelope::new("n2", "n1", add(2, &["n3"])));
    assert_eq!(reaction.reply, Some(Envelope::new("n1", "n2", add_ok(&[]))));
    assert!(reaction.forwarded.is_empty());
    let mut values = fresh.values();
    values.sort();
    assert_eq!(values, vec![1, 2]);

    // Known who it is but without a topology, it still floods nobody.
    let init = Request::Init { msg_id: 1, node_id: "n1".to_string(), node_ids: names(&["n1", "n2"]) };
    fresh.handle_message(&Envelope::new("c1", "n1", init));
    let next = Envelope::new("c1", "n1", Request::Broadcast { msg_id: 4, message: 3 });
    let reaction = fresh.handle_message(&next);
    assert_eq!(
        reaction.reply,
        Some(Envelope::new("n1", "c1", Response::BroadcastOk { in_reply_to: 4 }))
    );
    assert!(reaction.forwarded.is_empty());
}
