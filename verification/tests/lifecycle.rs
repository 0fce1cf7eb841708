use indy_vdr::engine::{resolve_target, PoolRequest};
use indy_vdr::hash::{hash_leaf, hash_nodes, ProofStep};
use indy_vdr::requests::{
    HandleAllocator, Message, MerkleProof, RequestEvent, RequestHandle, RequestResult,
    RequestState, RequestTarget, RequestTiming, VdrError,
};

fn aliases(names: &[&str]) -> Vec<String> {
    names.iter().map(|n| n.to_string()).collect()
}

fn msg(content: &[u8]) -> Message {
    Message { content: content.to_vec(), proof: None }
}

fn recv(node: &str, content: &[u8]) -> RequestEvent {
    RequestEvent::Received(node.to_string(), String::new(), msg(content))
}

fn timeout(node: &str) -> RequestEvent {
    RequestEvent::Timeout(node.to_string())
}

fn four_node_request(threshold: usize) -> PoolRequest {
    PoolRequest::create(
        RequestHandle(1),
        aliases(&["n1", "n2", "n3", "n4"]),
        threshold,
        1_000_000,
        None,
    )
}

#[test]
fn handle_allocator_is_monotonic_and_nonzero() {
    let mut alloc = HandleAllocator::new();
    let h1 = alloc.next();
    let h2 = alloc.next();
    let h3 = alloc.next();
    assert_eq!(h1, RequestHandle(1));
    assert_eq!(h2, RequestHandle(2));
    assert_eq!(h3, RequestHandle(3));
    assert!(h1 < h2 && h2 < h3);
    assert_ne!(h1, RequestHandle::invalid());
    assert_eq!(RequestHandle::invalid(), RequestHandle(0));
}

#[test]
fn state_names() {
    assert_eq!(RequestState::NotStarted.as_str(), "NotStarted");
    assert_eq!(RequestState::Active.as_str(), "Active");
    assert_eq!(RequestState::Terminated.as_str(), "Terminated");
}

#[test]
fn lifecycle_is_monotonic() {
    let mut req = four_node_request(3);
    assert_eq!(req.state(), RequestState::NotStarted);
    assert!(req.result().is_none());
    let targets = req.send(1_000).unwrap();
    assert_eq!(targets, aliases(&["n1", "n2", "n3", "n4"]));
    assert_eq!(req.state(), RequestState::Active);
    assert!(req.send(1_001).is_err());
    assert_eq!(req.state(), RequestState::Active);
}

#[test]
fn events_before_send_are_dropped() {
    let mut req = four_node_request(3);
    req.on_event(recv("n1", b"C"), 1_000);
    assert_eq!(req.state(), RequestState::NotStarted);
    assert!(req.result().is_none());
}

#[test]
fn quorum_success_three_of_four() {
    let mut req = four_node_request(3);
    req.send(1_000).unwrap();
    req.on_event(recv("n1", b"C"), 1_100);
    req.on_event(recv("n2", b"C"), 1_200);
    req.on_event(timeout("n4"), 1_300);
    assert_eq!(req.state(), RequestState::Active);
    assert!(req.result().is_none());
    req.on_event(recv("n3", b"C"), 1_400);
    assert_eq!(req.state(), RequestState::Terminated);
    match req.result() {
        Some(RequestResult::Reply(content)) => assert_eq!(content, b"C".to_vec()),
        _ => panic!("expected a reply"),
    }
}

#[test]
fn quorum_failure_split_vote() {
    let mut req = four_node_request(3);
    req.send(1_000).unwrap();
    req.on_event(recv("n1", b"C1"), 1_100);
    req.on_event(recv("n2", b"C1"), 1_200);
    req.on_event(recv("n3", b"C2"), 1_300);
    assert_eq!(req.state(), RequestState::Active);
    req.on_event(recv("n4", b"C2"), 1_400);
    assert_eq!(req.state(), RequestState::Terminated);
    match req.result() {
        Some(RequestResult::Failed(e)) => assert_eq!(e, VdrError::Consensus),
        _ => panic!("expected a consensus failure"),
    }
}

#[test]
fn duplicate_replies_not_double_counted() {
    let mut req = four_node_request(3);
    req.send(1_000).unwrap();
    req.on_event(recv("n1", b"C"), 1_100);
    req.on_event(recv("n1", b"C"), 1_200);
    req.on_event(recv("n1", b"C"), 1_300);
    req.on_event(recv("n2", b"C"), 1_400);
    assert_eq!(req.state(), RequestState::Active);
    assert!(req.result().is_none());
    req.on_event(recv("n3", b"C"), 1_500);
    assert_eq!(req.state(), RequestState::Terminated);
    match req.result() {
        Some(RequestResult::Reply(content)) => assert_eq!(content, b"C".to_vec()),
        _ => panic!("expected a reply"),
    }
}

#[test]
fn untargeted_node_is_ignored() {
    let mut req = four_node_request(3);
    req.send(1_000).unwrap();
    req.on_event(recv("nx", b"C"), 1_100);
    assert_eq!(req.state(), RequestState::Active);
    assert!(req.result().is_none());
}

#[test]
fn deadline_forces_consensus_failure() {
    let mut req = PoolRequest::create(RequestHandle(2), aliases(&["n1", "n2"]), 2, 5_000, None);
    req.send(1_000).unwrap();
    req.on_event(recv("n1", b"C"), 5_000);
    assert_eq!(req.state(), RequestState::Terminated);
    match req.result() {
        Some(RequestResult::Failed(e)) => assert_eq!(e, VdrError::Consensus),
        _ => panic!("expected a consensus failure"),
    }
}

#[test]
fn quorum_wins_at_the_deadline() {
    let mut req = PoolRequest::create(RequestHandle(7), aliases(&["n1", "n2"]), 1, 5_000, None);
    req.send(1_000).unwrap();
    req.on_event(recv("n1", b"C"), 5_000);
    assert_eq!(req.state(), RequestState::Terminated);
    match req.result() {
        Some(RequestResult::Reply(content)) => assert_eq!(content, b"C".to_vec()),
        _ => panic!("a reply reaching quorum takes precedence over the deadline"),
    }
}

#[test]
fn send_failure_is_not_fatal() {
    let mut req = PoolRequest::create(RequestHandle(3), aliases(&["n1", "n2"]), 1, 1_000_000, None);
    req.send(1_000).unwrap();
    req.send_failed("n1");
    assert_eq!(req.state(), RequestState::Active);
    req.on_event(recv("n2", b"C"), 2_000);
    match req.result() {
        Some(RequestResult::Reply(content)) => assert_eq!(content, b"C".to_vec()),
        _ => panic!("expected a reply"),
    }
}

#[test]
fn all_sends_failing_exhausts_the_request() {
    let mut req = PoolRequest::create(RequestHandle(4), aliases(&["n1", "n2"]), 1, 1_000_000, None);
    req.send(1_000).unwrap();
    req.send_failed("n1");
    assert_eq!(req.state(), RequestState::Active);
    req.send_failed("n2");
    assert_eq!(req.state(), RequestState::Terminated);
    match req.result() {
        Some(RequestResult::Failed(e)) => assert_eq!(e, VdrError::Consensus),
        _ => panic!("expected a consensus failure"),
    }
}

#[test]
fn cancellation_mid_flight() {
    let mut req = four_node_request(3);
    req.send(1_000).unwrap();
    req.on_event(recv("n1", b"C"), 1_100);
    req.on_event(recv("n2", b"C"), 1_200);
    assert_eq!(req.state(), RequestState::Active);
    assert_eq!(req.cancel(), Ok(()));
    assert_eq!(req.state(), RequestState::Terminated);
    match req.result() {
        Some(RequestResult::Failed(e)) => assert_eq!(e, VdrError::Cancelled),
        _ => panic!("expected a cancelled result"),
    }
    req.on_event(recv("n3", b"C"), 1_300);
    assert_eq!(req.state(), RequestState::Terminated);
    match req.result() {
        Some(RequestResult::Failed(e)) => assert_eq!(e, VdrError::Cancelled),
        _ => panic!("result must not change after termination"),
    }
    assert_eq!(req.cancel(), Err(VdrError::InvalidState));
}

#[test]
fn unverifiable_reply_is_not_counted() {
    let a = b"ledger state".to_vec();
    let b = b"sibling".to_vec();
    let la = hash_leaf(&a);
    let lb = hash_leaf(&b);
    let root = hash_nodes(&la, &lb);
    let mut req = PoolRequest::create(
        RequestHandle(5),
        aliases(&["n1", "n2"]),
        1,
        1_000_000,
        Some(root),
    );
    req.send(1_000).unwrap();
    let mut bad_sibling = lb.clone();
    bad_sibling[7] ^= 0x20;
    let bad = Message {
        content: a.clone(),
        proof: Some(MerkleProof {
            path: vec![ProofStep { sibling: bad_sibling, sibling_on_left: false }],
        }),
    };
    req.on_event(RequestEvent::Received("n1".to_string(), String::new(), bad), 1_100);
    assert_eq!(req.state(), RequestState::Active);
    assert!(req.result().is_none());
    let good = Message {
        content: a.clone(),
        proof: Some(MerkleProof {
            path: vec![ProofStep { sibling: lb.clone(), sibling_on_left: false }],
        }),
    };
    req.on_event(RequestEvent::Received("n1".to_string(), String::new(), good), 1_200);
    assert_eq!(req.state(), RequestState::Terminated);
    match req.result() {
        Some(RequestResult::Reply(content)) => assert_eq!(content, a),
        _ => panic!("expected a reply"),
    }
}

#[test]
fn timing_round_trip() {
    let mut req = PoolRequest::create(RequestHandle(6), aliases(&["Node1", "Node2"]), 2, 1_000_000, None);
    req.send(1_000).unwrap();
    req.on_event(recv("Node1", b"C"), 1_500);
    let timing = req.get_timing().unwrap();
    assert_eq!(timing.len(), 2);
    assert_eq!(timing[0], ("Node1".to_string(), 500));
    assert_eq!(timing[1], ("Node2".to_string(), -1));
}

#[test]
fn timing_receive_without_send_is_noop() {
    let mut t = RequestTiming::new();
    t.received("Node1", 2_000);
    assert_eq!(t.result().unwrap().len(), 0);
    t.sent("Node1", 1_000);
    t.received("Node1", 1_500);
    t.received("Node9", 9_999);
    let snapshot = t.result().unwrap();
    assert_eq!(snapshot, vec![("Node1".to_string(), 500)]);
}

#[test]
fn timing_clamps_backwards_clock() {
    let mut t = RequestTiming::new();
    t.sent("Node1", 5_000);
    t.received("Node1", 4_000);
    assert_eq!(t.result().unwrap(), vec![("Node1".to_string(), 0)]);
}

#[test]
fn timing_sent_overwrites() {
    let mut t = RequestTiming::new();
    t.sent("Node1", 1_000);
    t.received("Node1", 1_400);
    t.sent("Node1", 2_000);
    assert_eq!(t.result().unwrap(), vec![("Node1".to_string(), -1)]);
}

#[test]
fn map_result_maps_reply_and_keeps_failure() {
    let reply: RequestResult<Vec<u8>> = RequestResult::Reply(b"x".to_vec());
    match reply.map_result(|v| Ok::<usize, VdrError>(v.len())).unwrap() {
        RequestResult::Reply(n) => assert_eq!(n, 1),
        _ => panic!("expected a reply"),
    }
    let failed: RequestResult<Vec<u8>> = RequestResult::Failed(VdrError::Consensus);
    match failed.map_result(|v| Ok::<usize, VdrError>(v.len())).unwrap() {
        RequestResult::Failed(e) => assert_eq!(e, VdrError::Consensus),
        _ => panic!("expected the failure kept"),
    }
    let erring: RequestResult<Vec<u8>> = RequestResult::Reply(b"x".to_vec());
    match erring.map_result(|_v| Err::<usize, VdrError>(VdrError::Validation)) {
        Err(e) => assert_eq!(e, VdrError::Validation),
        Ok(_) => panic!("expected the closure's error"),
    }
}

#[test]
fn resolve_target_defaults_and_overrides() {
    let pool = aliases(&["n1", "n2"]);
    let (nodes, t) = resolve_target(RequestTarget::Default, &pool, 7_000);
    assert_eq!(nodes, pool);
    assert_eq!(t, 7_000);
    let (nodes, t) = resolve_target(
        RequestTarget::Full(Some(aliases(&["n9"])), Some(10)),
        &pool,
        7_000,
    );
    assert_eq!(nodes, aliases(&["n9"]));
    assert_eq!(t, 10);
    let (nodes, t) = resolve_target(RequestTarget::Full(None, None), &pool, 7_000);
    assert_eq!(nodes, pool);
    assert_eq!(t, 7_000);
}
