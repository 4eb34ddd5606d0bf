use paranoid_pirate::broker::Broker;
use paranoid_pirate::broker::BrokerAction;
use paranoid_pirate::broker::PENDING_MAX;

fn ready_msg(wid: &[u8]) -> Vec<Vec<u8>> {
    vec![wid.to_vec(), vec![0x01]]
}

fn client_env(cid: &[u8], body: &[u8]) -> Vec<Vec<u8>> {
    vec![cid.to_vec(), vec![], body.to_vec()]
}

#[test]
fn request_routed_to_most_recently_ready_worker() {
    let mut b = Broker::new(0);
    assert!(b.handle_backend(ready_msg(b"w1"), 0).is_empty());
    assert!(b.handle_backend(ready_msg(b"w2"), 0).is_empty());
    let acts = b.handle_frontend(client_env(b"c1", b"hello"));
    assert_eq!(acts.len(), 1);
    match &acts[0] {
        BrokerAction::ToWorker(m) => assert_eq!(
            m,
            &vec![
                b"w2".to_vec(),
                vec![],
                b"c1".to_vec(),
                vec![],
                b"hello".to_vec()
            ]
        ),
        _ => panic!("expected a message to the back endpoint"),
    }
}

#[test]
fn reply_forwarded_verbatim_to_client() {
    let mut b = Broker::new(0);
    b.handle_backend(ready_msg(b"w1"), 0);
    // The worker's reply arrives with its routing identity prefixed.
    let reply = vec![b"w1".to_vec(), b"c1".to_vec(), vec![], b"hello".to_vec()];
    let acts = b.handle_backend(reply, 100);
    assert_eq!(acts.len(), 1);
    match &acts[0] {
        BrokerAction::ToClient(m) => {
            assert_eq!(m, &vec![b"c1".to_vec(), vec![], b"hello".to_vec()])
        }
        _ => panic!("expected a message to the front endpoint"),
    }
}

#[test]
fn round_trip_echo_returns_the_same_body() {
    // Client request with body B, routed to an echoing worker and back.
    let mut b = Broker::new(0);
    b.handle_backend(ready_msg(b"w1"), 0);
    let env = client_env(b"c1", b"payload B");

    let acts = b.handle_frontend(env.clone());
    let wire = match &acts[0] {
        BrokerAction::ToWorker(m) => m.clone(),
        _ => panic!("expected a message to the back endpoint"),
    };
    // The transport strips the routing identity on delivery to the worker.
    assert_eq!(wire[0], b"w1".to_vec());
    let delivered = paranoid_pirate::protocol::strip_first_frame(wire);

    // The worker echoes: its reply is the request minus the delimiter.
    let mut agent = paranoid_pirate::worker::WorkerAgent::new(0);
    let wacts = agent.on_message(delivered);
    let reply = match &wacts[0] {
        paranoid_pirate::worker::WorkerAction::SendReply(m) => m.clone(),
        _ => panic!("expected a reply"),
    };

    // The transport prefixes the worker's identity on receipt at the broker.
    let mut at_broker = reply;
    at_broker.insert(0, b"w1".to_vec());
    let facts = b.handle_backend(at_broker, 200);
    match &facts[0] {
        BrokerAction::ToClient(m) => assert_eq!(m, &env),
        _ => panic!("expected the reply to go to the client"),
    }
}

#[test]
fn request_with_no_worker_is_queued_then_dispatched_in_order() {
    let mut b = Broker::new(0);
    assert_eq!(b.pending_len(), 0);
    assert!(b.handle_frontend(client_env(b"c1", b"first")).is_empty());
    assert!(b.handle_frontend(client_env(b"c2", b"second")).is_empty());
    assert_eq!(b.pending_len(), 2);

    // No worker yet: nothing to dispatch.
    assert!(b.dispatch().is_empty());

    // One worker becomes available: only the oldest request is served.
    b.handle_backend(ready_msg(b"w1"), 100);
    let acts = b.dispatch();
    assert_eq!(acts.len(), 1);
    match &acts[0] {
        BrokerAction::ToWorker(m) => assert_eq!(
            m,
            &vec![
                b"w1".to_vec(),
                vec![],
                b"c1".to_vec(),
                vec![],
                b"first".to_vec()
            ]
        ),
        _ => panic!("expected a message to the back endpoint"),
    }
    assert_eq!(b.pending_len(), 1);

    // A second worker serves the remaining request.
    b.handle_backend(ready_msg(b"w2"), 100);
    let acts = b.dispatch();
    assert_eq!(acts.len(), 1);
    match &acts[0] {
        BrokerAction::ToWorker(m) => assert_eq!(
            m,
            &vec![
                b"w2".to_vec(),
                vec![],
                b"c2".to_vec(),
                vec![],
                b"second".to_vec()
            ]
        ),
        _ => panic!("expected a message to the back endpoint"),
    }
    assert_eq!(b.pending_len(), 0);
}

#[test]
fn queue_overflow_is_rejected_not_dropped() {
    let mut b = Broker::new(0);
    for i in 0..PENDING_MAX {
        let body = format!("req {}", i);
        assert!(b.handle_frontend(client_env(b"c", body.as_bytes())).is_empty());
    }
    assert_eq!(b.pending_len(), PENDING_MAX);
    let acts = b.handle_frontend(client_env(b"c", b"one too many"));
    assert_eq!(acts.len(), 1);
    match &acts[0] {
        BrokerAction::RejectOverflow(m) => {
            assert_eq!(m, &client_env(b"c", b"one too many"))
        }
        _ => panic!("expected an overflow rejection"),
    }
    assert_eq!(b.pending_len(), PENDING_MAX);
}

#[test]
fn malformed_worker_message_is_non_fatal() {
    let mut b = Broker::new(0);
    b.handle_backend(ready_msg(b"w1"), 0);
    // A two-frame remainder is neither a control frame nor a reply envelope.
    let bad = vec![b"w1".to_vec(), b"junk".to_vec(), b"junk".to_vec()];
    let acts = b.handle_backend(bad.clone(), 10);
    assert_eq!(acts.len(), 1);
    match &acts[0] {
        BrokerAction::DropInvalid(m) => assert_eq!(m, &bad),
        _ => panic!("expected the message to be logged and dropped"),
    }
    // The broker keeps serving: the worker is still registered.
    let acts = b.handle_frontend(client_env(b"c", b"x"));
    assert!(matches!(acts[0], BrokerAction::ToWorker(_)));
}

#[test]
fn heartbeat_from_unknown_worker_registers_it() {
    let mut b = Broker::new(0);
    let acts = b.handle_backend(vec![b"w1".to_vec(), vec![0x02]], 0);
    assert!(acts.is_empty());
    let acts = b.handle_frontend(client_env(b"c", b"x"));
    match &acts[0] {
        BrokerAction::ToWorker(m) => assert_eq!(m[0], b"w1".to_vec()),
        _ => panic!("expected the request to be routed"),
    }
}

#[test]
fn unknown_control_byte_is_invalid() {
    let mut b = Broker::new(0);
    let acts = b.handle_backend(vec![b"w1".to_vec(), vec![0x03]], 0);
    assert!(matches!(acts[0], BrokerAction::DropInvalid(_)));
    // Nothing was registered.
    assert!(b.handle_frontend(client_env(b"c", b"x")).is_empty());
}

#[test]
fn heartbeats_go_to_every_registered_worker() {
    let mut b = Broker::new(0);
    b.handle_backend(ready_msg(b"w1"), 0);
    b.handle_backend(ready_msg(b"w2"), 0);
    // Before the deadline: no heartbeat.
    assert!(b.tick(999).is_empty());
    let acts = b.tick(1000);
    assert_eq!(acts.len(), 2);
    match &acts[0] {
        BrokerAction::ToWorker(m) => {
            assert_eq!(m, &vec![b"w1".to_vec(), vec![], vec![0x02]])
        }
        _ => panic!("expected a heartbeat to the first worker"),
    }
    match &acts[1] {
        BrokerAction::ToWorker(m) => {
            assert_eq!(m, &vec![b"w2".to_vec(), vec![], vec![0x02]])
        }
        _ => panic!("expected a heartbeat to the second worker"),
    }
}

#[test]
fn tick_purges_expired_workers() {
    // The worked example: W registered at t=0 expires at t=3000; the purge
    // at t=3001 removes it; a request at t=3500 is queued; W2 announces
    // readiness at t=3600 and the queued request goes to it.
    let mut b = Broker::new(0);
    b.handle_backend(ready_msg(b"w"), 0);
    b.tick(3001);
    assert!(b.handle_frontend(client_env(b"c", b"work")).is_empty());
    assert_eq!(b.pending_len(), 1);
    b.handle_backend(ready_msg(b"w2"), 3600);
    let acts = b.dispatch();
    assert_eq!(acts.len(), 1);
    match &acts[0] {
        BrokerAction::ToWorker(m) => assert_eq!(m[0], b"w2".to_vec()),
        _ => panic!("expected the queued request to be dispatched"),
    }
    assert_eq!(b.pending_len(), 0);
}

#[test]
fn malformed_worker_message_still_refreshes_its_expiry() {
    let mut b = Broker::new(0);
    b.handle_backend(ready_msg(b"w1"), 0);
    // Expiry would pass at 3001; even a malformed message at 2900 is proof
    // of life for its sender.
    let bad = vec![b"w1".to_vec(), b"junk".to_vec(), b"junk".to_vec()];
    let acts = b.handle_backend(bad, 2900);
    assert!(matches!(acts[0], BrokerAction::DropInvalid(_)));
    b.tick(3100);
    let acts = b.handle_frontend(client_env(b"c", b"x"));
    assert!(matches!(acts[0], BrokerAction::ToWorker(_)));
}

#[test]
fn malformed_client_message_is_dropped_without_costing_a_worker() {
    let mut b = Broker::new(0);
    b.handle_backend(ready_msg(b"w1"), 0);
    // Two frames, no delimiter: not a client envelope.
    let bad = vec![b"c1".to_vec(), b"body".to_vec()];
    let acts = b.handle_frontend(bad.clone());
    assert_eq!(acts.len(), 1);
    match &acts[0] {
        BrokerAction::DropInvalid(m) => assert_eq!(m, &bad),
        _ => panic!("expected the message to be logged and dropped"),
    }
    assert_eq!(b.pending_len(), 0);
    // The worker is still available for a real request.
    let acts = b.handle_frontend(client_env(b"c1", b"body"));
    assert!(matches!(acts[0], BrokerAction::ToWorker(_)));
}

#[test]
fn any_worker_traffic_refreshes_its_expiry() {
    let mut b = Broker::new(0);
    b.handle_backend(ready_msg(b"w1"), 0);
    // Expiry would pass at 3001; a reply at 2900 is proof of life.
    let reply = vec![b"w1".to_vec(), b"c1".to_vec(), vec![], b"r".to_vec()];
    b.handle_backend(reply, 2900);
    b.tick(3100);
    // Still registered: the request is routed, not queued.
    let acts = b.handle_frontend(client_env(b"c", b"x"));
    assert!(matches!(acts[0], BrokerAction::ToWorker(_)));
}
