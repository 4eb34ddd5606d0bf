use paranoid_pirate::worker::WorkerAction;
use paranoid_pirate::worker::WorkerAgent;

fn request() -> Vec<Vec<u8>> {
    vec![vec![], b"c1".to_vec(), vec![], b"body".to_vec()]
}

fn broker_heartbeat() -> Vec<Vec<u8>> {
    vec![vec![], vec![0x02]]
}

#[test]
fn request_is_echoed_without_the_delimiter() {
    let mut w = WorkerAgent::new(0);
    let acts = w.on_message(request());
    assert_eq!(acts.len(), 1);
    match &acts[0] {
        WorkerAction::SendReply(m) => {
            assert_eq!(m, &vec![b"c1".to_vec(), vec![], b"body".to_vec()])
        }
        _ => panic!("expected a reply"),
    }
    assert_eq!(w.liveness, 3);
}

#[test]
fn heartbeat_resets_liveness() {
    let mut w = WorkerAgent::new(0);
    assert!(w.on_timeout().is_empty());
    assert!(w.on_timeout().is_empty());
    assert_eq!(w.liveness, 1);
    let acts = w.on_message(broker_heartbeat());
    assert!(acts.is_empty());
    assert_eq!(w.liveness, 3);
}

#[test]
fn request_resets_liveness() {
    let mut w = WorkerAgent::new(0);
    w.on_timeout();
    w.on_timeout();
    assert_eq!(w.liveness, 1);
    w.on_message(request());
    assert_eq!(w.liveness, 3);
}

#[test]
fn invalid_message_is_logged_and_changes_nothing() {
    let mut w = WorkerAgent::new(0);
    w.on_timeout();
    let bad = vec![b"junk".to_vec()];
    let acts = w.on_message(bad.clone());
    assert_eq!(acts.len(), 1);
    match &acts[0] {
        WorkerAction::DropInvalid(m) => assert_eq!(m, &bad),
        _ => panic!("expected the message to be logged and dropped"),
    }
    assert_eq!(w.liveness, 2);
}

/// Drive the agent through one full liveness exhaustion (three timeouts) and
/// return the actions of the last one.
fn exhaust_liveness(w: &mut WorkerAgent) -> Vec<WorkerAction> {
    assert!(w.on_timeout().is_empty());
    assert!(w.on_timeout().is_empty());
    w.on_timeout()
}

#[test]
fn backoff_doubles_to_the_ceiling_then_gives_up() {
    let mut w = WorkerAgent::new(0);
    let expected = [1000u64, 2000, 4000, 8000, 16000];
    for delay in expected {
        let acts = exhaust_liveness(&mut w);
        assert_eq!(acts.len(), 1);
        match acts[0] {
            WorkerAction::Reconnect(d) => assert_eq!(d, delay),
            _ => panic!("expected a reconnect"),
        }
        assert!(w.running);
        assert_eq!(w.liveness, 3);
    }
    assert_eq!(w.interval, 32000);
    // At the ceiling: one last ceiling-length sleep, then termination.
    let acts = exhaust_liveness(&mut w);
    assert_eq!(acts.len(), 1);
    match acts[0] {
        WorkerAction::GiveUp(d) => assert_eq!(d, 32000),
        _ => panic!("expected the agent to give up"),
    }
    assert!(!w.running);
}

#[test]
fn successful_exchange_resets_backoff() {
    let mut w = WorkerAgent::new(0);
    exhaust_liveness(&mut w);
    exhaust_liveness(&mut w);
    assert_eq!(w.interval, 4000);
    w.on_message(broker_heartbeat());
    assert_eq!(w.interval, 1000);
    let acts = exhaust_liveness(&mut w);
    match acts[0] {
        WorkerAction::Reconnect(d) => assert_eq!(d, 1000),
        _ => panic!("expected a reconnect"),
    }
}

#[test]
fn near_miss_heartbeat_is_invalid() {
    let mut w = WorkerAgent::new(0);
    w.on_timeout();
    // Right length, wrong control byte.
    let acts = w.on_message(vec![vec![], vec![0x03]]);
    assert!(matches!(acts[0], WorkerAction::DropInvalid(_)));
    assert_eq!(w.liveness, 2);
    // Right control byte, no leading delimiter.
    let acts = w.on_message(vec![vec![0x02]]);
    assert!(matches!(acts[0], WorkerAction::DropInvalid(_)));
    assert_eq!(w.liveness, 2);
}

#[test]
fn heartbeat_sent_when_deadline_elapses() {
    let mut w = WorkerAgent::new(0);
    assert!(w.heartbeat_tick(999).is_empty());
    let acts = w.heartbeat_tick(1000);
    assert_eq!(acts.len(), 1);
    assert!(matches!(acts[0], WorkerAction::SendHeartbeat));
    assert_eq!(w.heartbeat_at, 2000);
    assert!(w.heartbeat_tick(1500).is_empty());
}
