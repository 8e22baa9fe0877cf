use script_router::connection::ConnAction;
use script_router::connection::ConnEvent;
use script_router::connection::ConnState;
use script_router::decision::DecisionError;
use script_router::decision::V8Response;
use script_router::decision::Verdict;
use script_router::decision::HOLD_SECONDS;
use script_router::queue::QueueError;

fn decision(block: Option<bool>, hold: Option<bool>, ip: Option<&str>, no_delay: Option<bool>) -> V8Response {
    V8Response {
        block_connection: block,
        hang_connection: hold,
        ip: ip.map(|s| s.to_string()),
        no_delay,
        cpu_time: None,
    }
}

fn awaiting(job_id: u32) -> ConnState {
    ConnState::AwaitingDecision { job_id }
}

#[test]
fn block_closes_without_outbound_connection() {
    let (state, action) = awaiting(7).on_event(ConnEvent::Decided(decision(Some(true), None, None, None)));
    assert!(matches!(state, ConnState::Blocked));
    assert!(matches!(action, ConnAction::Close));
}

#[test]
fn block_wins_over_hold_and_target() {
    let d = decision(Some(true), Some(true), Some("127.0.0.1:9"), Some(true));
    assert!(matches!(d.verdict(), Ok(Verdict::Block)));
    let (state, action) = awaiting(1).on_event(ConnEvent::Decided(d));
    assert!(matches!(state, ConnState::Blocked));
    assert!(matches!(action, ConnAction::Close));
}

#[test]
fn target_with_no_delay_connects_there() {
    let d = decision(None, None, Some("127.0.0.1:9"), Some(true));
    let (state, action) = awaiting(3).on_event(ConnEvent::Decided(d));
    match state {
        ConnState::Proxying { target, no_delay } => {
            assert_eq!(target, "127.0.0.1:9");
            assert!(no_delay);
        }
        _ => panic!("expected proxying"),
    }
    match action {
        ConnAction::Connect { target, no_delay } => {
            assert_eq!(target, "127.0.0.1:9");
            assert!(no_delay);
        }
        _ => panic!("expected connect"),
    }
}

#[test]
fn absent_no_delay_is_off() {
    let d = decision(Some(false), Some(false), Some("10.1.1.1:80"), None);
    match d.verdict() {
        Ok(Verdict::Proxy { target, no_delay }) => {
            assert_eq!(target, "10.1.1.1:80");
            assert!(!no_delay);
        }
        _ => panic!("expected proxy"),
    }
}

#[test]
fn hold_keeps_connection_for_fixed_time() {
    let d = decision(None, Some(true), Some("127.0.0.1:9"), None);
    let (state, action) = awaiting(3).on_event(ConnEvent::Decided(d));
    assert!(matches!(state, ConnState::Held));
    match action {
        ConnAction::HoldFor { seconds } => assert_eq!(seconds, HOLD_SECONDS),
        _ => panic!("expected hold"),
    }
    assert_eq!(HOLD_SECONDS, 30);
}

#[test]
fn empty_decision_aborts() {
    let d = decision(None, None, None, None);
    assert!(matches!(d.verdict(), Err(DecisionError::MissingTarget)));
    let (state, action) = awaiting(3).on_event(ConnEvent::Decided(d));
    assert!(matches!(state, ConnState::Aborted));
    assert!(matches!(action, ConnAction::Close));
}

#[test]
fn failed_enqueue_aborts() {
    let (state, action) = ConnState::Accepted.on_event(ConnEvent::Enqueued(Err(QueueError::NoWorkersAvailable)));
    assert!(matches!(state, ConnState::Aborted));
    assert!(matches!(action, ConnAction::Close));
}

#[test]
fn enqueued_job_is_awaited() {
    let (state, action) = ConnState::Accepted.on_event(ConnEvent::Enqueued(Ok(42)));
    assert!(matches!(state, ConnState::AwaitingDecision { job_id: 42 }));
    assert!(matches!(action, ConnAction::Wait));
}

#[test]
fn timeout_cancels_the_job() {
    let (state, action) = awaiting(9).on_event(ConnEvent::TimedOut);
    assert!(matches!(state, ConnState::Aborted));
    assert!(matches!(action, ConnAction::CancelAndClose { job_id: 9 }));
    let (state, action) = awaiting(10).on_event(ConnEvent::ChannelClosed);
    assert!(matches!(state, ConnState::Aborted));
    assert!(matches!(action, ConnAction::CancelAndClose { job_id: 10 }));
}

#[test]
fn finished_connection_ignores_late_events() {
    let (state, action) = ConnState::Blocked.on_event(ConnEvent::Decided(decision(None, None, Some("1.2.3.4:5"), None)));
    assert!(matches!(state, ConnState::Blocked));
    assert!(matches!(action, ConnAction::Wait));
    let (state, action) = ConnState::Accepted.on_event(ConnEvent::TimedOut);
    assert!(matches!(state, ConnState::Accepted));
    assert!(matches!(action, ConnAction::Wait));
}

#[test]
fn failed_script_decision_blocks() {
    let d = V8Response::blocked();
    assert_eq!(d.block_connection, Some(true));
    assert!(matches!(d.verdict(), Ok(Verdict::Block)));
}
