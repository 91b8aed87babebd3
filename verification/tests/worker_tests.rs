use dispresence::config::PresenceConfig;
use dispresence::worker::{
    HandleState, PresenceWorker, WorkerAction, WorkerEvent, WorkerState, SLEEP_SECS,
};

fn config() -> PresenceConfig {
    PresenceConfig {
        app_id: String::from("42"),
        details: String::from("d"),
        state: String::from("s"),
        party: (0, 0),
        image_large: (String::new(), String::new()),
        image_small: (String::new(), String::new()),
    }
}

#[test]
fn sleep_interval_is_fifteen_seconds() {
    assert_eq!(SLEEP_SECS, 15);
}

#[test]
fn fresh_worker_wants_to_connect() {
    let w = PresenceWorker::new(config());
    assert_eq!(w.state(), WorkerState::Connecting);
    assert_eq!(w.current_action(), Some(WorkerAction::Connect));
    assert!(!w.is_stopped());
}

#[test]
fn three_connect_failures_then_success() {
    let mut w = PresenceWorker::new(config());
    for _ in 0..3 {
        w.step(WorkerEvent::ConnectDone(false));
        assert_eq!(w.state(), WorkerState::Connecting);
        assert_eq!(w.current_action(), Some(WorkerAction::Connect));
    }
    w.step(WorkerEvent::ConnectDone(true));
    assert_eq!(w.state(), WorkerState::Updating);
    assert_eq!(w.current_action(), Some(WorkerAction::Send));
}

#[test]
fn successful_iteration_polls_then_sleeps_then_resends() {
    let mut w = PresenceWorker::new(config());
    w.step(WorkerEvent::ConnectDone(true));
    w.step(WorkerEvent::SendDone(true));
    assert_eq!(w.current_action(), Some(WorkerAction::PollStop));
    w.step(WorkerEvent::PollDone(false));
    assert_eq!(w.current_action(), Some(WorkerAction::Sleep));
    w.step(WorkerEvent::SleepDone);
    assert_eq!(w.current_action(), Some(WorkerAction::Send));
}

#[test]
fn reconnect_success_resends_without_poll_or_sleep() {
    let mut w = PresenceWorker::new(config());
    w.step(WorkerEvent::ConnectDone(true));
    w.step(WorkerEvent::SendDone(false));
    assert_eq!(w.current_action(), Some(WorkerAction::Reconnect));
    w.step(WorkerEvent::ReconnectDone(true));
    assert_eq!(w.current_action(), Some(WorkerAction::Send));
}

#[test]
fn reconnect_failure_is_absorbed_and_falls_through_to_poll() {
    let mut w = PresenceWorker::new(config());
    w.step(WorkerEvent::ConnectDone(true));
    w.step(WorkerEvent::SendDone(false));
    w.step(WorkerEvent::ReconnectDone(false));
    assert_eq!(w.current_action(), Some(WorkerAction::PollStop));
    w.step(WorkerEvent::PollDone(false));
    assert_eq!(w.current_action(), Some(WorkerAction::Sleep));
}

#[test]
fn stop_signal_observed_at_poll_stops_the_worker() {
    let mut w = PresenceWorker::new(config());
    w.step(WorkerEvent::ConnectDone(true));
    w.step(WorkerEvent::SendDone(true));
    w.step(WorkerEvent::PollDone(true));
    assert_eq!(w.state(), WorkerState::Stopped);
    assert!(w.is_stopped());
    assert_eq!(w.current_action(), None);
}

#[test]
fn stop_sent_while_connecting_takes_effect_after_first_successful_connect() {
    let mut w = PresenceWorker::new(config());
    for _ in 0..5 {
        w.step(WorkerEvent::ConnectDone(false));
        assert_eq!(w.state(), WorkerState::Connecting);
    }
    w.step(WorkerEvent::ConnectDone(true));
    w.step(WorkerEvent::SendDone(true));
    w.step(WorkerEvent::PollDone(true));
    assert_eq!(w.state(), WorkerState::Stopped);
}

#[test]
fn stopped_is_terminal() {
    let mut w = PresenceWorker::new(config());
    w.step(WorkerEvent::ConnectDone(true));
    w.step(WorkerEvent::SendDone(true));
    w.step(WorkerEvent::PollDone(true));
    assert!(w.is_stopped());
    w.step(WorkerEvent::ConnectDone(true));
    w.step(WorkerEvent::SleepDone);
    w.step(WorkerEvent::PollDone(false));
    assert!(w.is_stopped());
    assert_eq!(w.current_action(), None);
}

#[test]
fn handle_records_the_one_stop_request() {
    let mut h = HandleState::new_running();
    assert!(h.running);
    assert!(!h.stop_requested);
    h.request_stop();
    assert!(!h.running);
    assert!(h.stop_requested);
}
