use echo_add_service::server::{AcceptAction, AcceptOutcome, Phase, ServerControl, IDLE_SLEEP_MS};

#[test]
fn a_new_server_does_not_accept_until_run() {
    let control = ServerControl::new();
    assert_eq!(control.phase, Phase::Created);
    assert!(!control.is_running());
    assert_eq!(control.on_accept(AcceptOutcome::Accepted), AcceptAction::Exit);
}

#[test]
fn a_running_server_spawns_sleeps_and_retries() {
    let mut control = ServerControl::new();
    control.run();
    assert!(control.is_running());
    assert_eq!(control.on_accept(AcceptOutcome::Accepted), AcceptAction::Spawn);
    assert_eq!(control.on_accept(AcceptOutcome::WouldBlock), AcceptAction::Sleep(IDLE_SLEEP_MS));
    assert_eq!(IDLE_SLEEP_MS, 10);
    assert_eq!(control.on_accept(AcceptOutcome::Failed), AcceptAction::Retry);
}

#[test]
fn a_stopped_server_accepts_nothing_again() {
    let mut control = ServerControl::new();
    control.run();
    control.stop();
    assert!(!control.is_running());
    for o in [AcceptOutcome::Accepted, AcceptOutcome::WouldBlock, AcceptOutcome::Failed] {
        assert_eq!(control.on_accept(o), AcceptAction::Exit);
    }
    control.run();
    assert_eq!(control.phase, Phase::Stopped);
    assert_eq!(control.on_accept(AcceptOutcome::Accepted), AcceptAction::Exit);
}
