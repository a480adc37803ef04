use lcu_draft::draft::DraftState;
use lcu_draft::monitor::{MonitorEvent, MonitorState};

fn sample_state(timer_milli: Option<i64>, phase: &str) -> DraftState {
    DraftState {
        game_id: Some(42),
        timer_milli,
        phase: phase.to_string(),
        teams: Vec::new(),
        actions: Vec::new(),
    }
}

#[test]
fn test_first_success_notifies() {
    let monitor = MonitorState::new();
    let (monitor, event) = monitor.tick(Ok(sample_state(Some(30_000), "BAN_PICK")));
    assert!(matches!(event, Some(MonitorEvent::StateChanged)));
    assert!(monitor.last.is_some());
}

#[test]
fn test_identical_state_is_silent() {
    let monitor = MonitorState::new();
    let (monitor, _) = monitor.tick(Ok(sample_state(Some(30_000), "BAN_PICK")));
    // an identical snapshot on the next tick fires zero events
    let (_, event) = monitor.tick(Ok(sample_state(Some(30_000), "BAN_PICK")));
    assert!(event.is_none());
}

#[test]
fn test_timer_movement_notifies() {
    let monitor = MonitorState::new();
    let (monitor, _) = monitor.tick(Ok(sample_state(Some(30_000), "BAN_PICK")));
    // a movement of 0.02 seconds exceeds the epsilon: exactly one event
    let (_, event) = monitor.tick(Ok(sample_state(Some(30_020), "BAN_PICK")));
    assert!(matches!(event, Some(MonitorEvent::StateChanged)));
}

#[test]
fn test_sub_epsilon_timer_change_notifies_structurally() {
    let monitor = MonitorState::new();
    let (monitor, _) = monitor.tick(Ok(sample_state(Some(30_000), "BAN_PICK")));
    // a movement at the epsilon itself does not fire the timer signal,
    // but the snapshot differs structurally, which notifies on its own
    let (_, event) = monitor.tick(Ok(sample_state(Some(30_010), "BAN_PICK")));
    assert!(matches!(event, Some(MonitorEvent::StateChanged)));
}

#[test]
fn test_phase_change_notifies() {
    let monitor = MonitorState::new();
    let (monitor, _) = monitor.tick(Ok(sample_state(Some(30_000), "PLANNING")));
    let (_, event) = monitor.tick(Ok(sample_state(Some(30_000), "BAN_PICK")));
    assert!(matches!(event, Some(MonitorEvent::StateChanged)));
}

#[test]
fn test_error_notifies_only_after_valid_snapshot() {
    let monitor = MonitorState::new();
    // failing while no draft was observed stays silent
    let (monitor, event) = monitor.tick(Err("no session".to_string()));
    assert!(event.is_none());
    // after a success, the first failure notifies once
    let (monitor, _) = monitor.tick(Ok(sample_state(None, "BAN_PICK")));
    let (monitor, event) = monitor.tick(Err("gone".to_string()));
    match event {
        Some(MonitorEvent::Error(msg)) => assert_eq!(msg, "gone"),
        _ => panic!("expected an error event"),
    }
    // further failures are silent until the next success
    let (_, event) = monitor.tick(Err("still gone".to_string()));
    assert!(event.is_none());
}

#[test]
fn test_timer_appearing_notifies() {
    let monitor = MonitorState::new();
    let (monitor, _) = monitor.tick(Ok(sample_state(None, "BAN_PICK")));
    let (_, event) = monitor.tick(Ok(sample_state(Some(1_000), "BAN_PICK")));
    assert!(matches!(event, Some(MonitorEvent::StateChanged)));
}
