use keymapper::LEARN_TIMEOUT_MS;
use keymapper::LearnState;
use keymapper::LearnStatus;

#[test]
fn start_and_capture_should_consume_down_and_matching_up() {
    let mut state = LearnState::default();
    state.start_at(0);

    assert!(matches!(state.status, LearnStatus::Learning { .. }));
    assert!(state.consume_event_at(116, 1, 10));
    assert!(matches!(state.status, LearnStatus::Captured { key_code: 116 }));

    assert!(state.consume_event_at(116, 0, 20));
    assert!(!state.consume_event_at(115, 0, 30));
}

#[test]
fn snapshot_should_timeout_when_learning_exceeds_limit() {
    let mut state = LearnState {
        status: LearnStatus::Learning { start: 0 },
        consumed_key_up: None,
    };

    let snapshot = state.snapshot_at(LEARN_TIMEOUT_MS + 1);
    assert!(matches!(snapshot.status, LearnStatus::Timeout));
    assert!(snapshot.remaining_ms.is_none());
}

#[test]
fn snapshot_should_return_remaining_ms_while_learning() {
    let mut state = LearnState::default();
    state.start_at(0);

    let snapshot = state.snapshot_at(5);
    assert!(matches!(snapshot.status, LearnStatus::Learning { .. }));
    let remaining = snapshot.remaining_ms.expect("remaining_ms should exist");
    assert!(remaining <= LEARN_TIMEOUT_MS as u32);
    assert_eq!(remaining, 2995);
}

#[test]
fn captured_state_passes_other_keys_through() {
    let mut state = LearnState::default();
    state.start_at(0);
    assert!(state.consume_event_at(42, 1, 100));
    // a different key is not swallowed while the capture is shown
    assert!(!state.consume_event_at(43, 1, 150));
    // the paired release is swallowed exactly once
    assert!(state.consume_event_at(42, 0, 160));
    assert!(!state.consume_event_at(42, 0, 170));
}

#[test]
fn learning_swallows_everything_until_timeout() {
    let mut state = LearnState::default();
    state.start_at(0);
    assert!(state.consume_event_at(10, 0, 100));
    assert!(state.consume_event_at(11, 2, 200));
    assert!(matches!(state.status, LearnStatus::Learning { .. }));
    // past the three second window nothing is swallowed
    assert!(!state.consume_event_at(10, 1, 3000));
    assert!(matches!(state.status, LearnStatus::Timeout));
}
