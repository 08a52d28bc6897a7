use hidshift::link::sequence::{InputSequenceDecision, InputSequenceWindow, ReplayWindow};

#[test]
fn duplicate_and_late_broadcast_state_are_not_reapplied() {
    let mut window = InputSequenceWindow::new();
    assert_eq!(window.observe_forward_only(10), InputSequenceDecision::New);
    assert_eq!(
        window.observe_forward_only(10),
        InputSequenceDecision::Duplicate
    );
    assert_eq!(window.observe_forward_only(12), InputSequenceDecision::New);
    assert_eq!(
        window.observe_forward_only(11),
        InputSequenceDecision::Stale
    );
}

#[test]
fn reset_accepts_a_new_sender_session_sequence() {
    let mut window = InputSequenceWindow::new();
    assert_eq!(window.observe_forward_only(42), InputSequenceDecision::New);
    window.reset();
    assert_eq!(window.observe_forward_only(1), InputSequenceDecision::New);
}

#[test]
fn replay_window_accepts_small_reordering_but_rejects_duplicates_and_old_frames() {
    let mut window = ReplayWindow::new();
    assert_eq!(window.observe(10), InputSequenceDecision::New);
    assert_eq!(window.observe(12), InputSequenceDecision::New);
    assert_eq!(window.observe(11), InputSequenceDecision::New);
    assert_eq!(window.observe(11), InputSequenceDecision::Duplicate);
    assert_eq!(window.observe(10), InputSequenceDecision::Duplicate);
    assert_eq!(window.observe(10), InputSequenceDecision::Duplicate);
    assert_eq!(window.observe(100), InputSequenceDecision::New);
    assert_eq!(window.observe(10), InputSequenceDecision::Stale);
}
