use hidshift::link::session::{SessionDecision, SessionHandshake};

#[test]
fn requires_echo_of_the_current_local_session() {
    let mut state = SessionHandshake::new(10);
    assert_eq!(state.observe(20, 0), SessionDecision::Reply);
    assert!(!state.is_established());
    assert_eq!(state.observe(20, 9), SessionDecision::Ignore);
    assert_eq!(state.observe(20, 10), SessionDecision::Established);
    assert!(state.accepts_peer(20));
}

#[test]
fn established_session_cannot_be_replaced_by_a_replayed_hello() {
    let mut state = SessionHandshake::new(10);
    assert_eq!(state.observe(20, 0), SessionDecision::Reply);
    assert_eq!(state.observe(20, 10), SessionDecision::Established);
    assert_eq!(state.observe(3, 0), SessionDecision::Ignore);
    assert_eq!(state.observe(3, 10), SessionDecision::Ignore);
    assert!(state.accepts_peer(20));
}

#[test]
fn reset_allows_peer_reboot_recovery() {
    let mut state = SessionHandshake::new(10);
    assert_eq!(state.observe(20, 0), SessionDecision::Reply);
    assert_eq!(state.observe(20, 10), SessionDecision::Established);
    state.reset();
    assert_eq!(state.observe(30, 0), SessionDecision::Reply);
    assert_eq!(state.observe(30, 10), SessionDecision::Established);
}
