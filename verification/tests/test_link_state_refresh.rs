use hidshift::link::state_refresh::{CRITICAL_STATE_REFRESH_INTERVAL_US, CriticalStateRefresh};

#[test]
fn critical_state_refreshes_fit_inside_the_tail_latency_budget() {
    let mut refresh = CriticalStateRefresh::after_primary(10_000);

    assert!(!refresh.take_due(13_999));
    assert!(refresh.take_due(14_000));
    assert!(refresh.is_complete());
    assert!(!refresh.take_due(18_000));
    assert!(CRITICAL_STATE_REFRESH_INTERVAL_US < 15_000);
}

#[test]
fn motion_piggyback_defers_a_separate_state_refresh() {
    let mut refresh = CriticalStateRefresh::after_primary(10_000);
    refresh.defer_after_piggyback(13_000);

    assert!(!refresh.take_due(16_999));
    assert!(refresh.take_due(17_000));
}
