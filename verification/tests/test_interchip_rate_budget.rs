use hidshift::interchip::rate_budget::FixedIntervalBudget;

#[test]
fn starts_with_one_report_and_refills_at_the_fixed_interval() {
    let mut budget = FixedIntervalBudget::new(100, 1_000, 4);

    assert!(budget.try_take(100));
    assert!(!budget.try_take(1_099));
    assert!(budget.try_take(1_100));
    assert!(!budget.try_take(1_100));
}

#[test]
fn idle_credit_is_limited_to_the_configured_burst() {
    let mut budget = FixedIntervalBudget::new(0, 1_000, 4);
    assert!(budget.try_take(0));

    for _ in 0..4 {
        assert!(budget.try_take(10_000));
    }
    assert!(!budget.try_take(10_000));
}

#[test]
fn a_backward_clock_does_not_create_credit() {
    let mut budget = FixedIntervalBudget::new(2_000, 1_000, 1);
    assert!(budget.try_take(2_000));
    assert!(!budget.try_take(1_000));
}
