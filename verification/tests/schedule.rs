use touch_n_drink::schedule::{Daily, DAILY_INTERVAL, DEBUG_DAILY_INTERVAL};

#[test]
fn daily_first_event_one_interval_ahead() {
    let daily = Daily::new(1000, DAILY_INTERVAL);
    assert_eq!(daily.next(), 1000 + 86400);
    assert!(!daily.is_expired(1000));
    assert_eq!(daily.time_left(1000), 86400);
    assert!(daily.is_expired(87400));
    assert_eq!(daily.time_left(90000), 0);
    assert_eq!(DEBUG_DAILY_INTERVAL, 30 * 60);
}

#[test]
fn daily_schedule_next() {
    let mut daily = Daily::new(0, 100);
    // Not expired yet: nothing changes
    daily.schedule_next(50);
    assert_eq!(daily.next(), 100);
    // Expired a little: one interval after the expired event
    daily.schedule_next(120);
    assert_eq!(daily.next(), 200);
    // Expired long ago: one interval from now
    daily.schedule_next(1000);
    assert_eq!(daily.next(), 1100);
    // Next event is always after now
    daily.schedule_next(1199);
    assert!(daily.next() > 1199);
}
