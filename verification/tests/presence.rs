use esp32c6_matter_human_detection::presence::PresenceDebouncer;

#[test]
fn asserts_immediately_and_holds_before_clearing() {
    // The hold window is measured from the *last* raw detection.
    let mut d = PresenceDebouncer::new(2000);
    assert_eq!(d.update(true, 0), Some(true)); // first detection -> occupied
    assert_eq!(d.update(true, 500), None); // still present, hold ref -> 500
    assert_eq!(d.update(false, 1000), None); // 500ms absent, inside window
    assert_eq!(d.update(false, 2499), None); // 1999ms < 2000ms hold
    assert_eq!(d.update(false, 2500), Some(false)); // 2000ms since t=500 -> clear
    assert!(!d.is_present());
}

#[test]
fn renewed_presence_resets_hold_window() {
    let mut d = PresenceDebouncer::new(1000);
    assert_eq!(d.update(true, 0), Some(true));
    assert_eq!(d.update(false, 500), None);
    assert_eq!(d.update(true, 800), None); // re-detected, stays occupied
    assert_eq!(d.update(false, 1700), None); // only 900ms since last detection
    assert_eq!(d.update(false, 1800), Some(false)); // 1000ms since detection at 800
}

#[test]
fn starts_vacant_and_absence_alone_never_reports() {
    let mut d = PresenceDebouncer::new(500);
    assert!(!d.is_present());
    assert_eq!(d.update(false, 0), None);
    assert_eq!(d.update(false, 10_000), None);
    assert!(!d.is_present());
}

#[test]
fn clock_going_backwards_keeps_presence() {
    let mut d = PresenceDebouncer::new(100);
    assert_eq!(d.update(true, 5_000), Some(true));
    // An earlier timestamp counts as no time elapsed.
    assert_eq!(d.update(false, 1_000), None);
    assert!(d.is_present());
    assert_eq!(d.update(false, 5_100), Some(false));
}

#[test]
fn zero_hold_clears_on_first_absence() {
    let mut d = PresenceDebouncer::new(0);
    assert_eq!(d.update(true, 7), Some(true));
    assert_eq!(d.update(false, 7), Some(false));
    assert_eq!(d.update(false, 8), None);
}

#[test]
fn reported_changes_alternate() {
    let mut d = PresenceDebouncer::new(300);
    let samples = [
        (true, 0u64),
        (false, 100),
        (true, 200),
        (false, 499),
        (false, 500),
        (false, 900),
        (true, 1000),
    ];
    let mut last = false;
    let mut changes = 0;
    for (raw, t) in samples {
        if let Some(now) = d.update(raw, t) {
            assert_ne!(now, last);
            last = now;
            changes += 1;
        }
        assert_eq!(d.is_present(), last);
    }
    assert_eq!(changes, 3);
}
