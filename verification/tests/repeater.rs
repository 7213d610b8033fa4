use esp32c6_matter_human_detection::repeater::{
    changed_counters, counter_deltas, LedStep, RepeaterStatus, Role,
};

#[test]
fn searching_then_child_then_router() {
    let mut s = RepeaterStatus::new();
    let a = s.tick(Role::Detached, false, 0);
    assert!(a.role_changed);
    assert_eq!(a.set_router_eligible, Some(false));
    assert!(!a.log_addresses);
    assert_eq!(
        a.led,
        vec![LedStep::On, LedStep::Wait(120), LedStep::Off, LedStep::Wait(120)]
    );
    let a = s.tick(Role::Detached, false, 0);
    assert!(!a.role_changed);
    assert_eq!(a.set_router_eligible, None);

    let a = s.tick(Role::Child, false, 0);
    assert!(a.role_changed);
    assert_eq!(a.set_router_eligible, Some(true));
    assert!(a.log_addresses);
    assert!(!a.solicit_router);
    assert_eq!(
        a.led,
        vec![LedStep::On, LedStep::Wait(500), LedStep::Off, LedStep::Wait(500)]
    );

    let a = s.tick(Role::Router, false, 2);
    assert!(a.role_changed);
    assert_eq!(a.set_router_eligible, None);
    assert!(!a.log_addresses);
    assert_eq!(a.children_changed, Some(2));
    assert_eq!(a.led.len(), 4 + 2 * 4);
    assert_eq!(a.led[1], LedStep::Wait(2900));
    assert_eq!(a.led[5], LedStep::Wait(180));
    let a = s.tick(Role::Router, false, 2);
    assert_eq!(a.children_changed, None);
    let a = s.tick(Role::Leader, false, 9);
    assert_eq!(a.children_changed, Some(9));
    assert_eq!(a.led.len(), 4 + 5 * 4);
}

#[test]
fn child_solicits_router_every_thirty_seconds() {
    let mut s = RepeaterStatus::new();
    let mut solicited = Vec::new();
    for secs in 1..=75u32 {
        if s.tick(Role::Child, false, 0).solicit_router {
            solicited.push(secs);
        }
    }
    assert_eq!(solicited, vec![10, 40, 70]);
    // Any other role restarts the count.
    s.tick(Role::Detached, false, 0);
    let mut first = None;
    for secs in 1..=12u32 {
        if s.tick(Role::Child, false, 0).solicit_router && first.is_none() {
            first = Some(secs);
        }
    }
    assert_eq!(first, Some(10));
}

#[test]
fn singleton_leader_flashes_and_reports_loneliness() {
    let mut s = RepeaterStatus::new();
    let a = s.tick(Role::Leader, true, 3);
    assert_eq!(a.lonely_changed, Some(true));
    assert!(a.log_addresses);
    assert_eq!(a.children_changed, None);
    assert_eq!(
        a.led,
        vec![
            LedStep::On,
            LedStep::Wait(120),
            LedStep::Off,
            LedStep::Wait(120),
            LedStep::On,
            LedStep::Wait(120),
            LedStep::Off,
            LedStep::Wait(120),
            LedStep::Wait(1520),
        ]
    );
    let a = s.tick(Role::Leader, true, 3);
    assert_eq!(a.lonely_changed, None);
    let a = s.tick(Role::Leader, false, 3);
    assert_eq!(a.lonely_changed, Some(false));
    assert_eq!(a.children_changed, Some(3));
}

#[test]
fn other_roles_compare_by_code() {
    let mut s = RepeaterStatus::new();
    assert!(s.tick(Role::Other(7), false, 0).role_changed);
    assert!(!s.tick(Role::Other(7), false, 0).role_changed);
    assert!(s.tick(Role::Other(8), false, 0).role_changed);
    assert!(s.tick(Role::Disabled, false, 0).set_router_eligible == Some(false));
}

#[test]
fn counter_deltas_wrap() {
    assert_eq!(counter_deltas(&[5, 0, 9], &[2, 4294967295, 9]), vec![3, 1, 0]);
    assert_eq!(
        changed_counters(&[5, 0, 9, 1], &[2, 0, 9, 0]),
        vec![(0usize, 3u32), (3, 1)]
    );
    assert_eq!(changed_counters(&[], &[]), vec![]);
}
