use esp32c6_matter_human_detection::board::led_level_high;
use esp32c6_matter_human_detection::matter::{
    eui64_from_mac, occupancy_bitmap, ResetEvent, ResetWait, ResetWatcher,
};

#[test]
fn occupancy_attribute_value() {
    assert_eq!(occupancy_bitmap(true), 0x01);
    assert_eq!(occupancy_bitmap(false), 0x00);
}

#[test]
fn eui64_inserts_fffe() {
    assert_eq!(
        eui64_from_mac([0x58, 0xe6, 0xc5, 0x15, 0x3a, 0xa8]),
        [0x58, 0xe6, 0xc5, 0xff, 0xfe, 0x15, 0x3a, 0xa8]
    );
}

#[test]
fn led_is_active_low() {
    assert!(!led_level_high(true));
    assert!(led_level_high(false));
}

#[test]
fn reset_needs_a_debounced_hold() {
    let mut w = ResetWatcher::new();
    assert_eq!(w.wait(), ResetWait::PinLow);
    assert_eq!(w.on_event(ResetEvent::PinLow), ResetWait::Debounce);
    // A bounce: high again after the debounce.
    assert_eq!(
        w.on_event(ResetEvent::DebounceElapsed { still_low: false }),
        ResetWait::PinLow
    );
    assert_eq!(w.on_event(ResetEvent::PinLow), ResetWait::Debounce);
    assert_eq!(
        w.on_event(ResetEvent::DebounceElapsed { still_low: true }),
        ResetWait::ReleaseOrHold
    );
    // Released early.
    assert_eq!(w.on_event(ResetEvent::PinHigh), ResetWait::PinLow);
    assert_eq!(w.on_event(ResetEvent::HoldElapsed), ResetWait::PinLow);
    assert_eq!(w.on_event(ResetEvent::PinLow), ResetWait::Debounce);
    assert_eq!(
        w.on_event(ResetEvent::DebounceElapsed { still_low: true }),
        ResetWait::ReleaseOrHold
    );
    assert_eq!(w.on_event(ResetEvent::HoldElapsed), ResetWait::Reset);
}
