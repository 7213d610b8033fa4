//! Decisions of the Matter occupancy-sensor node that do not depend on the
//! Matter stack itself: the device type and endpoint it exposes, the value
//! of its Occupancy attribute, the stable Thread interface identifier, and
//! the factory-reset gesture on the BOOT pin.
use vstd::prelude::*;

verus! {

/// Matter Device Library "Occupancy Sensor" device type.
pub const DEV_TYPE_OCCUPANCY_SENSOR: u16 = 0x0107;

/// Revision of the Occupancy Sensor device type claimed.
pub const DEV_TYPE_OCCUPANCY_SENSOR_REV: u8 = 4;

/// Endpoint 0 hosts the hidden system clusters, so the sensor lives on
/// endpoint 1.
pub const OCC_ENDPOINT_ID: u16 = 1;

/// Seconds the BOOT pin must be held low to factory-reset the fabric.
pub const RESET_SECS: u64 = 3;

/// Debounce before a low BOOT pin counts as held.
pub const RESET_DEBOUNCE_MS: u64 = 50;

/// The Occupancy bit of the Occupancy Sensing cluster's `Occupancy`
/// attribute.
pub const OCCUPIED_BIT: u8 = 0x01;

/// The value of the `Occupancy` attribute for the debounced presence: the
/// occupied bit alone when someone is present, no bit otherwise.
pub fn occupancy_bitmap(occupied: bool) -> (bits: u8)
    ensures
        bits == (if occupied {
            OCCUPIED_BIT
        } else {
            0
        }),
{
    if occupied {
        OCCUPIED_BIT
    } else {
        0
    }
}

/// The EUI-64 of a factory EUI-48 MAC address: `ff:fe` inserted between
/// its two halves.
pub open spec fn eui64_of(mac: Seq<u8>) -> Seq<u8> {
    mac.subrange(0, 3) + seq![0xffu8, 0xfeu8] + mac.subrange(3, 6)
}

/// The interface identifier is a function of the MAC alone, so it is the
/// same on every boot (never random): eight bytes, `ff:fe` in the middle,
/// and distinct MACs give distinct identifiers.
pub proof fn lemma_eui64_stable(mac: Seq<u8>, other: Seq<u8>)
    requires
        mac.len() == 6,
        other.len() == 6,
    ensures
        eui64_of(mac).len() == 8,
        eui64_of(mac)[3] == 0xff && eui64_of(mac)[4] == 0xfe,
        mac == other <==> eui64_of(mac) == eui64_of(other),
{
    if eui64_of(mac) == eui64_of(other) {
        assert forall|i: int| 0 <= i < 6 implies mac[i] == other[i] by {
            let j = if i < 3 {
                i
            } else {
                i + 2
            };
            assert(eui64_of(mac)[j] == mac[i]);
            assert(eui64_of(other)[j] == other[i]);
        }
        assert(mac =~= other);
    }
}

/// The EUI-64 derived from a factory EUI-48 MAC address by inserting
/// `ff:fe` between its two halves. Stable across boots, so the SRP host
/// name and mesh addresses stay the same after a power cycle.
pub fn eui64_from_mac(mac: [u8; 6]) -> (eui: [u8; 8])
    ensures
        eui@ == eui64_of(mac@),
{
    let eui: [u8; 8] = [mac[0], mac[1], mac[2], 0xff, 0xfe, mac[3], mac[4], mac[5]];
    assert(eui@ =~= mac@.subrange(0, 3) + seq![0xffu8, 0xfeu8] + mac@.subrange(3, 6));
    eui
}

/// Where the factory-reset gesture stands.
#[derive(Debug, Clone, Copy, PartialEq, Eq, Structural)]
pub enum ResetPhase {
    /// Waiting for the pin to go low.
    Idle,
    /// The pin went low; waiting out the debounce.
    Debouncing,
    /// The pin is held low; waiting for release or the hold time.
    Holding,
    /// The gesture completed: reset.
    Triggered,
}

/// What happened on the BOOT pin, or which wait ended.
#[derive(Debug, Clone, Copy, PartialEq, Eq, Structural)]
pub enum ResetEvent {
    /// The pin went low.
    PinLow,
    /// The debounce elapsed, with the pin low or not.
    DebounceElapsed { still_low: bool },
    /// The pin was released.
    PinHigh,
    /// The hold time elapsed with the pin still low.
    HoldElapsed,
}

/// What to wait for next.
#[derive(Debug, Clone, Copy, PartialEq, Eq, Structural)]
pub enum ResetWait {
    /// Wait for the pin to go low.
    PinLow,
    /// Wait [`RESET_DEBOUNCE_MS`].
    Debounce,
    /// Warn, then wait for release or [`RESET_SECS`], whichever is first.
    ReleaseOrHold,
    /// Nothing more: factory-reset now.
    Reset,
}

/// The phase after `event` in `phase`; events that do not belong to the
/// phase change nothing.
pub open spec fn reset_next(phase: ResetPhase, event: ResetEvent) -> ResetPhase {
    match (phase, event) {
        (ResetPhase::Idle, ResetEvent::PinLow) => ResetPhase::Debouncing,
        (ResetPhase::Debouncing, ResetEvent::DebounceElapsed { still_low }) => if still_low {
            ResetPhase::Holding
        } else {
            ResetPhase::Idle
        },
        (ResetPhase::Holding, ResetEvent::PinHigh) => ResetPhase::Idle,
        (ResetPhase::Holding, ResetEvent::HoldElapsed) => ResetPhase::Triggered,
        _ => phase,
    }
}

/// What a phase waits for.
pub open spec fn reset_wait(phase: ResetPhase) -> ResetWait {
    match phase {
        ResetPhase::Idle => ResetWait::PinLow,
        ResetPhase::Debouncing => ResetWait::Debounce,
        ResetPhase::Holding => ResetWait::ReleaseOrHold,
        ResetPhase::Triggered => ResetWait::Reset,
    }
}

/// Watches the BOOT pin for the factory-reset gesture: held low (past a
/// short debounce) for [`RESET_SECS`].
pub struct ResetWatcher {
    phase: ResetPhase,
}

impl View for ResetWatcher {
    type V = ResetPhase;

    closed spec fn view(&self) -> ResetPhase {
        self.phase
    }
}

impl ResetWatcher {
    /// Waiting for the pin to go low.
    pub fn new() -> (w: Self)
        ensures
            w@ == ResetPhase::Idle,
    {
        ResetWatcher { phase: ResetPhase::Idle }
    }

    /// What to wait for now.
    pub fn wait(&self) -> (w: ResetWait)
        ensures
            w == reset_wait(self@),
    {
        match self.phase {
            ResetPhase::Idle => ResetWait::PinLow,
            ResetPhase::Debouncing => ResetWait::Debounce,
            ResetPhase::Holding => ResetWait::ReleaseOrHold,
            ResetPhase::Triggered => ResetWait::Reset,
        }
    }

    /// Takes what happened and says what to wait for next.
    pub fn on_event(&mut self, event: ResetEvent) -> (w: ResetWait)
        ensures
            final(self)@ == reset_next(old(self)@, event),
            w == reset_wait(final(self)@),
    {
        self.phase = match (self.phase, event) {
            (ResetPhase::Idle, ResetEvent::PinLow) => ResetPhase::Debouncing,
            (ResetPhase::Debouncing, ResetEvent::DebounceElapsed { still_low }) => if still_low {
                ResetPhase::Holding
            } else {
                ResetPhase::Idle
            },
            (ResetPhase::Holding, ResetEvent::PinHigh) => ResetPhase::Idle,
            (ResetPhase::Holding, ResetEvent::HoldElapsed) => ResetPhase::Triggered,
            (phase, _) => phase,
        };
        self.wait()
    }
}

/// The reset fires only through a hold: the step into `Triggered` is the
/// hold time elapsing while the pin is held; the hold starts only when the
/// debounce ends with the pin still low, and the debounce only when the
/// pin goes low while idle; a release always goes back to waiting for the
/// pin, and so does a debounce that ends with the pin released.
pub proof fn lemma_reset_needs_hold(phase: ResetPhase, event: ResetEvent)
    ensures
        reset_next(phase, event) == ResetPhase::Holding ==> phase == ResetPhase::Holding || (
        phase == ResetPhase::Debouncing && event == (ResetEvent::DebounceElapsed { still_low: true })),
        reset_next(phase, event) == ResetPhase::Debouncing ==> phase == ResetPhase::Debouncing || (
        phase == ResetPhase::Idle && event == ResetEvent::PinLow),
        phase == ResetPhase::Debouncing && event == (ResetEvent::DebounceElapsed { still_low: false })
            ==> reset_next(phase, event) == ResetPhase::Idle,
        phase == ResetPhase::Triggered ==> reset_next(phase, event) == ResetPhase::Triggered,
        reset_next(phase, event) == ResetPhase::Triggered ==> phase == ResetPhase::Triggered || (
        phase == ResetPhase::Holding && event == ResetEvent::HoldElapsed),
        phase == ResetPhase::Holding && event == ResetEvent::PinHigh ==> reset_next(phase, event)
            == ResetPhase::Idle,
{
}

} // verus!
