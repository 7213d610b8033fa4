//! HLK-LD2410 24GHz mmWave radar reports.
//!
//! The LD2410 free-runs after power-up, continuously emitting "report"
//! frames over UART (8N1 @ 256000 baud). [`frame`] recovers the intra-frame
//! data from the byte stream; [`parse_report`] decodes a *basic mode*
//! (`0x02`) report into whether a target is present (moving and/or
//! stationary) plus distance and energy; [`SensorMonitor`] makes the
//! per-frame decisions of the sensor task (debounce, error backoff).
//!
//! Basic-mode intra-frame data (len = 13):
//! ```text
//! 02 AA | state | mov_dist(LE) mov_energy | stat_dist(LE) stat_energy | det_dist(LE) | 00 55
//! ```
//! `state`: 0x00 no target · 0x01 moving · 0x02 stationary · 0x03 both.
//! Anything non-zero counts as "someone present".
pub mod frame;

use vstd::prelude::*;
use crate::presence::{DebounceModel, PresenceDebouncer};

verus! {

/// Marker byte that follows the data type in every report.
pub const DATA_HEAD: u8 = 0xAA;

/// Data type of a basic-mode report.
pub const DATA_TYPE_BASIC: u8 = 0x02;

/// Data type of an engineering-mode report.
pub const DATA_TYPE_ENGINEERING: u8 = 0x01;

/// Largest intra-frame data accepted (engineering-mode frames are ~45 bytes).
pub const MAX_FRAME_DATA: usize = 64;

/// How long the raw absence must persist before the sensor reports vacant.
pub const HOLD_MS: u64 = 2_000;

/// Pause after a frame error so a desync does not spin the CPU.
pub const ERROR_BACKOFF_MS: u64 = 20;

/// Reported target state (LD2410 basic-mode `state` byte).
#[derive(Debug, Clone, Copy, PartialEq, Eq, Structural)]
pub enum TargetState {
    /// No target detected.
    NoTarget,
    /// A moving target only.
    Moving,
    /// A stationary (still) target only.
    Stationary,
    /// Both moving and stationary targets.
    Both,
    /// An unrecognized state byte (firmware/protocol mismatch).
    Unknown(u8),
}

/// The target state that a `state` byte encodes.
pub open spec fn target_state_of(b: u8) -> TargetState {
    if b == 0 {
        TargetState::NoTarget
    } else if b == 1 {
        TargetState::Moving
    } else if b == 2 {
        TargetState::Stationary
    } else if b == 3 {
        TargetState::Both
    } else {
        TargetState::Unknown(b)
    }
}

impl TargetState {
    /// Decodes the `state` byte of a report.
    pub fn from_u8(b: u8) -> (s: Self)
        ensures
            s == target_state_of(b),
    {
        match b {
            0x00 => TargetState::NoTarget,
            0x01 => TargetState::Moving,
            0x02 => TargetState::Stationary,
            0x03 => TargetState::Both,
            other => TargetState::Unknown(other),
        }
    }

    /// Whether this state means "someone is present": any state byte but
    /// zero (no target).
    pub open spec fn spec_is_present(self) -> bool {
        !(self is NoTarget)
    }

    /// Whether this state means "someone is present".
    #[verifier::when_used_as_spec(spec_is_present)]
    pub fn is_present(self) -> (present: bool)
        ensures
            present == self.spec_is_present(),
    {
        match self {
            TargetState::NoTarget => false,
            _ => true,
        }
    }
}

/// A parsed basic-mode presence report. Distances are in centimetres,
/// energies are 0..=255 confidence values.
#[derive(Debug, Clone, Copy)]
pub struct PresenceReport {
    pub state: TargetState,
    pub moving_distance_cm: u16,
    pub moving_energy: u8,
    pub stationary_distance_cm: u16,
    pub stationary_energy: u8,
    /// Detection (max) distance — absent on some firmware revisions.
    pub detection_distance_cm: Option<u16>,
}

/// The little-endian 16-bit value at `s[i..i + 2]`.
pub open spec fn le16(s: Seq<u8>, i: int) -> u16 {
    (s[i] + 256 * s[i + 1]) as u16
}

/// The report that intra-frame data `data` carries: a basic or engineering
/// report (type byte, then the `0xAA` head marker) with at least the fields
/// through the stationary energy; the detection distance is present when
/// the data holds two more bytes.
pub open spec fn report_of(data: Seq<u8>) -> Option<PresenceReport> {
    if data.len() >= 9 && data[1] == DATA_HEAD && (data[0] == DATA_TYPE_BASIC || data[0]
        == DATA_TYPE_ENGINEERING) {
        Some(
            PresenceReport {
                state: target_state_of(data[2]),
                moving_distance_cm: le16(data, 3),
                moving_energy: data[5],
                stationary_distance_cm: le16(data, 6),
                stationary_energy: data[8],
                detection_distance_cm: if data.len() >= 11 {
                    Some(le16(data, 9))
                } else {
                    None
                },
            },
        )
    } else {
        None
    }
}

/// The intra-frame data of a report of type `kind` as the LD2410 lays it
/// out: type, `0xAA`, state, moving distance (little-endian), moving
/// energy, stationary distance (little-endian), stationary energy and
/// detection distance (little-endian).
pub open spec fn report_bytes(
    kind: u8,
    state: u8,
    moving_cm: u16,
    moving_energy: u8,
    stationary_cm: u16,
    stationary_energy: u8,
    detection_cm: u16,
) -> Seq<u8> {
    seq![
        kind,
        0xAAu8,
        state,
        (moving_cm % 256) as u8,
        (moving_cm / 256) as u8,
        moving_energy,
        (stationary_cm % 256) as u8,
        (stationary_cm / 256) as u8,
        stationary_energy,
        (detection_cm % 256) as u8,
        (detection_cm / 256) as u8,
    ]
}

/// Every field is read back from where the sensor writes it: a basic
/// (`0x02`) or engineering (`0x01`) report gives back its distances and
/// energies, its detection distance when the data holds it and none when
/// the data stops after the stationary energy, and its state (`0` no
/// target, `1` moving, `2` stationary, `3` both, any other byte unknown),
/// which means presence exactly when the state byte is not zero. Data of
/// any other type is no report.
pub proof fn lemma_report_round_trips(
    kind: u8,
    state: u8,
    moving_cm: u16,
    moving_energy: u8,
    stationary_cm: u16,
    stationary_energy: u8,
    detection_cm: u16,
)
    ensures
        ({
            let data = report_bytes(
                kind,
                state,
                moving_cm,
                moving_energy,
                stationary_cm,
                stationary_energy,
                detection_cm,
            );
            &&& (kind == 1 || kind == 2) ==> report_of(data) == Some(
                PresenceReport {
                    state: if state == 0 {
                        TargetState::NoTarget
                    } else if state == 1 {
                        TargetState::Moving
                    } else if state == 2 {
                        TargetState::Stationary
                    } else if state == 3 {
                        TargetState::Both
                    } else {
                        TargetState::Unknown(state)
                    },
                    moving_distance_cm: moving_cm,
                    moving_energy,
                    stationary_distance_cm: stationary_cm,
                    stationary_energy,
                    detection_distance_cm: Some(detection_cm),
                },
            )
            &&& (kind == 1 || kind == 2) ==> report_of(data.take(9)) == Some(
                PresenceReport { detection_distance_cm: None, ..report_of(data)->0 },
            )
            &&& (kind == 1 || kind == 2) ==> (report_of(data)->0.state.spec_is_present() <==> state
                != 0)
            &&& !(kind == 1 || kind == 2) ==> report_of(data) is None && report_of(data.take(9)) is None
        }),
{
    let data = report_bytes(
        kind,
        state,
        moving_cm,
        moving_energy,
        stationary_cm,
        stationary_energy,
        detection_cm,
    );
    assert(le16(data, 3) == moving_cm);
    assert(le16(data, 6) == stationary_cm);
    assert(le16(data, 9) == detection_cm);
    let short = data.take(9);
    assert(short[1] == data[1] && short[0] == data[0] && short[2] == data[2]);
    assert(le16(short, 3) == moving_cm);
    assert(le16(short, 6) == stationary_cm);
    assert(short[5] == moving_energy && short[8] == stationary_energy);
}

fn read_le16(data: &[u8], i: usize) -> (v: u16)
    requires
        i + 1 < data@.len(),
    ensures
        v == le16(data@, i as int),
{
    data[i] as u16 + (data[i + 1] as u16) * 256
}

/// Parses the intra-frame data of a report into a [`PresenceReport`].
///
/// Tolerant of trailing-field variation: requires only the leading fields
/// (through stationary energy) and treats the detection distance as
/// optional. Returns `None` for non-report data types or malformed frames.
pub fn parse_report(data: &[u8]) -> (report: Option<PresenceReport>)
    ensures
        report == report_of(data@),
{
    if data.len() < 9 || data[1] != DATA_HEAD {
        return None;
    }
    if data[0] != DATA_TYPE_BASIC && data[0] != DATA_TYPE_ENGINEERING {
        return None;
    }
    let detection_distance_cm = if data.len() >= 11 {
        Some(read_le16(data, 9))
    } else {
        None
    };
    Some(
        PresenceReport {
            state: TargetState::from_u8(data[2]),
            moving_distance_cm: read_le16(data, 3),
            moving_energy: data[5],
            stationary_distance_cm: read_le16(data, 6),
            stationary_energy: data[8],
            detection_distance_cm,
        },
    )
}

/// The abstract state of a [`SensorMonitor`].
pub struct MonitorModel {
    pub debounce: DebounceModel,
    pub consecutive_errors: u32,
}

/// What the sensor task does after a lost frame.
#[derive(Debug, Clone, Copy)]
pub struct ErrorAction {
    /// Log a warning (first error of a burst only).
    pub warn: bool,
    /// Pause before reading again.
    pub backoff_ms: u64,
}

impl MonitorModel {
    /// The state and action after a lost frame: the error is counted, the
    /// debounced presence is untouched, a warning goes out for the first
    /// error of a burst, and reading pauses [`ERROR_BACKOFF_MS`].
    pub open spec fn error_step(self) -> (MonitorModel, ErrorAction) {
        (
            MonitorModel { consecutive_errors: (self.consecutive_errors + 1) as u32, ..self },
            ErrorAction { warn: self.consecutive_errors == 0, backoff_ms: ERROR_BACKOFF_MS },
        )
    }

    /// The state and decoded report after an intact frame carrying `data`:
    /// the error burst ends and the debounced presence is untouched (a
    /// frame that is no report thus changes and publishes nothing).
    pub open spec fn frame_step(self, data: Seq<u8>) -> (MonitorModel, Option<PresenceReport>) {
        (MonitorModel { consecutive_errors: 0, ..self }, report_of(data))
    }

    /// The state and the actions after `k` lost frames in a row.
    pub open spec fn error_run(self, k: nat) -> (MonitorModel, Seq<ErrorAction>)
        decreases k,
    {
        if k == 0 {
            (self, Seq::empty())
        } else {
            let (m, acts) = self.error_run((k - 1) as nat);
            (m.error_step().0, acts.push(m.error_step().1))
        }
    }
}

/// Frame errors never touch the debounced presence, so nothing is
/// published for them; in a burst of `k` errors that starts after an intact
/// frame (or at start-up), only the first warns, and every one pauses
/// [`ERROR_BACKOFF_MS`] (20 ms) before the next read.
pub proof fn lemma_error_burst(m: MonitorModel, k: nat)
    requires
        m.consecutive_errors == 0,
        k <= u32::MAX,
    ensures
        m.error_run(k).0.debounce == m.debounce,
        m.error_run(k).0.consecutive_errors == k,
        m.error_run(k).1.len() == k,
        forall|j: int|
            0 <= j < k ==> (#[trigger] m.error_run(k).1[j]).warn == (j == 0)
                && m.error_run(k).1[j].backoff_ms == 20,
    decreases k,
{
    if k > 0 {
        lemma_error_burst(m, (k - 1) as nat);
        let prev = m.error_run((k - 1) as nat).1;
        assert forall|j: int| 0 <= j < k implies (#[trigger] m.error_run(k).1[j]).warn == (j == 0)
            && m.error_run(k).1[j].backoff_ms == 20 by {
            if j < k - 1 {
                assert(m.error_run(k).1[j] == prev[j]);
            }
        }
    }
}


/// An intact frame ends an error burst: the next lost frame warns again,
/// while a lost frame inside a burst never warns; neither an intact nor a
/// lost frame touches the debounced presence.
pub proof fn lemma_frame_ends_burst(m: MonitorModel, data: Seq<u8>)
    ensures
        m.frame_step(data).0.error_step().1.warn,
        m.frame_step(data).0.consecutive_errors == 0,
        m.consecutive_errors > 0 ==> !m.error_step().1.warn,
        m.frame_step(data).0.debounce == m.debounce,
        m.error_step().0.debounce == m.debounce,
{
}

/// The decisions of the sensor task: debounces the presence carried by each
/// report and throttles the warnings for bursts of frame errors.
pub struct SensorMonitor {
    debouncer: PresenceDebouncer,
    consecutive_errors: u32,
}

impl View for SensorMonitor {
    type V = MonitorModel;

    closed spec fn view(&self) -> MonitorModel {
        MonitorModel { debounce: self.debouncer@, consecutive_errors: self.consecutive_errors }
    }
}

impl SensorMonitor {
    /// Starts vacant, with the [`HOLD_MS`] hold time and no errors seen.
    pub fn new() -> (m: Self)
        ensures
            m@.debounce == (DebounceModel {
                hold_ms: HOLD_MS,
                present: false,
                last_raw_present_ms: 0,
            }),
            m@.consecutive_errors == 0,
    {
        SensorMonitor { debouncer: PresenceDebouncer::new(HOLD_MS), consecutive_errors: 0 }
    }

    /// The debounced presence to publish (the initial value before any
    /// report, or the latest state).
    pub fn occupied(&self) -> (occupied: bool)
        ensures
            occupied == self@.debounce.present,
    {
        self.debouncer.is_present()
    }

    /// A frame arrived intact: ends the error burst and decodes its data.
    pub fn on_frame(&mut self, data: &[u8]) -> (report: Option<PresenceReport>)
        ensures
            (final(self)@, report) == old(self)@.frame_step(data@),
    {
        self.consecutive_errors = 0;
        parse_report(data)
    }

    /// Feeds the presence of a decoded report, read at `now_ms`, to the
    /// debouncer; returns the new occupancy when it changes.
    pub fn observe(&mut self, report: &PresenceReport, now_ms: u64) -> (changed: Option<bool>)
        ensures
            final(self)@.debounce == old(self)@.debounce.next(
                report.state.spec_is_present(),
                now_ms,
            ),
            changed == old(self)@.debounce.change(report.state.spec_is_present(), now_ms),
            final(self)@.consecutive_errors == old(self)@.consecutive_errors,
    {
        self.debouncer.update(report.state.is_present(), now_ms)
    }

    /// A frame was lost: counts the error and says whether to warn, which
    /// happens on the first error of a burst only.
    pub fn on_error(&mut self) -> (action: ErrorAction)
        requires
            old(self)@.consecutive_errors < u32::MAX,
        ensures
            (final(self)@, action) == old(self)@.error_step(),
            final(self)@.consecutive_errors == old(self)@.consecutive_errors + 1,
    {
        self.consecutive_errors = self.consecutive_errors + 1;
        ErrorAction { warn: self.consecutive_errors == 1, backoff_ms: ERROR_BACKOFF_MS }
    }

    /// The number of frame errors since the last intact frame.
    pub fn consecutive_errors(&self) -> (n: u32)
        ensures
            n == self@.consecutive_errors,
    {
        self.consecutive_errors
    }
}

} // verus!
