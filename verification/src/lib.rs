//! Presence-sensing core of an ESP32-C6 mmWave occupancy sensor that reports
//! to a Matter controller over Thread, and the decisions of its two
//! companion images (a Thread range extender and an SRP registration probe).
//!
//! Module map:
//! - [`board`] — XIAO ESP32-C6 pin assignments and the LED polarity.
//! - [`presence`] — hold-time debouncing of the radar's raw presence bit.
//! - [`sensor`] — LD2410 report-frame reader and basic-mode report parser,
//!   plus the per-frame decisions of the sensor task.
//! - [`matter`] — the occupancy attribute value, the stable Thread
//!   interface identifier and the factory-reset gesture.
//! - [`mesh`] — what the Thread network data says the mesh can route to.
//! - [`telemetry`] — log filtering, datagram batching and sink back-off of
//!   the repeater's log stream.
//! - [`repeater`] — role tracking, router eligibility and LED patterns of
//!   the range extender; radio counter changes.
//! - [`probe`] — phase plan, names, outcome and statistics of the SRP probe.
//! - [`dataset`] — decoding of the build-time Thread dataset hex.
//! - [`bounded`] — the fixed-capacity `heapless` collections used above.
pub mod board;
pub mod bounded;
pub mod dataset;
pub mod matter;
pub mod mesh;
pub mod presence;
pub mod probe;
pub mod repeater;
pub mod sensor;
pub mod telemetry;
