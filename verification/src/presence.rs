//! Presence debouncing.
//!
//! The LD2410 reports continuously (tens of milliseconds apart) and its raw
//! "someone present" bit can briefly drop even while a still person is in the
//! room. [`PresenceDebouncer`] smooths it with a *hold time*: presence asserts
//! immediately, but only clears after the raw signal has stayed absent
//! continuously for `hold_ms`.
//!
//! The logic works purely on millisecond timestamps.
use vstd::prelude::*;

verus! {

/// Milliseconds from `since` to `now`, saturating at zero when the clock
/// reads earlier than `since`.
pub open spec fn elapsed_ms(now: u64, since: u64) -> int {
    if now >= since {
        now - since
    } else {
        0
    }
}

/// The abstract state of a [`PresenceDebouncer`].
pub struct DebounceModel {
    /// How long the raw signal must stay absent before presence clears.
    pub hold_ms: u64,
    /// The debounced presence state.
    pub present: bool,
    /// Timestamp of the most recent raw detection.
    pub last_raw_present_ms: u64,
}

impl DebounceModel {
    /// The state after a raw sample `raw` taken at `now`: present when the
    /// sample detects someone, or when it was present and the absence since
    /// the last detection is still shorter than the hold time.
    pub open spec fn next(self, raw: bool, now: u64) -> DebounceModel {
        DebounceModel {
            hold_ms: self.hold_ms,
            present: raw || (self.present && elapsed_ms(now, self.last_raw_present_ms)
                < self.hold_ms),
            last_raw_present_ms: if raw {
                now
            } else {
                self.last_raw_present_ms
            },
        }
    }

    /// What a sample reports: the new state when it differs from the old one.
    pub open spec fn change(self, raw: bool, now: u64) -> Option<bool> {
        if self.next(raw, now).present != self.present {
            Some(self.next(raw, now).present)
        } else {
            None
        }
    }

    /// The state after feeding every sample of `samples` in order.
    pub open spec fn run(self, samples: Seq<(bool, u64)>) -> DebounceModel
        decreases samples.len(),
    {
        if samples.len() == 0 {
            self
        } else {
            self.run(samples.drop_last()).next(samples.last().0, samples.last().1)
        }
    }
}

/// Samples that all report the raw signal as absent.
pub open spec fn all_absent(samples: Seq<(bool, u64)>) -> bool {
    forall|i: int| 0 <= i < samples.len() ==> !(#[trigger] samples[i]).0
}

/// Debounces a raw presence bit into a stable occupied/unoccupied state.
#[derive(Debug, Clone)]
pub struct PresenceDebouncer {
    hold_ms: u64,
    present: bool,
    /// Timestamp of the most recent raw detection.
    last_raw_present_ms: u64,
}

impl View for PresenceDebouncer {
    type V = DebounceModel;

    closed spec fn view(&self) -> DebounceModel {
        DebounceModel {
            hold_ms: self.hold_ms,
            present: self.present,
            last_raw_present_ms: self.last_raw_present_ms,
        }
    }
}

impl PresenceDebouncer {
    /// Creates a debouncer that clears presence after `hold_ms` of continuous
    /// absence. Starts in the unoccupied state.
    pub fn new(hold_ms: u64) -> (d: Self)
        ensures
            d@ == (DebounceModel { hold_ms, present: false, last_raw_present_ms: 0 }),
    {
        PresenceDebouncer { hold_ms, present: false, last_raw_present_ms: 0 }
    }

    /// Feeds a raw detection sampled at `now_ms`.
    ///
    /// Returns `Some(new_state)` only when the debounced presence *changes*,
    /// so callers can publish/log transitions rather than every sample.
    pub fn update(&mut self, raw_present: bool, now_ms: u64) -> (changed: Option<bool>)
        ensures
            final(self)@ == old(self)@.next(raw_present, now_ms),
            changed == old(self)@.change(raw_present, now_ms),
    {
        if raw_present {
            self.last_raw_present_ms = now_ms;
            if !self.present {
                self.present = true;
                return Some(true);
            }
        } else if self.present && now_ms.saturating_sub(self.last_raw_present_ms) >= self.hold_ms {
            self.present = false;
            return Some(false);
        }
        None
    }

    /// The current debounced presence state.
    pub fn is_present(&self) -> (present: bool)
        ensures
            present == self@.present,
    {
        self.present
    }
}

/// A raw detection makes the debounced state present at once, and the
/// change is reported exactly when the state was vacant before.
pub proof fn lemma_asserts_immediately(m: DebounceModel, now: u64)
    ensures
        m.next(true, now).present,
        m.next(true, now).last_raw_present_ms == now,
        m.change(true, now) == (if m.present { None } else { Some(true) }),
{
}

/// A reported change always names the new state, and that state differs
/// from the one before; no sample reports a state that was already held.
pub proof fn lemma_reports_only_changes(m: DebounceModel, raw: bool, now: u64)
    ensures
        m.change(raw, now) matches Some(b) ==> b == m.next(raw, now).present && b != m.present,
        m.change(raw, now) is None ==> m.next(raw, now).present == m.present,
        m.next(raw, now).hold_ms == m.hold_ms,
{
}

/// Presence holds: after a detection at `t`, any run of absent samples all
/// taken less than `hold_ms` after `t` leaves the state present, still
/// measuring the window from `t`.
pub proof fn lemma_holds_within_window(m: DebounceModel, t: u64, samples: Seq<(bool, u64)>)
    requires
        all_absent(samples),
        forall|i: int|
            0 <= i < samples.len() ==> elapsed_ms(#[trigger] samples[i].1, t) < m.hold_ms,
    ensures
        m.next(true, t).run(samples).present,
        m.next(true, t).run(samples).last_raw_present_ms == t,
        m.next(true, t).run(samples).hold_ms == m.hold_ms,
    decreases samples.len(),
{
    if samples.len() > 0 {
        let prefix = samples.drop_last();
        assert forall|i: int| 0 <= i < prefix.len() implies !(#[trigger] prefix[i]).0 by {
            assert(prefix[i] == samples[i]);
        }
        assert forall|i: int|
            0 <= i < prefix.len() implies elapsed_ms(#[trigger] prefix[i].1, t) < m.hold_ms by {
            assert(prefix[i] == samples[i]);
        }
        lemma_holds_within_window(m, t, prefix);
        assert(!samples[samples.len() - 1].0);
        assert(elapsed_ms(samples[samples.len() - 1].1, t) < m.hold_ms);
    }
}

/// Presence clears: after a detection at `t`, a run of absent samples one
/// of which is taken `hold_ms` or more after `t` ends vacant, and stays
/// vacant for the rest of the absent run.
pub proof fn lemma_clears_after_window(
    m: DebounceModel,
    t: u64,
    samples: Seq<(bool, u64)>,
    k: int,
)
    requires
        all_absent(samples),
        0 <= k < samples.len(),
        elapsed_ms(samples[k].1, t) >= m.hold_ms,
    ensures
        !m.next(true, t).run(samples).present,
    decreases samples.len(),
{
    let start = m.next(true, t);
    let prefix = samples.drop_last();
    assert forall|i: int| 0 <= i < prefix.len() implies !(#[trigger] prefix[i]).0 by {
        assert(prefix[i] == samples[i]);
    }
    if k == samples.len() - 1 {
        lemma_absent_run_keeps_detection(start, prefix);
        assert(!samples[samples.len() - 1].0);
    } else {
        assert(prefix[k] == samples[k]);
        lemma_clears_after_window(m, t, prefix, k);
        assert(!samples[samples.len() - 1].0);
    }
}

/// Absent samples never move the time of the last detection nor the hold.
pub proof fn lemma_absent_run_keeps_detection(m: DebounceModel, samples: Seq<(bool, u64)>)
    requires
        all_absent(samples),
    ensures
        m.run(samples).last_raw_present_ms == m.last_raw_present_ms,
        m.run(samples).hold_ms == m.hold_ms,
        !m.present ==> !m.run(samples).present,
    decreases samples.len(),
{
    if samples.len() > 0 {
        let prefix = samples.drop_last();
        assert forall|i: int| 0 <= i < prefix.len() implies !(#[trigger] prefix[i]).0 by {
            assert(prefix[i] == samples[i]);
        }
        lemma_absent_run_keeps_detection(m, prefix);
        assert(!samples[samples.len() - 1].0);
    }
}

} // verus!
