//! Decisions of the standalone SRP registration probe, which measures how
//! reliably the device registers Matter-shaped SRP services with the border
//! router: the per-boot seed, the steps of each phase, when a phase has
//! registered, and the per-phase statistics.
use vstd::prelude::*;
use vstd::string::StringSliceAdditionalSpecFns;

verus! {

/// How long a phase may take to register before it counts as a failure
/// (the fail-safe a Matter commissioner arms).
pub const PHASE_DEADLINE_MS: u64 = 120_000;

/// Number of phases in a probe cycle.
pub const PHASES: usize = 4;

/// The per-boot discriminator: the low 16 bits of the tick count, mixed
/// with `0x5aa5`, so re-flashes do not collide with stale registrations.
pub fn probe_seed(ticks: u64) -> (seed: u16)
    ensures
        seed == (ticks as u16) ^ 0x5aa5u16,
{
    (ticks as u16) ^ 0x5aa5
}

/// The outcome of a phase, checked at `now_ms` against its deadline:
/// registered (`Some(true)`), timed out (`Some(false)`), or still waiting.
pub fn phase_outcome(registered: bool, now_ms: u64, deadline_ms: u64) -> (outcome: Option<bool>)
    ensures
        outcome == (if registered {
            Some(true)
        } else if now_ms >= deadline_ms {
            Some(false)
        } else {
            None
        }),
{
    if registered {
        Some(true)
    } else if now_ms >= deadline_ms {
        Some(false)
    } else {
        None
    }
}

/// The upper-case ASCII hex digit of `n` (below 16).
pub open spec fn hex_upper(n: int) -> u8 {
    if n < 10 {
        (0x30 + n) as u8
    } else {
        (0x41 + n - 10) as u8
    }
}

/// The seed as four upper-case hex digits, most significant first.
pub open spec fn seed_hex(seed: u16) -> Seq<u8> {
    seq![
        hex_upper(seed as int / 4096),
        hex_upper((seed as int / 256) % 16),
        hex_upper((seed as int / 16) % 16),
        hex_upper(seed as int % 16),
    ]
}

/// The seed reads back from its digits: each of the four is an upper-case
/// base-16 digit (`0`..`9` or `A`..`F`), and their values, most
/// significant first, make up the seed.
pub proof fn lemma_seed_hex_reads_back(seed: u16)
    ensures
        seed_hex(seed).len() == 4,
        forall|i: int|
            0 <= i < 4 ==> {
                let c = #[trigger] seed_hex(seed)[i];
                (0x30 <= c <= 0x39 || 0x41 <= c <= 0x46)
            },
        ({
            let v = |c: u8|
                if c <= 0x39 {
                    c - 0x30
                } else {
                    c - 0x41 + 10
                };
            let h = seed_hex(seed);
            4096 * v(h[0]) + 256 * v(h[1]) + 16 * v(h[2]) + v(h[3]) == seed
        }),
{
    let n = seed as int;
    assert(4096 * (n / 4096) + 256 * ((n / 256) % 16) + 16 * ((n / 16) % 16) + n % 16 == n)
        by (nonlinear_arith)
        requires
            0 <= n < 65536,
    ;
}

fn hex_upper_digit(n: u16) -> (d: u8)
    requires
        n < 16,
    ensures
        d == hex_upper(n as int),
{
    if n < 10 {
        0x30 + n as u8
    } else {
        0x41 + (n as u8 - 10)
    }
}

fn push_seed_hex(v: &mut Vec<u8>, seed: u16)
    ensures
        final(v)@ == old(v)@ + seed_hex(seed),
{
    v.push(hex_upper_digit(seed / 4096));
    v.push(hex_upper_digit((seed / 256) % 16));
    v.push(hex_upper_digit((seed / 16) % 16));
    v.push(hex_upper_digit(seed % 16));
    assert(v@ =~= old(v)@ + seed_hex(seed));
}

fn push_text(v: &mut Vec<u8>, t: &str)
    ensures
        final(v)@ == old(v)@ + t.spec_bytes(),
{
    let b = t.as_bytes();
    let mut i: usize = 0;
    while i < b.len()
        invariant
            i <= b@.len(),
            v@ == old(v)@ + b@.subrange(0, i as int),
        decreases b@.len() - i,
    {
        v.push(b[i]);
        i = i + 1;
        assert(v@ =~= old(v)@ + b@.subrange(0, i as int));
    }
    assert(b@.subrange(0, b@.len() as int) =~= b@);
}

/// The SRP host name of the probe: `PROBE-` and the seed's four hex digits.
pub fn probe_host_name(seed: u16) -> (name: Vec<u8>)
    ensures
        name@ == "PROBE-".spec_bytes() + seed_hex(seed),
{
    let mut v = Vec::new();
    push_text(&mut v, "PROBE-");
    push_seed_hex(&mut v, seed);
    v
}

/// The commissionable service instance: the seed's hex digits, then
/// `73CAD5831857`.
pub fn commissionable_instance(seed: u16) -> (name: Vec<u8>)
    ensures
        name@ == seed_hex(seed) + "73CAD5831857".spec_bytes(),
{
    let mut v = Vec::new();
    push_seed_hex(&mut v, seed);
    push_text(&mut v, "73CAD5831857");
    assert(v@ =~= seed_hex(seed) + "73CAD5831857".spec_bytes());
    v
}

/// The operational service instance: `F143A01EB67C`, the seed's hex
/// digits, then `-00000000C4280E34`.
pub fn operational_instance(seed: u16) -> (name: Vec<u8>)
    ensures
        name@ == "F143A01EB67C".spec_bytes() + seed_hex(seed) + "-00000000C4280E34".spec_bytes(),
{
    let mut v = Vec::new();
    push_text(&mut v, "F143A01EB67C");
    push_seed_hex(&mut v, seed);
    push_text(&mut v, "-00000000C4280E34");
    v
}

/// The services the probe registers.
#[derive(Debug, Clone, Copy, PartialEq, Eq, Structural)]
pub enum ProbeService {
    /// A minimal single service.
    Small,
    /// The Matter commissionable service (four subtypes, six TXT entries).
    Commissionable,
    /// The Matter operational service.
    Operational,
}

/// One SRP client operation of a phase.
#[derive(Debug, Clone, Copy, PartialEq, Eq, Structural)]
pub enum ProbeStep {
    /// Clear every service and the host immediately.
    RemoveAll,
    /// Set the host configuration again (clearing wiped it).
    SetConf,
    /// Let this many milliseconds pass.
    Wait(u64),
    /// Register a service.
    Add(ProbeService),
}

/// Clear everything and set the host again.
pub open spec fn clean_start() -> Seq<ProbeStep> {
    seq![ProbeStep::RemoveAll, ProbeStep::SetConf]
}

/// Both Matter services.
pub open spec fn both_services() -> Seq<ProbeStep> {
    seq![ProbeStep::Add(ProbeService::Commissionable), ProbeStep::Add(ProbeService::Operational)]
}

/// The operations of phase `idx`: from a clean state, (A) the small
/// service, (B) the commissionable service, (C) both Matter services, (D)
/// both services after twice registering them and clearing everything
/// mid-transaction.
pub open spec fn phase_plan(idx: int) -> Seq<ProbeStep> {
    let start = clean_start().push(ProbeStep::Wait(2000));
    if idx == 0 {
        start.push(ProbeStep::Add(ProbeService::Small))
    } else if idx == 1 {
        start.push(ProbeStep::Add(ProbeService::Commissionable))
    } else if idx == 2 {
        start + both_services()
    } else {
        let churn = both_services().push(ProbeStep::Wait(800)) + clean_start();
        start + churn + churn + both_services()
    }
}

fn push_clean_start(v: &mut Vec<ProbeStep>)
    ensures
        final(v)@ == old(v)@ + clean_start(),
{
    v.push(ProbeStep::RemoveAll);
    v.push(ProbeStep::SetConf);
    assert(v@ =~= old(v)@ + clean_start());
}

fn push_both_services(v: &mut Vec<ProbeStep>)
    ensures
        final(v)@ == old(v)@ + both_services(),
{
    v.push(ProbeStep::Add(ProbeService::Commissionable));
    v.push(ProbeStep::Add(ProbeService::Operational));
    assert(v@ =~= old(v)@ + both_services());
}

/// The operations of phase `idx` (see [`phase_plan`]).
pub fn phase_steps(idx: usize) -> (steps: Vec<ProbeStep>)
    requires
        idx < PHASES,
    ensures
        steps@ == phase_plan(idx as int),
{
    let mut v = Vec::new();
    push_clean_start(&mut v);
    v.push(ProbeStep::Wait(2000));
    let ghost start = v@;
    assert(start =~= clean_start().push(ProbeStep::Wait(2000)));
    if idx == 0 {
        v.push(ProbeStep::Add(ProbeService::Small));
    } else if idx == 1 {
        v.push(ProbeStep::Add(ProbeService::Commissionable));
    } else if idx == 2 {
        push_both_services(&mut v);
    } else {
        let ghost churn = both_services().push(ProbeStep::Wait(800)) + clean_start();
        push_both_services(&mut v);
        v.push(ProbeStep::Wait(800));
        push_clean_start(&mut v);
        assert(v@ =~= start + churn);
        push_both_services(&mut v);
        v.push(ProbeStep::Wait(800));
        push_clean_start(&mut v);
        assert(v@ =~= start + churn + churn);
        push_both_services(&mut v);
    }
    v
}

/// Whether every listed service is registered: at least one service is
/// listed and none is in another state.
pub open spec fn all_registered(states: Seq<bool>) -> bool {
    states.len() > 0 && forall|i: int| 0 <= i < states.len() ==> #[trigger] states[i]
}

/// Walks the client's service list, one service state at a time.
pub struct RegistrationTally {
    any: bool,
    all: bool,
}

impl View for RegistrationTally {
    type V = (bool, bool);

    closed spec fn view(&self) -> (bool, bool) {
        (self.any, self.all)
    }
}

impl RegistrationTally {
    /// The tally of the states `seen` so far.
    pub open spec fn tallies(self, seen: Seq<bool>) -> bool {
        self@ == (seen.len() > 0, forall|i: int| 0 <= i < seen.len() ==> #[trigger] seen[i])
    }

    /// Nothing seen yet.
    pub fn new() -> (t: Self)
        ensures
            t.tallies(Seq::empty()),
    {
        RegistrationTally { any: false, all: true }
    }

    /// One more service, registered or not.
    pub fn observe(&mut self, registered: bool)
        ensures
            forall|seen: Seq<bool>|
                old(self).tallies(seen) ==> #[trigger] final(self).tallies(seen.push(registered)),
    {
        self.any = true;
        if !registered {
            self.all = false;
        }
        assert forall|seen: Seq<bool>| old(self).tallies(seen) implies #[trigger] self.tallies(
            seen.push(registered),
        ) by {
            let s2 = seen.push(registered);
            if (forall|i: int| 0 <= i < s2.len() ==> #[trigger] s2[i]) {
                assert forall|i: int| 0 <= i < seen.len() implies #[trigger] seen[i] by {
                    assert(s2[i] == seen[i]);
                }
                assert(s2[s2.len() - 1] == registered);
            }
            if (forall|i: int| 0 <= i < seen.len() ==> #[trigger] seen[i]) && registered {
                assert forall|i: int| 0 <= i < s2.len() implies #[trigger] s2[i] by {
                    if i < seen.len() {
                        assert(s2[i] == seen[i]);
                    }
                }
            }
        }
    }

    /// Whether every service seen is registered, and there was one.
    pub fn all_registered(&self) -> (r: bool)
        ensures
            forall|seen: Seq<bool>| #[trigger] self.tallies(seen) ==> r == all_registered(seen),
    {
        self.any && self.all
    }
}

/// The record of one phase.
#[derive(Debug, Clone, Copy)]
pub struct PhaseStats {
    /// Registrations that completed in time.
    pub ok: u32,
    /// Registrations that timed out.
    pub fail: u32,
    /// Total time of the successful registrations.
    pub total_ok_ms: u64,
}

/// The record of a phase after one more attempt.
pub open spec fn stats_after(s: PhaseStats, registered: bool, elapsed_ms: u64) -> PhaseStats {
    if registered {
        PhaseStats { ok: (s.ok + 1) as u32, total_ok_ms: (s.total_ok_ms + elapsed_ms) as u64, ..s }
    } else {
        PhaseStats { fail: (s.fail + 1) as u32, ..s }
    }
}

/// The record of a phase after the attempts `attempts` (each whether it
/// registered, and in how long), in order, starting from `s`.
pub open spec fn stats_after_all(s: PhaseStats, attempts: Seq<(bool, u64)>) -> PhaseStats
    decreases attempts.len(),
{
    if attempts.len() == 0 {
        s
    } else {
        stats_after(stats_after_all(s, attempts.drop_last()), attempts.last().0, attempts.last().1)
    }
}

/// How many of `attempts` registered (`registered`) or timed out.
pub open spec fn attempts_with(attempts: Seq<(bool, u64)>, registered: bool) -> nat
    decreases attempts.len(),
{
    if attempts.len() == 0 {
        0
    } else {
        attempts_with(attempts.drop_last(), registered) + (if attempts.last().0 == registered {
            1nat
        } else {
            0nat
        })
    }
}

/// The total time of the attempts of `attempts` that registered.
pub open spec fn registered_ms(attempts: Seq<(bool, u64)>) -> nat
    decreases attempts.len(),
{
    if attempts.len() == 0 {
        0
    } else {
        registered_ms(attempts.drop_last()) + (if attempts.last().0 {
            attempts.last().1 as nat
        } else {
            0nat
        })
    }
}

/// Every attempt stays counted: after any attempts from a phase's record,
/// the successes grow by the number of attempts that registered, the
/// failures by the number that timed out (a later success erases none),
/// and the total time by the time of those that registered, while the
/// counts fit.
pub proof fn lemma_stats_count_every_attempt(s: PhaseStats, attempts: Seq<(bool, u64)>)
    requires
        s.ok + attempts_with(attempts, true) <= u32::MAX,
        s.fail + attempts_with(attempts, false) <= u32::MAX,
        s.total_ok_ms + registered_ms(attempts) <= u64::MAX,
    ensures
        stats_after_all(s, attempts).ok == s.ok + attempts_with(attempts, true),
        stats_after_all(s, attempts).fail == s.fail + attempts_with(attempts, false),
        stats_after_all(s, attempts).total_ok_ms == s.total_ok_ms + registered_ms(attempts),
    decreases attempts.len(),
{
    if attempts.len() > 0 {
        lemma_stats_count_every_attempt(s, attempts.drop_last());
    }
}

/// The mean time of a phase's successful registrations (0 before any).
pub open spec fn mean_ms(s: PhaseStats) -> u64 {
    if s.ok > 0 {
        (s.total_ok_ms / (s.ok as u64)) as u64
    } else {
        0
    }
}

/// Success, failure and timing counts of every phase.
pub struct ProbeStats {
    phases: [PhaseStats; 4],
}

impl View for ProbeStats {
    type V = Seq<PhaseStats>;

    closed spec fn view(&self) -> Seq<PhaseStats> {
        self.phases@
    }
}

impl ProbeStats {
    /// No attempt yet.
    pub fn new() -> (s: Self)
        ensures
            s@.len() == PHASES,
            forall|i: int|
                0 <= i < PHASES ==> (#[trigger] s@[i]).ok == 0 && s@[i].fail == 0
                    && s@[i].total_ok_ms == 0,
    {
        let zero = PhaseStats { ok: 0, fail: 0, total_ok_ms: 0 };
        let s = ProbeStats { phases: [zero, zero, zero, zero] };
        assert(s@.len() == PHASES);
        s
    }

    /// The record of phase `idx`.
    pub fn phase(&self, idx: usize) -> (s: PhaseStats)
        requires
            idx < PHASES,
        ensures
            s == self@[idx as int],
    {
        self.phases[idx]
    }

    /// Counts an attempt of phase `idx` that registered (in `elapsed_ms`)
    /// or timed out.
    pub fn record(&mut self, idx: usize, registered: bool, elapsed_ms: u64)
        requires
            idx < PHASES,
            registered ==> old(self)@[idx as int].ok < u32::MAX,
            registered ==> old(self)@[idx as int].total_ok_ms + elapsed_ms <= u64::MAX,
            !registered ==> old(self)@[idx as int].fail < u32::MAX,
        ensures
            final(self)@ == old(self)@.update(
                idx as int,
                stats_after(old(self)@[idx as int], registered, elapsed_ms),
            ),
            final(self)@[idx as int].ok == old(self)@[idx as int].ok + (if registered {
                1int
            } else {
                0int
            }),
            final(self)@[idx as int].fail == old(self)@[idx as int].fail + (if registered {
                0int
            } else {
                1int
            }),
            final(self)@[idx as int].total_ok_ms == old(self)@[idx as int].total_ok_ms + (
            if registered {
                elapsed_ms as int
            } else {
                0int
            }),
    {
        let mut s = self.phases[idx];
        if registered {
            s.ok = s.ok + 1;
            s.total_ok_ms = s.total_ok_ms + elapsed_ms;
        } else {
            s.fail = s.fail + 1;
        }
        self.phases[idx] = s;
    }

    /// The mean time of the successful registrations of phase `idx`.
    pub fn mean_ms(&self, idx: usize) -> (m: u64)
        requires
            idx < PHASES,
        ensures
            m == mean_ms(self@[idx as int]),
    {
        let s = self.phase(idx);
        if s.ok > 0 {
            s.total_ok_ms / (s.ok as u64)
        } else {
            0
        }
    }
}

} // verus!
