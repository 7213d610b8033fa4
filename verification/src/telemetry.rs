//! Decisions of the repeater's log telemetry: which log records are
//! emitted, which lines must not be queued (they would echo the telemetry
//! traffic itself), how queued lines are batched into datagrams, and when a
//! sink or the whole stream pauses.
use vstd::prelude::*;
use vstd::string::StringSliceAdditionalSpecFns;

verus! {

/// Severity of a log record, most severe first.
#[derive(Debug, Clone, Copy, PartialEq, Eq, Structural)]
pub enum LogLevel {
    Error,
    Warn,
    Info,
    Debug,
    Trace,
}

/// The rank of a level: `Error` is 1, `Trace` is 5; a level is "at most"
/// another when its rank is not larger.
pub open spec fn level_rank(l: LogLevel) -> int {
    match l {
        LogLevel::Error => 1,
        LogLevel::Warn => 2,
        LogLevel::Info => 3,
        LogLevel::Debug => 4,
        LogLevel::Trace => 5,
    }
}

/// `s` begins with `prefix`.
pub open spec fn has_prefix(s: Seq<u8>, prefix: Seq<u8>) -> bool {
    prefix.len() <= s.len() && s.subrange(0, prefix.len() as int) == prefix
}

/// `needle` occurs somewhere in `hay`.
pub open spec fn has_infix(hay: Seq<u8>, needle: Seq<u8>) -> bool {
    exists|i: int|
        0 <= i && i + needle.len() <= hay.len() && #[trigger] hay.subrange(i, i + needle.len())
            == needle
}

/// Whether `s` begins with `prefix`.
pub fn bytes_start_with(s: &[u8], prefix: &[u8]) -> (r: bool)
    ensures
        r == has_prefix(s@, prefix@),
{
    if prefix.len() > s.len() {
        return false;
    }
    let mut i: usize = 0;
    while i < prefix.len()
        invariant
            prefix@.len() <= s@.len(),
            i <= prefix@.len(),
            forall|j: int| 0 <= j < i ==> s@[j] == prefix@[j],
        decreases prefix@.len() - i,
    {
        if s[i] != prefix[i] {
            assert(s@.subrange(0, prefix@.len() as int)[i as int] != prefix@[i as int]);
            return false;
        }
        i = i + 1;
    }
    assert(s@.subrange(0, prefix@.len() as int) =~= prefix@);
    true
}

/// Whether `needle` occurs in `hay`.
pub fn bytes_contain(hay: &[u8], needle: &[u8]) -> (r: bool)
    ensures
        r == has_infix(hay@, needle@),
{
    if needle.len() > hay.len() {
        return false;
    }
    let last: usize = hay.len() - needle.len();
    let mut start: usize = 0;
    loop
        invariant
            hay@.len() <= usize::MAX,
            needle@.len() <= hay@.len(),
            last == hay@.len() - needle@.len(),
            start <= last,
            forall|i: int|
                0 <= i < start ==> #[trigger] hay@.subrange(i, i + needle@.len()) != needle@,
        decreases last - start,
    {
        let mut j: usize = 0;
        let mut same = true;
        while j < needle.len()
            invariant
                hay@.len() <= usize::MAX,
                needle@.len() <= hay@.len(),
                start <= last,
                last == hay@.len() - needle@.len(),
                j <= needle@.len(),
                same == (forall|k: int| 0 <= k < j ==> hay@[start + k] == needle@[k]),
            decreases needle@.len() - j,
        {
            if hay[start + j] != needle[j] {
                same = false;
            }
            j = j + 1;
        }
        if same {
            assert(hay@.subrange(start as int, start + needle@.len()) =~= needle@);
            return true;
        }
        proof {
            let k = choose|k: int| 0 <= k < needle@.len() && hay@[start + k] != needle@[k];
            assert(hay@.subrange(start as int, start + needle@.len())[k] != needle@[k]);
        }
        if start == last {
            return false;
        }
        start = start + 1;
    }
}

/// Whether a record of `level` from the module `target` is logged:
/// OpenThread's own modules (targets beginning with `openthread`) down to
/// debug, everything else down to info.
pub fn log_enabled(target: &str, level: LogLevel) -> (enabled: bool)
    ensures
        enabled == if has_prefix(target.spec_bytes(), "openthread".spec_bytes()) {
            level_rank(level) <= 4
        } else {
            level_rank(level) <= 3
        },
{
    let openthread = bytes_start_with(target.as_bytes(), "openthread".as_bytes());
    match level {
        LogLevel::Error | LogLevel::Warn | LogLevel::Info => true,
        LogLevel::Debug => openthread,
        LogLevel::Trace => false,
    }
}

/// A log line that must stay off the telemetry queue, because sending
/// telemetry makes the stack log it again: it names the telemetry port
/// (`:9999`) or the local socket (`12424`), or it is the per-send routing
/// error or a per-packet `MeshForwarder` summary.
pub open spec fn echoes_telemetry(line: Seq<u8>) -> bool {
    has_infix(line, ":9999".spec_bytes()) || has_infix(line, "12424".spec_bytes()) || has_infix(
        line,
        "Failed to find valid route".spec_bytes(),
    ) || has_infix(line, "MeshForwarder".spec_bytes())
}

/// Whether a (formatted) log line must be kept off the telemetry queue.
pub fn telemetry_suppressed(line: &str) -> (suppressed: bool)
    ensures
        suppressed == echoes_telemetry(line.spec_bytes()),
{
    let b = line.as_bytes();
    bytes_contain(b, ":9999".as_bytes()) || bytes_contain(b, "12424".as_bytes())
        || bytes_contain(b, "Failed to find valid route".as_bytes()) || bytes_contain(
        b,
        "MeshForwarder".as_bytes(),
    )
}

/// Bytes one telemetry datagram can carry.
pub const BATCH_CAPACITY: usize = 1400;

/// Most log lines in one telemetry datagram.
pub const MAX_BATCH_LINES: usize = 8;

/// The bytes held by a batch buffer.
pub uninterp spec fn batch_bytes(s: heapless::String<1400>) -> Seq<u8>;

/// `heapless::String::new`: an empty buffer.
#[verifier::external_body]
fn batch_new() -> (s: heapless::String<1400>)
    ensures
        batch_bytes(s) == Seq::<u8>::empty(),
{
    heapless::String::new()
}

/// `heapless::String::clear`: empties the buffer.
#[verifier::external_body]
fn batch_clear(s: &mut heapless::String<1400>)
    ensures
        batch_bytes(*final(s)) == Seq::<u8>::empty(),
{
    s.clear()
}

/// `heapless::String::push_str`: appends the bytes of `t` when they fit in
/// the 1400-byte capacity, and otherwise changes nothing and fails.
#[verifier::external_body]
fn batch_push_str(s: &mut heapless::String<1400>, t: &str) -> (pushed: bool)
    ensures
        pushed == (batch_bytes(*old(s)).len() + t.spec_bytes().len() <= 1400),
        pushed ==> batch_bytes(*final(s)) == batch_bytes(*old(s)) + t.spec_bytes(),
        !pushed ==> batch_bytes(*final(s)) == batch_bytes(*old(s)),
{
    s.push_str(t).is_ok()
}

/// `heapless::String::push`: appends an ASCII character as its single byte
/// when there is room for it, and otherwise changes nothing and fails.
#[verifier::external_body]
fn batch_push_char(s: &mut heapless::String<1400>, c: char) -> (pushed: bool)
    ensures
        (c as u32) < 0x80 ==> pushed == (batch_bytes(*old(s)).len() < 1400),
        (c as u32) < 0x80 && pushed ==> batch_bytes(*final(s)) == batch_bytes(*old(s)).push(
            c as u8,
        ),
        !pushed ==> batch_bytes(*final(s)) == batch_bytes(*old(s)),
{
    s.push(c).is_ok()
}

/// The length in bytes of the buffer (`str::len` through `Deref`).
#[verifier::external_body]
fn batch_len(s: &heapless::String<1400>) -> (n: usize)
    ensures
        n == batch_bytes(*s).len(),
{
    s.len()
}

/// `heapless::String::capacity`: the 1400 bytes the buffer type holds.
#[verifier::external_body]
fn batch_capacity(s: &heapless::String<1400>) -> (n: usize)
    ensures
        n == 1400,
{
    s.capacity()
}

/// `heapless::String::as_str`: the buffer's text, whose bytes are the
/// buffer's bytes.
#[verifier::external_body]
fn batch_str(s: &heapless::String<1400>) -> (t: &str)
    ensures
        t.spec_bytes() == batch_bytes(*s),
{
    s.as_str()
}

/// The abstract state of a [`LineBatch`].
pub struct BatchModel {
    pub bytes: Seq<u8>,
    pub lines: nat,
}

/// Log lines gathered into one datagram, separated by newlines.
pub struct LineBatch {
    text: heapless::String<1400>,
    lines: usize,
}

impl View for LineBatch {
    type V = BatchModel;

    closed spec fn view(&self) -> BatchModel {
        BatchModel { bytes: batch_bytes(self.text), lines: self.lines as nat }
    }
}

impl LineBatch {
    #[verifier::type_invariant]
    closed spec fn inv(self) -> bool {
        &&& self.lines <= MAX_BATCH_LINES
        &&& batch_bytes(self.text).len() <= BATCH_CAPACITY
    }

    /// An empty batch.
    pub fn new() -> (b: Self)
        ensures
            b@.bytes == Seq::<u8>::empty(),
            b@.lines == 0,
    {
        LineBatch { text: batch_new(), lines: 0 }
    }

    /// Starts a new batch with the line `first`, which is dropped when it
    /// alone exceeds the datagram capacity.
    pub fn start(&mut self, first: &str)
        ensures
            final(self)@.bytes == (if first.spec_bytes().len() <= BATCH_CAPACITY {
                first.spec_bytes()
            } else {
                Seq::<u8>::empty()
            }),
            final(self)@.lines == 1,
    {
        proof {
            use_type_invariant(&*self);
        }
        let mut text = batch_new();
        std::mem::swap(&mut text, &mut self.text);
        batch_clear(&mut text);
        let _ = batch_push_str(&mut text, first);
        self.text = text;
        self.lines = 1;
    }

    /// Whether the batch may take another line.
    pub fn has_line_room(&self) -> (room: bool)
        ensures
            room == (self@.lines < MAX_BATCH_LINES),
    {
        self.lines < MAX_BATCH_LINES
    }

    /// Appends `next` after a newline when both fit in the datagram;
    /// otherwise the batch is left as it is and `false` says the batch is
    /// full.
    pub fn try_add(&mut self, next: &str) -> (added: bool)
        requires
            old(self)@.lines < MAX_BATCH_LINES,
        ensures
            added == (old(self)@.bytes.len() + next.spec_bytes().len() + 1 <= BATCH_CAPACITY),
            added ==> final(self)@ == (BatchModel {
                bytes: old(self)@.bytes.push(10u8) + next.spec_bytes(),
                lines: old(self)@.lines + 1,
            }),
            !added ==> final(self)@ == old(self)@,
    {
        proof {
            use_type_invariant(&*self);
        }
        let len = batch_len(&self.text);
        let cap = batch_capacity(&self.text);
        let next_len = next.as_bytes().len();
        if next_len > cap || len + next_len + 1 > cap {
            return false;
        }
        let mut text = batch_new();
        std::mem::swap(&mut text, &mut self.text);
        assert(('\n' as u32) < 0x80);
        assert(('\n' as u8) == 10u8);
        let ok1 = batch_push_char(&mut text, '\n');
        assert(ok1);
        let ok2 = batch_push_str(&mut text, next);
        assert(ok2);
        self.text = text;
        self.lines = self.lines + 1;
        true
    }

    /// The datagram payload.
    pub fn bytes(&self) -> (b: &[u8])
        ensures
            b@ == self@.bytes,
            b@.len() <= BATCH_CAPACITY,
    {
        proof {
            use_type_invariant(self);
        }
        batch_str(&self.text).as_bytes()
    }
}

/// Lines joined by newlines.
pub open spec fn joined(lines: Seq<Seq<u8>>) -> Seq<u8>
    decreases lines.len(),
{
    if lines.len() == 0 {
        Seq::empty()
    } else if lines.len() == 1 {
        lines[0]
    } else {
        joined(lines.drop_last()).push(10u8) + lines.last()
    }
}

/// The batch after the sending loop has offered it the queued lines
/// `queue` in order ([`LineBatch::has_line_room`] checked before each line
/// is taken, [`LineBatch::try_add`] applied to it): lines are appended while
/// the batch has room for another line and the line fits; the first line
/// that does not fit ends the batch.
pub open spec fn fill(b: BatchModel, queue: Seq<Seq<u8>>) -> BatchModel
    decreases queue.len(),
{
    if b.lines >= MAX_BATCH_LINES || queue.len() == 0 {
        b
    } else if b.bytes.len() + queue[0].len() + 1 <= BATCH_CAPACITY {
        fill(
            BatchModel { bytes: b.bytes.push(10u8) + queue[0], lines: b.lines + 1 },
            queue.drop_first(),
        )
    } else {
        b
    }
}

proof fn lemma_fill_joins(lines: Seq<Seq<u8>>, b: BatchModel, queue: Seq<Seq<u8>>)
    requires
        lines.len() >= 1,
        b.bytes == joined(lines),
        b.lines == lines.len(),
        b.lines <= MAX_BATCH_LINES,
        b.bytes.len() <= BATCH_CAPACITY,
    ensures
        b.lines <= fill(b, queue).lines <= MAX_BATCH_LINES,
        fill(b, queue).lines - b.lines <= queue.len(),
        fill(b, queue).bytes == joined(lines + queue.take(fill(b, queue).lines - b.lines)),
        fill(b, queue).bytes.len() <= BATCH_CAPACITY,
        fill(b, queue).lines < MAX_BATCH_LINES && fill(b, queue).lines - b.lines < queue.len()
            ==> fill(b, queue).bytes.len() + queue[fill(b, queue).lines - b.lines].len() + 1
            > BATCH_CAPACITY,
    decreases queue.len(),
{
    if b.lines >= MAX_BATCH_LINES || queue.len() == 0 {
        assert(lines + queue.take(0) =~= lines);
    } else if b.bytes.len() + queue[0].len() + 1 <= BATCH_CAPACITY {
        let next = BatchModel { bytes: b.bytes.push(10u8) + queue[0], lines: b.lines + 1 };
        let more = lines.push(queue[0]);
        assert(more.drop_last() =~= lines);
        lemma_fill_joins(more, next, queue.drop_first());
        let k = (fill(b, queue).lines - next.lines) as int;
        assert(more + queue.drop_first().take(k) =~= lines + queue.take(k + 1));
        if k < queue.drop_first().len() {
            assert(queue.drop_first()[k] == queue[k + 1]);
        }
    } else {
        assert(lines + queue.take(0) =~= lines);
    }
}

/// Every telemetry datagram is whole log lines: started with `first` (at
/// most [`BATCH_CAPACITY`] bytes, as every queued line is) and offered the
/// queued lines that follow, its payload is `first` and the next queued
/// lines in queue order — between 1 and [`MAX_BATCH_LINES`] lines in all —
/// joined by `'\n'`, and at most [`BATCH_CAPACITY`] bytes; it stops short
/// of [`MAX_BATCH_LINES`] lines only at the end of the queue or at a line
/// that, with its newline, would overflow the datagram.
pub proof fn lemma_batch_is_whole_lines(first: Seq<u8>, queue: Seq<Seq<u8>>)
    requires
        first.len() <= BATCH_CAPACITY,
    ensures
        ({
            let b = fill(BatchModel { bytes: first, lines: 1 }, queue);
            &&& 1 <= b.lines <= MAX_BATCH_LINES
            &&& b.lines - 1 <= queue.len()
            &&& b.bytes == joined(seq![first] + queue.take(b.lines - 1))
            &&& b.bytes.len() <= BATCH_CAPACITY
            &&& b.lines < 8 && b.lines - 1 < queue.len() ==> b.bytes.len() + queue[b.lines
                - 1].len() + 1 > 1400
        }),
{
    assert(joined(seq![first]) == first);
    lemma_fill_joins(seq![first], BatchModel { bytes: first, lines: 1 }, queue);
}

/// Interval between telemetry heartbeats.
pub const HEARTBEAT_MS: u64 = 10_000;

/// Batches per heartbeat window beyond which the stream is echoing itself.
pub const STORM_BATCHES: u32 = 300;

/// How long every sink pauses after an echo storm.
pub const STORM_PAUSE_MS: u64 = 10_000;

/// Consecutive send errors after which a sink pauses.
pub const SINK_FAILURE_LIMIT: u8 = 5;

/// How long a failing sink pauses.
pub const SINK_PAUSE_MS: u64 = 30_000;

/// Number of telemetry sinks tracked.
pub const SINKS: usize = 2;

/// `t + d`, saturating at the largest timestamp.
pub open spec fn deadline(t: u64, d: u64) -> u64 {
    if t + d <= u64::MAX {
        (t + d) as u64
    } else {
        u64::MAX
    }
}

/// The send record of one sink.
#[derive(Debug, Clone, Copy)]
pub struct SinkHealth {
    /// Datagrams sent.
    pub ok: u32,
    /// Datagrams that failed.
    pub err: u32,
    /// Failures since the last success or pause.
    pub consec: u8,
    /// The sink is paused until this time.
    pub bench_until_ms: u64,
}

/// The record of a sink after a send at `now_ms` that succeeded (`sent`)
/// or failed: a success counts and ends the failure run; a failure counts
/// and extends the run (saturating), and the [`SINK_FAILURE_LIMIT`]-th
/// failure in a row pauses the sink for [`SINK_PAUSE_MS`] and starts the
/// run over.
pub open spec fn sink_after_send(s: SinkHealth, sent: bool, now_ms: u64) -> SinkHealth {
    if sent {
        SinkHealth { ok: (s.ok + 1) as u32, consec: 0, ..s }
    } else {
        let run: u8 = if s.consec < 255 {
            (s.consec + 1) as u8
        } else {
            255u8
        };
        if run >= SINK_FAILURE_LIMIT {
            SinkHealth {
                err: (s.err + 1) as u32,
                consec: 0,
                bench_until_ms: deadline(now_ms, SINK_PAUSE_MS),
                ..s
            }
        } else {
            SinkHealth { err: (s.err + 1) as u32, consec: run, ..s }
        }
    }
}

/// The record of a sink after the sends `history` (each whether it
/// succeeded, and when), in order, starting from `s`.
pub open spec fn sink_after_sends(s: SinkHealth, history: Seq<(bool, u64)>) -> SinkHealth
    decreases history.len(),
{
    if history.len() == 0 {
        s
    } else {
        sink_after_send(sink_after_sends(s, history.drop_last()), history.last().0, history.last().1)
    }
}

/// The number of failed sends that `history` ends with.
pub open spec fn trailing_failures(history: Seq<(bool, u64)>) -> nat
    decreases history.len(),
{
    if history.len() == 0 {
        0
    } else if history.last().0 {
        0
    } else {
        trailing_failures(history.drop_last()) + 1
    }
}

/// Some send of `window` succeeded.
pub open spec fn has_success(window: Seq<(bool, u64)>) -> bool {
    exists|j: int| 0 <= j < window.len() && (#[trigger] window[j]).0
}

/// The last `trailing_failures` sends of a history all failed.
proof fn lemma_trailing_failed(history: Seq<(bool, u64)>)
    ensures
        trailing_failures(history) <= history.len(),
        forall|j: int|
            history.len() - trailing_failures(history) <= j < history.len() ==> !(
            #[trigger] history[j]).0,
    decreases history.len(),
{
    if history.len() > 0 {
        let prefix = history.drop_last();
        lemma_trailing_failed(prefix);
        assert forall|j: int|
            history.len() - trailing_failures(history) <= j < history.len() implies !(
            #[trigger] history[j]).0 by {
            if j < history.len() - 1 {
                assert(history[j] == prefix[j]);
            }
        }
    }
}

/// A sink pauses only after [`SINK_FAILURE_LIMIT`] failures in a row:
/// starting from no failure run, a history in which every
/// [`SINK_FAILURE_LIMIT`] consecutive sends hold a success never moves the
/// pause, however many failures it holds in all, and the run it leaves is
/// the number of failures it ends with.
pub proof fn lemma_pause_needs_failure_run(s: SinkHealth, history: Seq<(bool, u64)>)
    requires
        s.consec == 0,
        forall|i: int|
            0 <= i && i + 5 <= history.len() ==> #[trigger] has_success(history.subrange(i, i + 5)),
    ensures
        sink_after_sends(s, history).bench_until_ms == s.bench_until_ms,
        sink_after_sends(s, history).consec == trailing_failures(history),
        trailing_failures(history) < 5,
    decreases history.len(),
{
    if history.len() > 0 {
        let n = history.len() as int;
        let prefix = history.drop_last();
        assert forall|i: int| 0 <= i && i + 5 <= prefix.len() implies #[trigger] has_success(
            prefix.subrange(i, i + 5),
        ) by {
            assert(prefix.subrange(i, i + 5) =~= history.subrange(i, i + 5));
        }
        lemma_pause_needs_failure_run(s, prefix);
        lemma_trailing_failed(history);
        if trailing_failures(history) >= 5 {
            let w = history.subrange(n - 5, n - 5 + 5);
            assert(has_success(w));
            let j = choose|j: int| 0 <= j < w.len() && (#[trigger] w[j]).0;
            assert(w[j] == history[n - 5 + j]);
            assert(false);
        }
    }
}

/// How many sends of `history` succeeded (`sent`) or failed.
pub open spec fn sends_with(history: Seq<(bool, u64)>, sent: bool) -> nat
    decreases history.len(),
{
    if history.len() == 0 {
        0
    } else {
        sends_with(history.drop_last(), sent) + (if history.last().0 == sent {
            1nat
        } else {
            0nat
        })
    }
}

/// Every send stays counted: after any sends, a sink's success count grows
/// by the number that succeeded and its failure count by the number that
/// failed, pauses or not, while the counts fit.
pub proof fn lemma_sink_counts_every_send(s: SinkHealth, history: Seq<(bool, u64)>)
    requires
        s.ok + sends_with(history, true) <= u32::MAX,
        s.err + sends_with(history, false) <= u32::MAX,
    ensures
        sink_after_sends(s, history).ok == s.ok + sends_with(history, true),
        sink_after_sends(s, history).err == s.err + sends_with(history, false),
    decreases history.len(),
{
    if history.len() > 0 {
        lemma_sink_counts_every_send(s, history.drop_last());
    }
}

/// [`SINK_FAILURE_LIMIT`] failures in a row pause the sink: starting from
/// no failure run, five failed sends pause it for [`SINK_PAUSE_MS`] from
/// the fifth, and the run starts over.
pub proof fn lemma_failure_run_pauses(s: SinkHealth, history: Seq<(bool, u64)>)
    requires
        s.consec == 0,
        history.len() == 5,
        forall|j: int| 0 <= j < 5 ==> !(#[trigger] history[j]).0,
    ensures
        sink_after_sends(s, history).bench_until_ms == deadline(history[4].1, 30_000),
        sink_after_sends(s, history).consec == 0,
{
    let h1 = history.take(1);
    let h2 = history.take(2);
    let h3 = history.take(3);
    let h4 = history.take(4);
    assert(h1.drop_last().len() == 0);
    assert(h1.last() == history[0] && h2.last() == history[1] && h3.last() == history[2]);
    assert(h4.last() == history[3] && history.last() == history[4]);
    assert(h2.drop_last() =~= h1);
    assert(h3.drop_last() =~= h2);
    assert(h4.drop_last() =~= h3);
    assert(history.drop_last() =~= h4);
    assert(!history[0].0 && !history[1].0 && !history[2].0 && !history[3].0 && !history[4].0);
    assert(sink_after_sends(s, h1.drop_last()) == s);
    assert(sink_after_sends(s, h1).consec == 1);
    assert(sink_after_sends(s, h2).consec == 2);
    assert(sink_after_sends(s, h3).consec == 3);
    assert(sink_after_sends(s, h4).consec == 4);
}

/// The abstract state of [`TelemetryHealth`].
pub struct HealthModel {
    pub sinks: Seq<SinkHealth>,
    pub last_heartbeat_ms: u64,
    pub window_batches: u32,
}

/// Send counters, pauses and the echo-storm circuit breaker of the
/// telemetry stream.
pub struct TelemetryHealth {
    first: SinkHealth,
    second: SinkHealth,
    last_heartbeat_ms: u64,
    window_batches: u32,
}

impl View for TelemetryHealth {
    type V = HealthModel;

    closed spec fn view(&self) -> HealthModel {
        HealthModel {
            sinks: seq![self.first, self.second],
            last_heartbeat_ms: self.last_heartbeat_ms,
            window_batches: self.window_batches,
        }
    }
}

/// The record of a sink with its pause moved to `until`.
fn paused_until(s: SinkHealth, until: u64) -> (r: SinkHealth)
    ensures
        r == (SinkHealth { bench_until_ms: until, ..s }),
{
    SinkHealth { bench_until_ms: until, ..s }
}

/// The record of a sink after a send at `now_ms`.
fn after_send(s: SinkHealth, sent: bool, now_ms: u64) -> (r: SinkHealth)
    requires
        sent ==> s.ok < u32::MAX,
        !sent ==> s.err < u32::MAX,
    ensures
        r == sink_after_send(s, sent, now_ms),
{
    let mut s = s;
    if sent {
        s.ok = s.ok + 1;
        s.consec = 0;
    } else {
        s.err = s.err + 1;
        s.consec = s.consec.saturating_add(1);
        if s.consec >= SINK_FAILURE_LIMIT {
            s.bench_until_ms = now_ms.saturating_add(SINK_PAUSE_MS);
            s.consec = 0;
        }
    }
    s
}

impl TelemetryHealth {
    /// Every telemetry health record tracks exactly [`SINKS`] sinks.
    pub proof fn lemma_sink_count(&self)
        ensures
            self@.sinks.len() == SINKS,
    {
    }

    /// Fresh counters at `now_ms`: nothing sent, nothing paused.
    pub fn new(now_ms: u64) -> (h: Self)
        ensures
            h@.sinks.len() == SINKS,
            forall|i: int|
                0 <= i < SINKS ==> (#[trigger] h@.sinks[i]).ok == 0 && h@.sinks[i].err == 0
                    && h@.sinks[i].consec == 0 && h@.sinks[i].bench_until_ms == 0,
            h@.last_heartbeat_ms == now_ms,
            h@.window_batches == 0,
    {
        let fresh = SinkHealth { ok: 0, err: 0, consec: 0, bench_until_ms: 0 };
        TelemetryHealth { first: fresh, second: fresh, last_heartbeat_ms: now_ms, window_batches: 0 }
    }

    /// The send record of sink `i`.
    pub fn sink(&self, i: usize) -> (s: SinkHealth)
        requires
            i < SINKS,
        ensures
            s == self@.sinks[i as int],
    {
        if i == 0 {
            self.first
        } else {
            self.second
        }
    }

    /// When the next heartbeat is due.
    pub fn next_heartbeat_ms(&self) -> (t: u64)
        ensures
            t == deadline(self@.last_heartbeat_ms, HEARTBEAT_MS),
    {
        self.last_heartbeat_ms.saturating_add(HEARTBEAT_MS)
    }

    /// Whether a heartbeat is due at `now_ms`.
    pub fn heartbeat_due(&self, now_ms: u64) -> (due: bool)
        ensures
            due == (now_ms >= self@.last_heartbeat_ms + HEARTBEAT_MS),
    {
        now_ms >= self.last_heartbeat_ms && now_ms - self.last_heartbeat_ms >= HEARTBEAT_MS
    }

    /// Closes the heartbeat window at `now_ms`. When the window carried more
    /// than [`STORM_BATCHES`] batches, every sink pauses for
    /// [`STORM_PAUSE_MS`] and the batch count is returned.
    pub fn heartbeat(&mut self, now_ms: u64) -> (storm: Option<u32>)
        ensures
            storm == (if old(self)@.window_batches > STORM_BATCHES {
                Some(old(self)@.window_batches)
            } else {
                None
            }),
            final(self)@.last_heartbeat_ms == now_ms,
            final(self)@.window_batches == 0,
            final(self)@.sinks.len() == SINKS,
            forall|i: int|
                0 <= i < SINKS ==> #[trigger] final(self)@.sinks[i] == (if old(
                    self,
                )@.window_batches > STORM_BATCHES {
                    SinkHealth {
                        bench_until_ms: deadline(now_ms, STORM_PAUSE_MS),
                        ..old(self)@.sinks[i]
                    }
                } else {
                    old(self)@.sinks[i]
                }),
    {
        self.last_heartbeat_ms = now_ms;
        let storm = if self.window_batches > STORM_BATCHES {
            let until = now_ms.saturating_add(STORM_PAUSE_MS);
            self.first = paused_until(self.first, until);
            self.second = paused_until(self.second, until);
            Some(self.window_batches)
        } else {
            None
        };
        self.window_batches = 0;
        storm
    }

    /// Whether sink `i` may send at `now_ms` (it is not paused).
    pub fn sink_ready(&self, i: usize, now_ms: u64) -> (ready: bool)
        requires
            i < SINKS,
        ensures
            ready == (now_ms >= self@.sinks[i as int].bench_until_ms),
    {
        now_ms >= self.sink(i).bench_until_ms
    }

    /// Records the outcome of a send to sink `i` at `now_ms` (see
    /// [`sink_after_send`]).
    pub fn record_send(&mut self, i: usize, sent: bool, now_ms: u64)
        requires
            i < SINKS,
            sent ==> old(self)@.sinks[i as int].ok < u32::MAX,
            !sent ==> old(self)@.sinks[i as int].err < u32::MAX,
        ensures
            final(self)@.last_heartbeat_ms == old(self)@.last_heartbeat_ms,
            final(self)@.window_batches == old(self)@.window_batches,
            final(self)@.sinks == old(self)@.sinks.update(
                i as int,
                sink_after_send(old(self)@.sinks[i as int], sent, now_ms),
            ),
            sent || old(self)@.sinks[i as int].consec + 1 < 5 ==> final(self)@.sinks[i as int].bench_until_ms
                == old(self)@.sinks[i as int].bench_until_ms,
            !sent && old(self)@.sinks[i as int].consec + 1 == 5 ==> final(self)@.sinks[
                i as int
            ].bench_until_ms == deadline(now_ms, 30_000) && final(self)@.sinks[i as int].consec == 0,
    {
        if i == 0 {
            self.first = after_send(self.first, sent, now_ms);
        } else {
            self.second = after_send(self.second, sent, now_ms);
        }
        assert(self@.sinks =~= old(self)@.sinks.update(
            i as int,
            sink_after_send(old(self)@.sinks[i as int], sent, now_ms),
        ));
    }

    /// Batches sent in the current heartbeat window.
    pub fn window_batches(&self) -> (n: u32)
        ensures
            n == self@.window_batches,
    {
        self.window_batches
    }

    /// Counts a batch that went to at least one sink.
    pub fn batch_sent(&mut self)
        requires
            old(self)@.window_batches < u32::MAX,
        ensures
            final(self)@.window_batches == old(self)@.window_batches + 1,
            final(self)@.sinks == old(self)@.sinks,
            final(self)@.last_heartbeat_ms == old(self)@.last_heartbeat_ms,
    {
        self.window_batches = self.window_batches + 1;
    }
}

} // verus!
