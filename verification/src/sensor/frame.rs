//! Recovery of LD2410 report frames from the UART byte stream.
//!
//! ```text
//! F4 F3 F2 F1 | len(u16 LE) | <intra-frame data> | F8 F7 F6 F5
//! ```
//! [`FrameReader`] consumes one byte at a time. It first resynchronizes on
//! the 4-byte header (so a mid-stream start recovers), then takes the
//! length, the data and the footer. A length of zero or beyond the data
//! capacity, or a footer that does not match, is an error, after which the
//! reader searches for the next header.
use vstd::prelude::*;

verus! {

/// The 4-byte header that opens every report frame.
pub open spec fn report_header() -> Seq<u8> {
    seq![0xF4u8, 0xF3u8, 0xF2u8, 0xF1u8]
}

/// The 4-byte footer that closes every report frame.
pub open spec fn report_footer() -> Seq<u8> {
    seq![0xF8u8, 0xF7u8, 0xF6u8, 0xF5u8]
}

fn header_byte(i: usize) -> (b: u8)
    requires
        i < 4,
    ensures
        b == report_header()[i as int],
{
    if i == 0 {
        0xF4
    } else if i == 1 {
        0xF3
    } else if i == 2 {
        0xF2
    } else {
        0xF1
    }
}

fn footer_byte(i: usize) -> (b: u8)
    requires
        i < 4,
    ensures
        b == report_footer()[i as int],
{
    if i == 0 {
        0xF8
    } else if i == 1 {
        0xF7
    } else if i == 2 {
        0xF6
    } else {
        0xF5
    }
}

/// Errors found in a frame's own bytes.
#[derive(Debug, Clone, Copy, PartialEq, Eq, Structural)]
pub enum FrameError {
    /// Length field is zero or exceeds the data capacity (likely desync or
    /// wrong baud).
    TooLong(usize),
    /// Footer bytes did not match — frame boundary lost.
    BadFooter,
}

/// What one byte completed.
#[derive(Debug, Clone, Copy, PartialEq, Eq, Structural)]
pub enum FrameEvent {
    /// The frame is not complete yet.
    Pending,
    /// A whole frame arrived; its data is [`FrameReader::data`].
    Frame,
    /// The frame was malformed; the reader looks for the next header.
    Error(FrameError),
}

/// Where the reader stands within a frame.
#[derive(Debug, Clone, Copy)]
pub enum FramePhase {
    /// Searching for the header; `matched` bytes of it seen last.
    Header { matched: usize },
    /// Reading the length; `low` is its first byte once read.
    Length { low: Option<u8> },
    /// Reading `len` bytes of data.
    Data { len: usize },
    /// Reading the footer; `seen` bytes of it read, all equal so far when
    /// `intact`.
    Footer { len: usize, seen: usize, intact: bool },
}

/// The abstract state of a [`FrameReader`].
pub struct ReaderModel {
    pub phase: FramePhase,
    pub data: Seq<u8>,
    pub capacity: usize,
}

impl ReaderModel {
    /// The reader's state is consistent.
    pub open spec fn wf(self) -> bool {
        match self.phase {
            FramePhase::Header { matched } => matched < 4,
            FramePhase::Length { .. } => true,
            FramePhase::Data { len } => self.data.len() < len <= self.capacity,
            FramePhase::Footer { len, seen, .. } => seen < 4 && self.data.len() == len,
        }
    }

    /// The state and event after one byte.
    pub open spec fn step(self, byte: u8) -> (ReaderModel, FrameEvent) {
        match self.phase {
            FramePhase::Header { matched } => {
                let next = if byte == report_header()[matched as int] {
                    matched + 1
                } else if byte == report_header()[0] {
                    1int
                } else {
                    0int
                };
                if next == 4 {
                    (ReaderModel { phase: FramePhase::Length { low: None }, ..self }, FrameEvent::Pending)
                } else {
                    (ReaderModel { phase: FramePhase::Header { matched: next as usize }, ..self }, FrameEvent::Pending)
                }
            },
            FramePhase::Length { low: None } => (
                ReaderModel { phase: FramePhase::Length { low: Some(byte) }, ..self },
                FrameEvent::Pending,
            ),
            FramePhase::Length { low: Some(lo) } => {
                let len = lo + 256 * byte;
                if len == 0 || len > self.capacity {
                    (
                        ReaderModel { phase: FramePhase::Header { matched: 0 }, ..self },
                        FrameEvent::Error(FrameError::TooLong(len as usize)),
                    )
                } else {
                    (
                        ReaderModel {
                            phase: FramePhase::Data { len: len as usize },
                            data: Seq::empty(),
                            capacity: self.capacity,
                        },
                        FrameEvent::Pending,
                    )
                }
            },
            FramePhase::Data { len } => {
                let data = self.data.push(byte);
                if data.len() == len {
                    (
                        ReaderModel {
                            phase: FramePhase::Footer { len, seen: 0, intact: true },
                            data,
                            capacity: self.capacity,
                        },
                        FrameEvent::Pending,
                    )
                } else {
                    (ReaderModel { phase: FramePhase::Data { len }, data, capacity: self.capacity }, FrameEvent::Pending)
                }
            },
            FramePhase::Footer { len, seen, intact } => {
                let intact = intact && byte == report_footer()[seen as int];
                if seen + 1 == 4 {
                    (
                        ReaderModel { phase: FramePhase::Header { matched: 0 }, ..self },
                        if intact {
                            FrameEvent::Frame
                        } else {
                            FrameEvent::Error(FrameError::BadFooter)
                        },
                    )
                } else {
                    (
                        ReaderModel {
                            phase: FramePhase::Footer { len, seen: (seen + 1) as usize, intact },
                            ..self
                        },
                        FrameEvent::Pending,
                    )
                }
            },
        }
    }

    /// The state after `bytes`, and the event of each byte in order.
    pub open spec fn feed(self, bytes: Seq<u8>) -> (ReaderModel, Seq<FrameEvent>)
        decreases bytes.len(),
    {
        if bytes.len() == 0 {
            (self, Seq::empty())
        } else {
            let (m, events) = self.feed(bytes.drop_last());
            let (m2, e) = m.step(bytes.last());
            (m2, events.push(e))
        }
    }
}

/// The bytes of a frame that carries `payload`.
pub open spec fn encode_frame(payload: Seq<u8>) -> Seq<u8> {
    report_header() + seq![(payload.len() % 256) as u8, (payload.len() / 256) as u8] + payload
        + report_footer()
}

/// `n` events that complete nothing.
pub open spec fn pending(n: nat) -> Seq<FrameEvent> {
    Seq::new(n, |i: int| FrameEvent::Pending)
}

/// Feeding `a` then `b` is feeding their concatenation.
proof fn lemma_feed_append(m: ReaderModel, a: Seq<u8>, b: Seq<u8>)
    ensures
        m.feed(a + b) == (m.feed(a).0.feed(b).0, m.feed(a).1 + m.feed(a).0.feed(b).1),
    decreases b.len(),
{
    if b.len() == 0 {
        assert(a + b =~= a);
        assert(m.feed(a).1 + Seq::<FrameEvent>::empty() =~= m.feed(a).1);
    } else {
        lemma_feed_append(m, a, b.drop_last());
        assert((a + b).drop_last() =~= a + b.drop_last());
        assert((a + b).last() == b.last());
        let mid = m.feed(a).0;
        assert(m.feed(a).1 + mid.feed(b.drop_last()).1.push(mid.feed(b.drop_last()).0.step(
            b.last(),
        ).1) =~= (m.feed(a).1 + mid.feed(b.drop_last()).1).push(
            mid.feed(b.drop_last()).0.step(b.last()).1,
        ));
    }
}

/// Feeding `s` then `b` is feeding `s.push(b)`.
proof fn lemma_feed_push(m: ReaderModel, s: Seq<u8>, b: u8)
    ensures
        m.feed(s.push(b)) == (m.feed(s).0.step(b).0, m.feed(s).1.push(m.feed(s).0.step(b).1)),
{
    assert(s.push(b).drop_last() =~= s);
}

/// From anywhere in the header search, the four header bytes complete it.
proof fn lemma_feed_header(m: ReaderModel)
    requires
        m.phase matches FramePhase::Header { matched } && matched < 4,
    ensures
        m.feed(report_header()) == (
            ReaderModel { phase: FramePhase::Length { low: None }, ..m },
            pending(4),
        ),
{
    let h = report_header();
    let s0 = Seq::<u8>::empty();
    assert(h =~= s0.push(0xF4u8).push(0xF3u8).push(0xF2u8).push(0xF1u8));
    lemma_feed_push(m, s0, 0xF4u8);
    lemma_feed_push(m, s0.push(0xF4u8), 0xF3u8);
    lemma_feed_push(m, s0.push(0xF4u8).push(0xF3u8), 0xF2u8);
    lemma_feed_push(m, s0.push(0xF4u8).push(0xF3u8).push(0xF2u8), 0xF1u8);
    assert(m.feed(s0.push(0xF4u8)).0.phase == FramePhase::Header { matched: 1 });
    assert(m.feed(s0.push(0xF4u8).push(0xF3u8)).0.phase == FramePhase::Header { matched: 2 });
    assert(m.feed(s0.push(0xF4u8).push(0xF3u8).push(0xF2u8)).0.phase == FramePhase::Header {
        matched: 3,
    });
    assert(m.feed(h).1 =~= pending(4));
}

/// Two length bytes that give an acceptable length start the data.
proof fn lemma_feed_length(m: ReaderModel, n: nat)
    requires
        m.phase == (FramePhase::Length { low: None }),
        0 < n <= m.capacity,
        n <= 0xffff,
    ensures
        m.feed(seq![(n % 256) as u8, (n / 256) as u8]) == (
            ReaderModel { phase: FramePhase::Data { len: n as usize }, data: Seq::empty(), capacity: m.capacity },
            pending(2),
        ),
{
    let lo = (n % 256) as u8;
    let hi = (n / 256) as u8;
    let s0 = Seq::<u8>::empty();
    assert(seq![lo, hi] =~= s0.push(lo).push(hi));
    lemma_feed_push(m, s0, lo);
    lemma_feed_push(m, s0.push(lo), hi);
    assert(lo + 256 * hi == n);
    assert(m.feed(seq![lo, hi]).1 =~= pending(2));
}

/// Two length bytes that give a length of zero or beyond the capacity are
/// an error, and the search for a header starts over.
proof fn lemma_feed_bad_length(m: ReaderModel, n: nat)
    requires
        m.phase == (FramePhase::Length { low: None }),
        n <= 0xffff,
        n == 0 || n > m.capacity,
    ensures
        m.feed(seq![(n % 256) as u8, (n / 256) as u8]) == (
            ReaderModel { phase: FramePhase::Header { matched: 0 }, ..m },
            seq![FrameEvent::Pending, FrameEvent::Error(FrameError::TooLong(n as usize))],
        ),
{
    let lo = (n % 256) as u8;
    let hi = (n / 256) as u8;
    let s0 = Seq::<u8>::empty();
    assert(seq![lo, hi] =~= s0.push(lo).push(hi));
    lemma_feed_push(m, s0, lo);
    lemma_feed_push(m, s0.push(lo), hi);
    assert(lo + 256 * hi == n);
    assert(m.feed(seq![lo, hi]).1 =~= seq![
        FrameEvent::Pending,
        FrameEvent::Error(FrameError::TooLong(n as usize)),
    ]);
}

/// Data bytes accumulate until the announced length is reached.
proof fn lemma_feed_data(m: ReaderModel, p: Seq<u8>)
    requires
        m.wf(),
        m.phase matches FramePhase::Data { len } && m.data.len() + p.len() <= len,
    ensures
        m.feed(p).0.data == m.data + p,
        m.feed(p).0.capacity == m.capacity,
        m.feed(p).1 == pending(p.len()),
        m.feed(p).0.phase == (if m.data.len() + p.len() == m.phase->Data_len {
            FramePhase::Footer { len: m.phase->Data_len, seen: 0, intact: true }
        } else {
            FramePhase::Data { len: m.phase->Data_len }
        }),
    decreases p.len(),
{
    if p.len() == 0 {
        assert(m.data + p =~= m.data);
        assert(pending(0) =~= Seq::<FrameEvent>::empty());
    } else {
        lemma_feed_data(m, p.drop_last());
        assert(m.data + p.drop_last() + seq![p.last()] =~= m.data + p);
        assert((m.data + p.drop_last()).push(p.last()) =~= m.data + p);
        assert(pending((p.len() - 1) as nat).push(FrameEvent::Pending) =~= pending(p.len()));
    }
}

/// Four footer bytes complete the frame when each equals the report
/// footer's byte at its place, and fail it otherwise.
proof fn lemma_feed_footer(m: ReaderModel, f: Seq<u8>)
    requires
        m.phase matches FramePhase::Footer { seen, intact, .. } && seen == 0 && intact,
        f.len() == 4,
    ensures
        m.feed(f) == (
            ReaderModel { phase: FramePhase::Header { matched: 0 }, ..m },
            pending(3).push(
                if f == seq![0xF8u8, 0xF7u8, 0xF6u8, 0xF5u8] {
                    FrameEvent::Frame
                } else {
                    FrameEvent::Error(FrameError::BadFooter)
                },
            ),
        ),
{
    let s0 = Seq::<u8>::empty();
    let s1 = s0.push(f[0]);
    let s2 = s1.push(f[1]);
    let s3 = s2.push(f[2]);
    assert(f =~= s3.push(f[3]));
    lemma_feed_push(m, s0, f[0]);
    lemma_feed_push(m, s1, f[1]);
    lemma_feed_push(m, s2, f[2]);
    lemma_feed_push(m, s3, f[3]);
    let all = f[0] == 0xF8u8 && f[1] == 0xF7u8 && f[2] == 0xF6u8 && f[3] == 0xF5u8;
    assert(m.feed(s3).0.phase matches FramePhase::Footer { seen, intact, .. } && seen == 3
        && intact == (f[0] == 0xF8u8 && f[1] == 0xF7u8 && f[2] == 0xF6u8));
    if all {
        assert(f =~= seq![0xF8u8, 0xF7u8, 0xF6u8, 0xF5u8]);
    } else {
        assert(f != seq![0xF8u8, 0xF7u8, 0xF6u8, 0xF5u8]) by {
            if f == seq![0xF8u8, 0xF7u8, 0xF6u8, 0xF5u8] {
                assert(f[0] == 0xF8u8 && f[1] == 0xF7u8 && f[2] == 0xF6u8 && f[3] == 0xF5u8);
            }
        }
    }
    assert(m.feed(f).1 =~= pending(3).push(m.feed(f).1.last()));
}

/// A well-formed frame is recovered from any point of the header search:
/// every byte but the last completes nothing, the last completes the frame,
/// the reader then holds exactly the frame's data and searches for the next
/// header.
pub proof fn lemma_reads_encoded_frame(m: ReaderModel, payload: Seq<u8>)
    requires
        m.phase matches FramePhase::Header { matched } && matched < 4,
        0 < payload.len() <= m.capacity,
        payload.len() <= 0xffff,
    ensures
        m.feed(encode_frame(payload)) == (
            ReaderModel { phase: FramePhase::Header { matched: 0 }, data: payload, capacity: m.capacity },
            pending((payload.len() + 9) as nat).push(FrameEvent::Frame),
        ),
{
    let n = payload.len();
    let h = report_header();
    let l = seq![(n % 256) as u8, (n / 256) as u8];
    let f = report_footer();
    lemma_feed_header(m);
    let m1 = m.feed(h).0;
    lemma_feed_length(m1, n);
    let m2 = m1.feed(l).0;
    lemma_feed_data(m2, payload);
    let m3 = m2.feed(payload).0;
    assert(m2.data + payload =~= payload);
    assert(f =~= seq![0xF8u8, 0xF7u8, 0xF6u8, 0xF5u8]);
    lemma_feed_footer(m3, f);
    lemma_feed_append(m, h, l);
    lemma_feed_append(m, h + l, payload);
    lemma_feed_append(m, h + l + payload, f);
    assert(encode_frame(payload) == h + l + payload + f);
    assert(pending(4) + pending(2) + pending(n) + pending(3).push(FrameEvent::Frame)
        =~= pending((n + 9) as nat).push(FrameEvent::Frame));
}

/// A frame is accepted only with its exact footer: from any point of the
/// header search, a header, an acceptable length, that many data bytes and
/// any four closing bytes complete nothing before the last byte, and the
/// last byte completes the frame when the four bytes are F8 F7 F6 F5 and
/// is a footer error otherwise (a single wrong byte, the last included,
/// rejects the frame). Either way the reader holds the data and searches
/// for the next header.
pub proof fn lemma_footer_decides_frame(m: ReaderModel, payload: Seq<u8>, footer: Seq<u8>)
    requires
        m.phase matches FramePhase::Header { matched } && matched < 4,
        0 < payload.len() <= m.capacity,
        payload.len() <= 0xffff,
        footer.len() == 4,
    ensures
        m.feed(
            seq![0xF4u8, 0xF3u8, 0xF2u8, 0xF1u8] + seq![
                (payload.len() % 256) as u8,
                (payload.len() / 256) as u8,
            ] + payload + footer,
        ) == (
            ReaderModel { phase: FramePhase::Header { matched: 0 }, data: payload, capacity: m.capacity },
            pending((payload.len() + 9) as nat).push(
                if footer == seq![0xF8u8, 0xF7u8, 0xF6u8, 0xF5u8] {
                    FrameEvent::Frame
                } else {
                    FrameEvent::Error(FrameError::BadFooter)
                },
            ),
        ),
{
    let n = payload.len();
    let h = report_header();
    let l = seq![(n % 256) as u8, (n / 256) as u8];
    assert(h =~= seq![0xF4u8, 0xF3u8, 0xF2u8, 0xF1u8]);
    lemma_feed_header(m);
    let m1 = m.feed(h).0;
    lemma_feed_length(m1, n);
    let m2 = m1.feed(l).0;
    lemma_feed_data(m2, payload);
    let m3 = m2.feed(payload).0;
    assert(m2.data + payload =~= payload);
    lemma_feed_footer(m3, footer);
    lemma_feed_append(m, h, l);
    lemma_feed_append(m, h + l, payload);
    lemma_feed_append(m, h + l + payload, footer);
    let last = if footer == seq![0xF8u8, 0xF7u8, 0xF6u8, 0xF5u8] {
        FrameEvent::Frame
    } else {
        FrameEvent::Error(FrameError::BadFooter)
    };
    assert(pending(4) + pending(2) + pending(n) + pending(3).push(last) =~= pending(
        (n + 9) as nat,
    ).push(last));
}

/// A length of zero or beyond the capacity is reported as soon as its two
/// bytes arrive, and the reader goes back to searching for a header.
pub proof fn lemma_rejects_bad_length(m: ReaderModel, n: nat)
    requires
        m.phase matches FramePhase::Header { matched } && matched < 4,
        n <= 0xffff,
        n == 0 || n > m.capacity,
    ensures
        m.feed(report_header() + seq![(n % 256) as u8, (n / 256) as u8]) == (
            ReaderModel { phase: FramePhase::Header { matched: 0 }, ..m },
            pending(5).push(FrameEvent::Error(FrameError::TooLong(n as usize))),
        ),
{
    let h = report_header();
    let l = seq![(n % 256) as u8, (n / 256) as u8];
    lemma_feed_header(m);
    lemma_feed_bad_length(m.feed(h).0, n);
    lemma_feed_append(m, h, l);
    assert(pending(4) + seq![
        FrameEvent::Pending,
        FrameEvent::Error(FrameError::TooLong(n as usize)),
    ] =~= pending(5).push(FrameEvent::Error(FrameError::TooLong(n as usize))));
}

/// The header occurs somewhere in `g`.
pub open spec fn contains_header(g: Seq<u8>) -> bool {
    exists|i: int| 0 <= i && i + 4 <= g.len() && #[trigger] g.subrange(i, i + 4) == report_header()
}

/// While searching for the header, bytes that hold no header keep the
/// search going, and the count of matched bytes is the part of the header
/// that the bytes end with.
proof fn lemma_search_header(m: ReaderModel, g: Seq<u8>)
    requires
        m.phase == (FramePhase::Header { matched: 0 }),
        !contains_header(g),
    ensures
        m.feed(g).0.phase matches FramePhase::Header { matched } && matched < 4 && matched
            <= g.len() && g.subrange(g.len() - matched, g.len() as int)
            == report_header().subrange(0, matched as int),
        m.feed(g).0.data == m.data,
        m.feed(g).0.capacity == m.capacity,
        m.feed(g).1 == pending(g.len()),
    decreases g.len(),
{
    if g.len() == 0 {
        assert(g.subrange(0, 0) =~= report_header().subrange(0, 0));
        assert(pending(0) =~= Seq::<FrameEvent>::empty());
    } else {
        let prefix = g.drop_last();
        let b = g.last();
        assert forall|i: int| 0 <= i && i + 4 <= prefix.len() implies #[trigger] prefix.subrange(
            i,
            i + 4,
        ) != report_header() by {
            assert(prefix.subrange(i, i + 4) =~= g.subrange(i, i + 4));
        }
        lemma_search_header(m, prefix);
        let m1 = m.feed(prefix).0;
        let k = m1.phase->Header_matched;
        let h = report_header();
        let n = g.len() as int;
        if b == h[k as int] {
            if k == 3 {
                let pl = prefix.len() as int;
                assert(prefix.subrange(pl - 3, pl) == h.subrange(0, 3));
                assert forall|j: int| 0 <= j < 3 implies g[n - 4 + j] == h[j] by {
                    assert(g[n - 4 + j] == prefix[pl - 3 + j]);
                    assert(prefix.subrange(pl - 3, pl)[j] == prefix[pl - 3 + j]);
                }
                assert(g.subrange(n - 4, n - 4 + 4) =~= h);
                assert(false);
            }
            assert(g.subrange(n - (k + 1), n) =~= h.subrange(0, k + 1));
        } else if b == h[0] {
            assert(g.subrange(n - 1, n) =~= h.subrange(0, 1));
        } else {
            assert(g.subrange(n, n) =~= h.subrange(0, 0));
        }
        assert(pending((g.len() - 1) as nat).push(FrameEvent::Pending) =~= pending(g.len()));
    }
}

/// A mid-stream start recovers: after any bytes that hold no header, a
/// well-formed frame is still recovered whole, and nothing before its last
/// byte completes or fails.
pub proof fn lemma_resyncs_after_garbage(m: ReaderModel, garbage: Seq<u8>, payload: Seq<u8>)
    requires
        m.phase == (FramePhase::Header { matched: 0 }),
        !contains_header(garbage),
        0 < payload.len() <= m.capacity,
        payload.len() <= 0xffff,
    ensures
        m.feed(garbage + encode_frame(payload)) == (
            ReaderModel { phase: FramePhase::Header { matched: 0 }, data: payload, capacity: m.capacity },
            pending((garbage.len() + payload.len() + 9) as nat).push(FrameEvent::Frame),
        ),
{
    lemma_search_header(m, garbage);
    let m1 = m.feed(garbage).0;
    lemma_reads_encoded_frame(m1, payload);
    lemma_feed_append(m, garbage, encode_frame(payload));
    assert(pending(garbage.len()) + pending((payload.len() + 9) as nat).push(FrameEvent::Frame)
        =~= pending((garbage.len() + payload.len() + 9) as nat).push(FrameEvent::Frame));
}

/// Reads LD2410 report frames one byte at a time.
pub struct FrameReader {
    phase: FramePhase,
    data: Vec<u8>,
    capacity: usize,
}

impl View for FrameReader {
    type V = ReaderModel;

    closed spec fn view(&self) -> ReaderModel {
        ReaderModel { phase: self.phase, data: self.data@, capacity: self.capacity }
    }
}

impl FrameReader {
    #[verifier::type_invariant]
    closed spec fn inv(self) -> bool {
        self@.wf()
    }

    /// A reader that accepts frames of up to `capacity` data bytes,
    /// starting with the search for a header.
    pub fn new(capacity: usize) -> (r: Self)
        ensures
            r@ == (ReaderModel {
                phase: FramePhase::Header { matched: 0 },
                data: Seq::empty(),
                capacity,
            }),
    {
        FrameReader { phase: FramePhase::Header { matched: 0 }, data: Vec::new(), capacity }
    }

    /// Drops any partial frame and searches for the next header (after the
    /// byte stream itself failed).
    pub fn reset(&mut self)
        ensures
            final(self)@ == (ReaderModel {
                phase: FramePhase::Header { matched: 0 },
                ..old(self)@
            }),
    {
        self.phase = FramePhase::Header { matched: 0 };
    }

    /// The data of the last frame (complete after a [`FrameEvent::Frame`]).
    pub fn data(&self) -> (data: &[u8])
        ensures
            data@ == self@.data,
    {
        self.data.as_slice()
    }

    /// Consumes one byte of the stream.
    pub fn push(&mut self, byte: u8) -> (event: FrameEvent)
        ensures
            (final(self)@, event) == old(self)@.step(byte),
    {
        proof {
            use_type_invariant(&*self);
        }
        match self.phase {
            FramePhase::Header { matched } => {
                let next = if byte == header_byte(matched) {
                    matched + 1
                } else if byte == header_byte(0) {
                    1
                } else {
                    0
                };
                if next == 4 {
                    self.phase = FramePhase::Length { low: None };
                } else {
                    self.phase = FramePhase::Header { matched: next };
                }
                FrameEvent::Pending
            },
            FramePhase::Length { low: None } => {
                self.phase = FramePhase::Length { low: Some(byte) };
                FrameEvent::Pending
            },
            FramePhase::Length { low: Some(lo) } => {
                let len: usize = lo as usize + (byte as usize) * 256;
                if len == 0 || len > self.capacity {
                    self.phase = FramePhase::Header { matched: 0 };
                    FrameEvent::Error(FrameError::TooLong(len))
                } else {
                    self.data = Vec::new();
                    self.phase = FramePhase::Data { len };
                    FrameEvent::Pending
                }
            },
            FramePhase::Data { len } => {
                let mut data = Vec::new();
                std::mem::swap(&mut data, &mut self.data);
                data.push(byte);
                let complete = data.len() == len;
                self.phase = FramePhase::Length { low: None };
                self.data = data;
                if complete {
                    self.phase = FramePhase::Footer { len, seen: 0, intact: true };
                } else {
                    self.phase = FramePhase::Data { len };
                }
                FrameEvent::Pending
            },
            FramePhase::Footer { len, seen, intact } => {
                let intact = intact && byte == footer_byte(seen);
                if seen + 1 == 4 {
                    self.phase = FramePhase::Header { matched: 0 };
                    if intact {
                        FrameEvent::Frame
                    } else {
                        FrameEvent::Error(FrameError::BadFooter)
                    }
                } else {
                    self.phase = FramePhase::Footer { len, seen: seen + 1, intact };
                    FrameEvent::Pending
                }
            },
        }
    }
}

} // verus!
