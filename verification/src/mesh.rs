//! What the Thread mesh can route to: the prefixes and routes published in
//! the network data, the border router's NAT64 prefix among them, and the
//! test whether a destination lies inside any of them.
use vstd::prelude::*;

verus! {

/// Bit `j` (0 = most significant) of byte `b`.
pub open spec fn byte_bit(b: u8, j: int) -> bool {
    (b >> ((7 - j) as u8)) & 1u8 == 1u8
}

/// Bit `k` of the address `a`, counting from the most significant bit of
/// its first byte.
pub open spec fn addr_bit(a: Seq<u8>, k: int) -> bool {
    byte_bit(a[k / 8], k % 8)
}

/// The first `len` bits of `dest` are those of `prefix`.
pub open spec fn prefix_matches(dest: Seq<u8>, prefix: Seq<u8>, len: int) -> bool {
    forall|k: int| 0 <= k < len ==> #[trigger] addr_bit(dest, k) == addr_bit(prefix, k)
}

/// Some entry of `table` (a prefix and its length in bits) contains `dest`.
pub open spec fn is_covered(dest: Seq<u8>, table: Seq<([u8; 16], u8)>) -> bool {
    exists|i: int| 0 <= i < table.len() && prefix_matches(dest, table[i].0@, table[i].1 as int)
}

/// Every entry of `table` that is tried before one contains `dest` has a
/// length of at most 128 bits (a longer one has no bits to compare).
pub open spec fn lengths_valid_until_match(dest: Seq<u8>, table: Seq<([u8; 16], u8)>) -> bool {
    forall|i: int|
        0 <= i < table.len() && (forall|j: int|
            0 <= j < i ==> !prefix_matches(dest, #[trigger] table[j].0@, table[j].1 as int))
            ==> #[trigger] table[i].1 <= 128
}

proof fn lemma_byte_bits_eq(a: u8, b: u8)
    requires
        byte_bit(a, 0) == byte_bit(b, 0),
        byte_bit(a, 1) == byte_bit(b, 1),
        byte_bit(a, 2) == byte_bit(b, 2),
        byte_bit(a, 3) == byte_bit(b, 3),
        byte_bit(a, 4) == byte_bit(b, 4),
        byte_bit(a, 5) == byte_bit(b, 5),
        byte_bit(a, 6) == byte_bit(b, 6),
        byte_bit(a, 7) == byte_bit(b, 7),
    ensures
        a == b,
{
    assert(((a >> 7u8) & 1u8 == 1u8) == ((b >> 7u8) & 1u8 == 1u8) && ((a >> 6u8) & 1u8 == 1u8)
        == ((b >> 6u8) & 1u8 == 1u8) && ((a >> 5u8) & 1u8 == 1u8) == ((b >> 5u8) & 1u8 == 1u8)
        && ((a >> 4u8) & 1u8 == 1u8) == ((b >> 4u8) & 1u8 == 1u8) && ((a >> 3u8) & 1u8 == 1u8)
        == ((b >> 3u8) & 1u8 == 1u8) && ((a >> 2u8) & 1u8 == 1u8) == ((b >> 2u8) & 1u8 == 1u8)
        && ((a >> 1u8) & 1u8 == 1u8) == ((b >> 1u8) & 1u8 == 1u8) && ((a >> 0u8) & 1u8 == 1u8)
        == ((b >> 0u8) & 1u8 == 1u8) ==> a == b) by (bit_vector);
}

/// The top `r` bits of `a` and `b` agree exactly when their difference
/// shifted right by `8 - r` is zero.
proof fn lemma_top_bits(a: u8, b: u8, r: u8)
    requires
        1 <= r <= 7,
    ensures
        ((a ^ b) >> (8 - r) as u8 == 0) <==> (forall|j: int|
            0 <= j < r ==> #[trigger] byte_bit(a, j) == byte_bit(b, j)),
{
    if (a ^ b) >> (8 - r) as u8 == 0 {
        assert forall|j: int| 0 <= j < r implies #[trigger] byte_bit(a, j) == byte_bit(b, j) by {
            let jj = j as u8;
            assert((a ^ b) >> (8 - r) as u8 == 0 && jj < r && r <= 7 ==> ((a >> (7 - jj) as u8)
                & 1u8 == 1u8) == ((b >> (7 - jj) as u8) & 1u8 == 1u8)) by (bit_vector);
        }
    } else {
        if forall|j: int| 0 <= j < r ==> #[trigger] byte_bit(a, j) == byte_bit(b, j) {
            let e0 = r > 0 ==> byte_bit(a, 0) == byte_bit(b, 0);
            let e1 = r > 1 ==> byte_bit(a, 1) == byte_bit(b, 1);
            let e2 = r > 2 ==> byte_bit(a, 2) == byte_bit(b, 2);
            let e3 = r > 3 ==> byte_bit(a, 3) == byte_bit(b, 3);
            let e4 = r > 4 ==> byte_bit(a, 4) == byte_bit(b, 4);
            let e5 = r > 5 ==> byte_bit(a, 5) == byte_bit(b, 5);
            let e6 = r > 6 ==> byte_bit(a, 6) == byte_bit(b, 6);
            assert(e0 && e1 && e2 && e3 && e4 && e5 && e6);
            assert(1 <= r <= 7 && (r > 0 ==> ((a >> 7u8) & 1u8 == 1u8) == ((b >> 7u8) & 1u8
                == 1u8)) && (r > 1 ==> ((a >> 6u8) & 1u8 == 1u8) == ((b >> 6u8) & 1u8 == 1u8)) && (
            r > 2 ==> ((a >> 5u8) & 1u8 == 1u8) == ((b >> 5u8) & 1u8 == 1u8)) && (r > 3 ==> ((a
                >> 4u8) & 1u8 == 1u8) == ((b >> 4u8) & 1u8 == 1u8)) && (r > 4 ==> ((a >> 3u8) & 1u8
                == 1u8) == ((b >> 3u8) & 1u8 == 1u8)) && (r > 5 ==> ((a >> 2u8) & 1u8 == 1u8) == ((
            b >> 2u8) & 1u8 == 1u8)) && (r > 6 ==> ((a >> 1u8) & 1u8 == 1u8) == ((b >> 1u8) & 1u8
                == 1u8)) ==> (a ^ b) >> (8 - r) as u8 == 0) by (bit_vector);
        }
    }
}

/// Whether the first `len` bits of `dest` are those of `prefix`.
fn prefix_eq(dest: &[u8; 16], prefix: &[u8; 16], len: u8) -> (r: bool)
    requires
        len <= 128,
    ensures
        r == prefix_matches(dest@, prefix@, len as int),
{
    let whole: usize = (len / 8) as usize;
    let rem: u8 = len % 8;
    let mut i: usize = 0;
    while i < whole
        invariant
            whole == len / 8,
            whole <= 16,
            i <= whole,
            forall|j: int| 0 <= j < i ==> dest@[j] == prefix@[j],
        decreases whole - i,
    {
        if dest[i] != prefix[i] {
            proof {
                if prefix_matches(dest@, prefix@, len as int) {
                    let base = 8 * i as int;
                    assert(addr_bit(dest@, base) == addr_bit(prefix@, base));
                    assert(addr_bit(dest@, base + 1) == addr_bit(prefix@, base + 1));
                    assert(addr_bit(dest@, base + 2) == addr_bit(prefix@, base + 2));
                    assert(addr_bit(dest@, base + 3) == addr_bit(prefix@, base + 3));
                    assert(addr_bit(dest@, base + 4) == addr_bit(prefix@, base + 4));
                    assert(addr_bit(dest@, base + 5) == addr_bit(prefix@, base + 5));
                    assert(addr_bit(dest@, base + 6) == addr_bit(prefix@, base + 6));
                    assert(addr_bit(dest@, base + 7) == addr_bit(prefix@, base + 7));
                    lemma_byte_bits_eq(dest@[i as int], prefix@[i as int]);
                }
            }
            return false;
        }
        i = i + 1;
    }
    if rem == 0 {
        assert forall|k: int| 0 <= k < len implies #[trigger] addr_bit(dest@, k) == addr_bit(
            prefix@,
            k,
        ) by {
            assert(dest@[k / 8] == prefix@[k / 8]);
        }
        return true;
    }
    let d = dest[whole];
    let p = prefix[whole];
    let r = (d ^ p) >> (8 - rem) == 0;
    proof {
        lemma_top_bits(d, p, rem);
        if r {
            assert forall|k: int| 0 <= k < len implies #[trigger] addr_bit(dest@, k) == addr_bit(
                prefix@,
                k,
            ) by {
                if k < 8 * whole {
                    assert(dest@[k / 8] == prefix@[k / 8]);
                } else {
                    assert(k / 8 == whole);
                    assert(byte_bit(d, k % 8) == byte_bit(p, k % 8));
                }
            }
        } else {
            if prefix_matches(dest@, prefix@, len as int) {
                assert forall|j: int| 0 <= j < rem implies #[trigger] byte_bit(d, j) == byte_bit(
                    p,
                    j,
                ) by {
                    let k = 8 * whole + j;
                    assert(k / 8 == whole);
                    assert(k % 8 == j);
                    assert(addr_bit(dest@, k) == addr_bit(prefix@, k));
                }
            }
        }
    }
    r
}

/// Longest-prefix containment check against the network-data coverage
/// table: is `dest` inside any published on-mesh prefix or external route?
/// (A /0 route — a real default route — covers everything.)
pub fn covered(dest: &[u8; 16], table: &[([u8; 16], u8)]) -> (r: bool)
    requires
        lengths_valid_until_match(dest@, table@),
    ensures
        r == is_covered(dest@, table@),
{
    let mut i: usize = 0;
    while i < table.len()
        invariant
            i <= table@.len(),
            lengths_valid_until_match(dest@, table@),
            forall|j: int|
                0 <= j < i ==> !prefix_matches(dest@, #[trigger] table@[j].0@, table@[j].1 as int),
        decreases table@.len() - i,
    {
        let entry = &table[i];
        assert(table@[i as int].1 <= 128);
        if prefix_eq(dest, &entry.0, entry.1) {
            return true;
        }
        i = i + 1;
    }
    false
}

/// A default route (a /0 entry) covers every destination.
pub proof fn lemma_default_route_covers_all(dest: Seq<u8>, table: Seq<([u8; 16], u8)>, i: int)
    requires
        0 <= i < table.len(),
        table[i].1 == 0,
    ensures
        is_covered(dest, table),
{
    assert(prefix_matches(dest, table[i].0@, table[i].1 as int));
}

/// A prefix of whole bytes contains exactly the addresses that begin with
/// its bytes: the first `8 * k` bits of two addresses agree when, and only
/// when, their first `k` bytes are equal (so a /128 entry contains its own
/// address and no other, and a /64 exactly the addresses of its network).
pub proof fn lemma_whole_byte_prefix(dest: Seq<u8>, prefix: Seq<u8>, k: int)
    requires
        0 <= k <= dest.len(),
        k <= prefix.len(),
    ensures
        prefix_matches(dest, prefix, 8 * k) <==> dest.take(k) == prefix.take(k),
{
    if prefix_matches(dest, prefix, 8 * k) {
        assert forall|i: int| 0 <= i < k implies dest[i] == prefix[i] by {
            let base = 8 * i;
            assert forall|j: int| 0 <= j < 8 implies byte_bit(dest[i], j) == byte_bit(prefix[i], j) by {
                assert((base + j) / 8 == i);
                assert((base + j) % 8 == j);
                assert(addr_bit(dest, base + j) == addr_bit(prefix, base + j));
            }
            assert(byte_bit(dest[i], 0) == byte_bit(prefix[i], 0));
            assert(byte_bit(dest[i], 1) == byte_bit(prefix[i], 1));
            assert(byte_bit(dest[i], 2) == byte_bit(prefix[i], 2));
            assert(byte_bit(dest[i], 3) == byte_bit(prefix[i], 3));
            assert(byte_bit(dest[i], 4) == byte_bit(prefix[i], 4));
            assert(byte_bit(dest[i], 5) == byte_bit(prefix[i], 5));
            assert(byte_bit(dest[i], 6) == byte_bit(prefix[i], 6));
            assert(byte_bit(dest[i], 7) == byte_bit(prefix[i], 7));
            lemma_byte_bits_eq(dest[i], prefix[i]);
        }
        assert(dest.take(k) =~= prefix.take(k));
    }
    if dest.take(k) == prefix.take(k) {
        assert forall|b: int| 0 <= b < 8 * k implies #[trigger] addr_bit(dest, b) == addr_bit(
            prefix,
            b,
        ) by {
            assert(dest.take(k)[b / 8] == prefix.take(k)[b / 8]);
        }
    }
}

/// A prefix that ends inside a byte compares that byte's most significant
/// bits: the first `8 * w + r` bits (`r` from 1 to 7) of two addresses
/// agree when, and only when, their first `w` bytes are equal and byte `w`
/// of each, shifted right by `8 - r`, is the same.
pub proof fn lemma_partial_byte_prefix(dest: Seq<u8>, prefix: Seq<u8>, w: int, r: u8)
    requires
        0 <= w < dest.len(),
        w < prefix.len(),
        1 <= r <= 7,
    ensures
        prefix_matches(dest, prefix, 8 * w + r) <==> (dest.take(w) == prefix.take(w) && dest[w]
            >> (8 - r) as u8 == prefix[w] >> (8 - r) as u8),
{
    let a = dest[w];
    let b = prefix[w];
    let sh = (8 - r) as u8;
    lemma_top_bits(a, b, r);
    assert(((a ^ b) >> sh == 0) == (a >> sh == b >> sh)) by (bit_vector);
    lemma_whole_byte_prefix(dest, prefix, w);
    if prefix_matches(dest, prefix, 8 * w + r) {
        assert(prefix_matches(dest, prefix, 8 * w));
        assert forall|j: int| 0 <= j < r implies #[trigger] byte_bit(a, j) == byte_bit(b, j) by {
            let k = 8 * w + j;
            assert(k / 8 == w);
            assert(k % 8 == j);
            assert(addr_bit(dest, k) == addr_bit(prefix, k));
        }
    }
    if dest.take(w) == prefix.take(w) && a >> sh == b >> sh {
        assert forall|k: int| 0 <= k < 8 * w + r implies #[trigger] addr_bit(dest, k) == addr_bit(
            prefix,
            k,
        ) by {
            if k < 8 * w {
                assert(addr_bit(dest, k) == addr_bit(prefix, k));
            } else {
                assert(k / 8 == w);
                assert(byte_bit(a, k % 8) == byte_bit(b, k % 8));
            }
        }
    }
}

/// The well-known NAT64 prefix `64:ff9b::/96`, the guess when the network
/// data publishes none.
pub open spec fn well_known_nat64() -> Seq<u8> {
    seq![0x00u8, 0x64u8, 0xffu8, 0x9bu8, 0u8, 0u8, 0u8, 0u8, 0u8, 0u8, 0u8, 0u8, 0u8, 0u8, 0u8, 0u8]
}

/// The IPv6 address that reaches the IPv4 address `v4` through the NAT64
/// `prefix` (or the well-known prefix): the prefix's first 96 bits followed
/// by the four IPv4 octets.
pub fn nat64_address(prefix: Option<[u8; 16]>, v4: [u8; 4]) -> (ip: [u8; 16])
    ensures
        ip@ == (match prefix {
            Some(p) => p@,
            None => well_known_nat64(),
        }).subrange(0, 12) + v4@,
{
    let p: [u8; 16] = match prefix {
        Some(p) => p,
        None => [0x00, 0x64, 0xff, 0x9b, 0, 0, 0, 0, 0, 0, 0, 0, 0, 0, 0, 0],
    };
    let ip: [u8; 16] = [
        p[0],
        p[1],
        p[2],
        p[3],
        p[4],
        p[5],
        p[6],
        p[7],
        p[8],
        p[9],
        p[10],
        p[11],
        v4[0],
        v4[1],
        v4[2],
        v4[3],
    ];
    assert(ip@ =~= p@.subrange(0, 12) + v4@);
    ip
}

/// The NAT64 address of the IPv4 address `v4`, as an address value.
pub open spec fn nat64_sink_of(prefix: Option<[u8; 16]>, v4: [u8; 4]) -> [u8; 16] {
    choose|ip: [u8; 16]| ip@ == (match prefix {
        Some(p) => p@,
        None => well_known_nat64(),
    }).subrange(0, 12) + v4@
}

/// Most coverage entries kept from the network data.
pub const COVERAGE_CAPACITY: usize = 8;

/// The entries held by a coverage table, in the order they were pushed.
pub uninterp spec fn coverage_entries(v: heapless::Vec<([u8; 16], u8), 8>) -> Seq<([u8; 16], u8)>;

/// `heapless::Vec::new`: an empty table.
#[verifier::external_body]
fn coverage_new() -> (v: heapless::Vec<([u8; 16], u8), 8>)
    ensures
        coverage_entries(v) == Seq::<([u8; 16], u8)>::empty(),
{
    heapless::Vec::new()
}

/// `heapless::Vec::push`: appends `item` when fewer than 8 entries are
/// held (`true`), and otherwise leaves the table as it was (`false`).
#[verifier::external_body]
fn coverage_push(v: &mut heapless::Vec<([u8; 16], u8), 8>, item: ([u8; 16], u8)) -> (pushed: bool)
    ensures
        pushed == (coverage_entries(*old(v)).len() < 8),
        pushed ==> coverage_entries(*final(v)) == coverage_entries(*old(v)).push(item),
        !pushed ==> coverage_entries(*final(v)) == coverage_entries(*old(v)),
{
    v.push(item).is_ok()
}

/// `heapless::Vec::as_slice`: the held entries in order.
#[verifier::external_body]
fn coverage_slice(v: &heapless::Vec<([u8; 16], u8), 8>) -> (s: &[([u8; 16], u8)])
    ensures
        s@ == coverage_entries(*v),
{
    v.as_slice()
}

/// The abstract state of [`MeshRoutes`].
pub struct RoutesModel {
    /// The NAT64 prefix: the first external /96 route seen.
    pub nat64: Option<[u8; 16]>,
    /// The first [`COVERAGE_CAPACITY`] entries seen.
    pub coverage: Seq<([u8; 16], u8)>,
}

/// The model after recording one network-data entry: an external route
/// (`is_route`) or on-mesh prefix with `octets` and a length of `len` bits.
pub open spec fn recorded(m: RoutesModel, is_route: bool, octets: [u8; 16], len: u8) -> RoutesModel {
    RoutesModel {
        nat64: if m.nat64 is None && is_route && len == 96 {
            Some(octets)
        } else {
            m.nat64
        },
        coverage: if m.coverage.len() < COVERAGE_CAPACITY {
            m.coverage.push((octets, len))
        } else {
            m.coverage
        },
    }
}

/// The model after recording `entries` in order, starting from `m`.
pub open spec fn routes_after(m: RoutesModel, entries: Seq<(bool, [u8; 16], u8)>) -> RoutesModel
    decreases entries.len(),
{
    if entries.len() == 0 {
        m
    } else {
        let e = entries.last();
        recorded(routes_after(m, entries.drop_last()), e.0, e.1, e.2)
    }
}

/// The prefix of the first external /96 route among `entries`, if any.
pub open spec fn first_nat64(entries: Seq<(bool, [u8; 16], u8)>) -> Option<[u8; 16]>
    decreases entries.len(),
{
    if entries.len() == 0 {
        None
    } else if entries[0].0 && entries[0].2 == 96 {
        Some(entries[0].1)
    } else {
        first_nat64(entries.drop_first())
    }
}

proof fn lemma_first_nat64_push(s: Seq<(bool, [u8; 16], u8)>, e: (bool, [u8; 16], u8))
    ensures
        first_nat64(s.push(e)) == (match first_nat64(s) {
            Some(p) => Some(p),
            None => if e.0 && e.2 == 96 {
                Some(e.1)
            } else {
                None
            },
        }),
    decreases s.len(),
{
    if s.len() > 0 {
        assert(s.push(e)[0] == s[0]);
        assert(s.push(e).drop_first() =~= s.drop_first().push(e));
        lemma_first_nat64_push(s.drop_first(), e);
    } else {
        assert(s.push(e)[0] == e);
        assert(s.push(e).drop_first() =~= Seq::<(bool, [u8; 16], u8)>::empty());
        assert(first_nat64(s.push(e).drop_first()) is None);
    }
}

/// Whatever the network data holds, the NAT64 prefix is the first external
/// /96 route in it (later ones never replace it), and the coverage table
/// is its first [`COVERAGE_CAPACITY`] entries, in order.
pub proof fn lemma_routes_keep_first(entries: Seq<(bool, [u8; 16], u8)>)
    ensures
        ({
            let r = routes_after(
                RoutesModel { nat64: None, coverage: Seq::<([u8; 16], u8)>::empty() },
                entries,
            );
            let n: int = if entries.len() < 8 {
                entries.len() as int
            } else {
                8
            };
            &&& r.nat64 == first_nat64(entries)
            &&& r.coverage == entries.take(n).map_values(|e: (bool, [u8; 16], u8)| (e.1, e.2))
        }),
    decreases entries.len(),
{
    if entries.len() > 0 {
        let prefix = entries.drop_last();
        let e = entries.last();
        lemma_routes_keep_first(prefix);
        assert(prefix.push(e) =~= entries);
        lemma_first_nat64_push(prefix, e);
        let k: int = if prefix.len() < 8 {
            prefix.len() as int
        } else {
            8
        };
        if prefix.len() < 8 {
            assert(entries.take(k + 1) =~= prefix.take(k).push(e));
            assert(entries.take(k + 1).map_values(|e: (bool, [u8; 16], u8)| (e.1, e.2))
                =~= prefix.take(k).map_values(|e: (bool, [u8; 16], u8)| (e.1, e.2)).push(
                (e.1, e.2),
            ));
        } else {
            assert(entries.take(8) =~= prefix.take(8));
        }
    } else {
        assert(entries.take(0).map_values(|e: (bool, [u8; 16], u8)| (e.1, e.2)) =~= Seq::<
            ([u8; 16], u8),
        >::empty());
    }
}

/// What the network data says the mesh can route to, collected entry by
/// entry as the stack walks it.
pub struct MeshRoutes {
    nat64: Option<[u8; 16]>,
    coverage: heapless::Vec<([u8; 16], u8), 8>,
}

impl View for MeshRoutes {
    type V = RoutesModel;

    closed spec fn view(&self) -> RoutesModel {
        RoutesModel { nat64: self.nat64, coverage: coverage_entries(self.coverage) }
    }
}

impl MeshRoutes {
    #[verifier::type_invariant]
    closed spec fn inv(self) -> bool {
        coverage_entries(self.coverage).len() <= COVERAGE_CAPACITY
    }

    /// Nothing seen yet.
    pub fn new() -> (r: Self)
        ensures
            r@.nat64 is None,
            r@.coverage == Seq::<([u8; 16], u8)>::empty(),
    {
        MeshRoutes { nat64: None, coverage: coverage_new() }
    }

    /// Takes one network-data entry: an on-mesh prefix or (`is_route`) an
    /// external route of `len` bits. The first /96 route is the NAT64
    /// prefix; every entry joins the coverage table while it has room.
    pub fn record(&mut self, is_route: bool, octets: [u8; 16], len: u8)
        ensures
            final(self)@.nat64 == (if old(self)@.nat64 is None && is_route && len == 96 {
                Some(octets)
            } else {
                old(self)@.nat64
            }),
            final(self)@.coverage == (if old(self)@.coverage.len() < COVERAGE_CAPACITY {
                old(self)@.coverage.push((octets, len))
            } else {
                old(self)@.coverage
            }),
            final(self)@ == recorded(old(self)@, is_route, octets, len),
    {
        proof {
            use_type_invariant(&*self);
        }
        if is_route && len == 96 && self.nat64.is_none() {
            self.nat64 = Some(octets);
        }
        let mut coverage = coverage_new();
        std::mem::swap(&mut coverage, &mut self.coverage);
        let _ = coverage_push(&mut coverage, (octets, len));
        self.coverage = coverage;
    }

    /// The NAT64 prefix, if the network data published one.
    pub fn nat64(&self) -> (p: Option<[u8; 16]>)
        ensures
            p == self@.nat64,
    {
        self.nat64
    }

    /// The coverage table in the order it was collected.
    pub fn coverage(&self) -> (t: &[([u8; 16], u8)])
        ensures
            t@ == self@.coverage,
            t@.len() <= COVERAGE_CAPACITY,
    {
        proof {
            use_type_invariant(self);
        }
        coverage_slice(&self.coverage)
    }

    /// The telemetry sinks the mesh can reach, in order: the IPv6 sink
    /// `v6` when a collected entry covers it, then the NAT64 address of the
    /// IPv4 sink `v4` (through the collected NAT64 prefix, or the
    /// well-known one) when a collected entry covers it.
    pub fn reachable_sinks(&self, v6: Option<[u8; 16]>, v4: Option<[u8; 4]>) -> (sinks: Vec<
        [u8; 16],
    >)
        requires
            v6 matches Some(ip) ==> lengths_valid_until_match(ip@, self@.coverage),
            v4 matches Some(a) ==> lengths_valid_until_match(
                nat64_sink_of(self@.nat64, a)@,
                self@.coverage,
            ),
        ensures
            sinks@ == (match v6 {
                Some(ip) => if is_covered(ip@, self@.coverage) {
                    seq![ip]
                } else {
                    Seq::empty()
                },
                None => Seq::empty(),
            }) + (match v4 {
                Some(a) => {
                    let ip = nat64_sink_of(self@.nat64, a);
                    if is_covered(ip@, self@.coverage) {
                        seq![ip]
                    } else {
                        Seq::empty()
                    }
                },
                None => Seq::empty(),
            }),
    {
        let mut sinks: Vec<[u8; 16]> = Vec::new();
        if let Some(ip) = v6 {
            if self.covers(&ip) {
                sinks.push(ip);
            }
        }
        let ghost after_v6 = sinks@;
        if let Some(a) = v4 {
            let ip = nat64_address(self.nat64, a);
            assert(ip == nat64_sink_of(self@.nat64, a)) by {
                assert(ip@ =~= nat64_sink_of(self@.nat64, a)@);
            }
            if self.covers(&ip) {
                sinks.push(ip);
            }
        }
        assert(sinks@ =~= after_v6 + (match v4 {
            Some(a) => {
                let ip = nat64_sink_of(self@.nat64, a);
                if is_covered(ip@, self@.coverage) {
                    seq![ip]
                } else {
                    Seq::empty()
                }
            },
            None => Seq::empty(),
        }));
        sinks
    }

    /// Whether some collected prefix or route contains `dest`.
    pub fn covers(&self, dest: &[u8; 16]) -> (r: bool)
        requires
            lengths_valid_until_match(dest@, self@.coverage),
        ensures
            r == is_covered(dest@, self@.coverage),
    {
        covered(dest, coverage_slice(&self.coverage))
    }
}

} // verus!
