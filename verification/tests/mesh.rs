use esp32c6_matter_human_detection::mesh::{covered, nat64_address, MeshRoutes};

fn addr(bytes: &[u8]) -> [u8; 16] {
    let mut a = [0u8; 16];
    a[..bytes.len()].copy_from_slice(bytes);
    a
}

#[test]
fn covered_by_on_mesh_prefix() {
    let ula = addr(&[0xfd, 0x6b, 0x58, 0x8a, 0x7d, 0x6a, 0x00, 0x02]);
    let table = [(addr(&[0xfd, 0x6b, 0x58, 0x8a, 0x7d, 0x6a, 0x00, 0x02]), 64u8)];
    let mut dest = ula;
    dest[15] = 0x42;
    assert!(covered(&dest, &table));
    dest[7] = 0x03;
    assert!(!covered(&dest, &table));
}

#[test]
fn covered_checks_partial_byte_bits() {
    // fc00::/7 contains fd.. but not fe..
    let table = [(addr(&[0xfc]), 7u8)];
    assert!(covered(&addr(&[0xfd, 0x12]), &table));
    assert!(covered(&addr(&[0xfc, 0x00]), &table));
    assert!(!covered(&addr(&[0xfe, 0x80]), &table));
    // /12: the high nibble of the second byte must match.
    let table = [(addr(&[0x20, 0x10]), 12u8)];
    assert!(covered(&addr(&[0x20, 0x1f]), &table));
    assert!(!covered(&addr(&[0x20, 0x20]), &table));
}

#[test]
fn default_route_covers_everything_and_empty_table_nothing() {
    let table = [(addr(&[0x12, 0x34]), 0u8)];
    assert!(covered(&addr(&[0xff; 16]), &table));
    assert!(!covered(&addr(&[0x01]), &[]));
}

#[test]
fn host_route_needs_every_bit() {
    let host = [0xab; 16];
    let table = [(host, 128u8)];
    assert!(covered(&host, &table));
    let mut other = host;
    other[15] = 0xaa;
    assert!(!covered(&other, &table));
}

#[test]
fn nat64_embeds_ipv4_after_prefix() {
    let prefix = addr(&[0xfd, 0x6b, 0x58, 0x8a, 0x7d, 0x6a, 0x00, 0x02, 0, 0, 0, 0, 9, 9, 9, 9]);
    let ip = nat64_address(Some(prefix), [192, 168, 1, 20]);
    assert_eq!(
        ip,
        [0xfd, 0x6b, 0x58, 0x8a, 0x7d, 0x6a, 0x00, 0x02, 0, 0, 0, 0, 192, 168, 1, 20]
    );
    let ip = nat64_address(None, [10, 0, 0, 1]);
    assert_eq!(ip, [0, 0x64, 0xff, 0x9b, 0, 0, 0, 0, 0, 0, 0, 0, 10, 0, 0, 1]);
}

#[test]
fn routes_keep_first_nat64_and_eight_entries() {
    let mut r = MeshRoutes::new();
    assert_eq!(r.nat64(), None);
    r.record(false, addr(&[0xfd, 0x01]), 64);
    r.record(true, addr(&[0xfc]), 7);
    let nat = addr(&[0xfd, 0x6b, 0x58, 0x8a, 0x7d, 0x6a, 0x00, 0x02]);
    r.record(true, nat, 96);
    r.record(true, addr(&[0xfd, 0x99]), 96);
    r.record(false, addr(&[0xfd, 0x99]), 96);
    assert_eq!(r.nat64(), Some(nat));
    for i in 0..10u8 {
        r.record(false, addr(&[0x20, i]), 16);
    }
    let cov = r.coverage();
    assert_eq!(cov.len(), 8);
    assert_eq!(cov[0], (addr(&[0xfd, 0x01]), 64));
    assert_eq!(cov[7], (addr(&[0x20, 2]), 16));
    let sink = nat64_address(r.nat64(), [192, 168, 1, 20]);
    assert!(r.covers(&sink));
    assert!(!r.covers(&addr(&[0x20, 5])));
    assert!(r.covers(&addr(&[0x20, 1, 7])));
}

#[test]
fn reachable_sinks_keep_only_covered_ones() {
    let mut r = MeshRoutes::new();
    r.record(true, addr(&[0xfc]), 7);
    let nat = addr(&[0xfd, 0x6b, 0x58, 0x8a, 0x7d, 0x6a, 0x00, 0x02]);
    r.record(true, nat, 96);
    let ula = addr(&[0xfd, 0x11]);
    let global = addr(&[0x20, 0x01, 0x0d, 0xb8]);
    assert_eq!(
        r.reachable_sinks(Some(ula), Some([192, 168, 1, 20])),
        vec![ula, nat64_address(Some(nat), [192, 168, 1, 20])]
    );
    assert_eq!(r.reachable_sinks(Some(global), None), Vec::<[u8; 16]>::new());
    // Without a published NAT64 prefix the well-known one is not covered.
    let mut bare = MeshRoutes::new();
    bare.record(false, addr(&[0xfd]), 8);
    assert_eq!(bare.reachable_sinks(None, Some([10, 0, 0, 1])), Vec::<[u8; 16]>::new());
}
