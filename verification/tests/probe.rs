use esp32c6_matter_human_detection::probe::{
    commissionable_instance, operational_instance, phase_outcome, probe_host_name,
    phase_steps, probe_seed, ProbeService, ProbeStats, ProbeStep, RegistrationTally,
};

#[test]
fn seed_mixes_low_ticks() {
    assert_eq!(probe_seed(0), 0x5aa5);
    assert_eq!(probe_seed(0x1_0000_ffff), 0xffff ^ 0x5aa5);
}

#[test]
fn phases_start_clean_and_register_their_services() {
    let start = vec![ProbeStep::RemoveAll, ProbeStep::SetConf, ProbeStep::Wait(2000)];
    let mut a = start.clone();
    a.push(ProbeStep::Add(ProbeService::Small));
    assert_eq!(phase_steps(0), a);
    let mut b = start.clone();
    b.push(ProbeStep::Add(ProbeService::Commissionable));
    assert_eq!(phase_steps(1), b);
    let both = [
        ProbeStep::Add(ProbeService::Commissionable),
        ProbeStep::Add(ProbeService::Operational),
    ];
    let mut c = start.clone();
    c.extend(both);
    assert_eq!(phase_steps(2), c);
    let mut d = start.clone();
    for _ in 0..2 {
        d.extend(both);
        d.push(ProbeStep::Wait(800));
        d.push(ProbeStep::RemoveAll);
        d.push(ProbeStep::SetConf);
    }
    d.extend(both);
    assert_eq!(phase_steps(3), d);
}

#[test]
fn registered_only_when_every_service_is() {
    let t = RegistrationTally::new();
    assert!(!t.all_registered());
    let mut t = RegistrationTally::new();
    t.observe(true);
    t.observe(true);
    assert!(t.all_registered());
    t.observe(false);
    assert!(!t.all_registered());
    t.observe(true);
    assert!(!t.all_registered());
}

#[test]
fn stats_count_and_average() {
    let mut s = ProbeStats::new();
    assert_eq!(s.mean_ms(2), 0);
    s.record(2, true, 1000);
    s.record(2, true, 3000);
    s.record(2, false, 120_000);
    assert_eq!(s.phase(2).ok, 2);
    assert_eq!(s.phase(2).fail, 1);
    assert_eq!(s.phase(2).total_ok_ms, 4000);
    assert_eq!(s.mean_ms(2), 2000);
    assert_eq!(s.phase(0).ok, 0);
}

#[test]
fn phase_outcome_against_deadline() {
    assert_eq!(phase_outcome(true, 500_000, 120_000), Some(true));
    assert_eq!(phase_outcome(false, 119_999, 120_000), None);
    assert_eq!(phase_outcome(false, 120_000, 120_000), Some(false));
}

#[test]
fn names_carry_the_seed_in_upper_hex() {
    assert_eq!(probe_host_name(0x0a5f), b"PROBE-0A5F".to_vec());
    assert_eq!(
        commissionable_instance(0xbeef),
        b"BEEF73CAD5831857".to_vec()
    );
    assert_eq!(
        operational_instance(0x0001),
        b"F143A01EB67C0001-00000000C4280E34".to_vec()
    );
}
