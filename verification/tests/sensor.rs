use esp32c6_matter_human_detection::sensor::frame::{FrameError, FrameEvent, FrameReader};
use esp32c6_matter_human_detection::sensor::{
    parse_report, SensorMonitor, TargetState, HOLD_MS, MAX_FRAME_DATA,
};

#[test]
fn parses_basic_present_frame() {
    // 02 AA | state=02 (stationary) | mov 0,0 e0 | stat 150cm(0x96,0x00) e80 | det 200cm | 00 55
    let data = [
        0x02, 0xAA, 0x02, 0x00, 0x00, 0x00, 0x96, 0x00, 0x50, 0xC8, 0x00, 0x00, 0x55,
    ];
    let r = parse_report(&data).expect("should parse");
    assert_eq!(r.state, TargetState::Stationary);
    assert!(r.state.is_present());
    assert_eq!(r.stationary_distance_cm, 150);
    assert_eq!(r.stationary_energy, 80);
    assert_eq!(r.detection_distance_cm, Some(200));
}

#[test]
fn parses_absent_frame_and_rejects_garbage() {
    let absent = [
        0x02, 0xAA, 0x00, 0x00, 0x00, 0x00, 0x00, 0x00, 0x00, 0x00, 0x00, 0x00, 0x55,
    ];
    assert_eq!(parse_report(&absent).unwrap().state, TargetState::NoTarget);
    assert!(!parse_report(&absent).unwrap().state.is_present());

    assert!(parse_report(&[0x00, 0x11, 0x22]).is_none()); // wrong head/type
    assert!(parse_report(&[0x02, 0xAA]).is_none()); // too short
}

#[test]
fn parses_little_endian_fields_and_optional_detection_distance() {
    // Engineering-mode type, moving 0x0102 cm, energy 7, stationary 0x0304 cm, energy 9,
    // no detection distance (only 10 bytes).
    let data = [0x01, 0xAA, 0x03, 0x02, 0x01, 0x07, 0x04, 0x03, 0x09, 0xFF];
    let r = parse_report(&data).unwrap();
    assert_eq!(r.state, TargetState::Both);
    assert_eq!(r.moving_distance_cm, 0x0102);
    assert_eq!(r.moving_energy, 7);
    assert_eq!(r.stationary_distance_cm, 0x0304);
    assert_eq!(r.stationary_energy, 9);
    assert_eq!(r.detection_distance_cm, None);
}

#[test]
fn rejects_unknown_data_type_and_bad_head() {
    let mut data = [0x02, 0xAA, 0x01, 0, 0, 0, 0, 0, 0];
    assert!(parse_report(&data).is_some());
    data[0] = 0x03;
    assert!(parse_report(&data).is_none());
    data[0] = 0x02;
    data[1] = 0xAB;
    assert!(parse_report(&data).is_none());
}

#[test]
fn target_state_decoding() {
    assert_eq!(TargetState::from_u8(0), TargetState::NoTarget);
    assert_eq!(TargetState::from_u8(1), TargetState::Moving);
    assert_eq!(TargetState::from_u8(2), TargetState::Stationary);
    assert_eq!(TargetState::from_u8(3), TargetState::Both);
    assert_eq!(TargetState::from_u8(0x42), TargetState::Unknown(0x42));
    assert!(!TargetState::NoTarget.is_present());
    assert!(TargetState::Moving.is_present());
    assert!(TargetState::Both.is_present());
    // Any non-zero state byte counts as someone present.
    assert!(TargetState::Unknown(0x42).is_present());
}

fn encode(payload: &[u8]) -> Vec<u8> {
    let mut v = vec![0xF4, 0xF3, 0xF2, 0xF1];
    v.push((payload.len() % 256) as u8);
    v.push((payload.len() / 256) as u8);
    v.extend_from_slice(payload);
    v.extend_from_slice(&[0xF8, 0xF7, 0xF6, 0xF5]);
    v
}

fn feed(r: &mut FrameReader, bytes: &[u8]) -> Vec<FrameEvent> {
    bytes.iter().map(|b| r.push(*b)).filter(|e| *e != FrameEvent::Pending).collect()
}

#[test]
fn reads_frame_after_garbage_and_partial_header() {
    let payload = [0x02, 0xAA, 0x02, 0x00, 0x00, 0x00, 0x96, 0x00, 0x50, 0xC8, 0x00, 0x00, 0x55];
    let mut stream = vec![0x00, 0xF4, 0xF3, 0x17, 0xF4, 0xF4];
    stream.extend(encode(&payload));
    let mut r = FrameReader::new(MAX_FRAME_DATA);
    assert_eq!(feed(&mut r, &stream), vec![FrameEvent::Frame]);
    assert_eq!(r.data(), &payload[..]);
    let report = parse_report(r.data()).unwrap();
    assert_eq!(report.stationary_distance_cm, 150);
}

#[test]
fn reads_consecutive_frames() {
    let mut r = FrameReader::new(MAX_FRAME_DATA);
    let mut stream = encode(&[1, 2, 3]);
    stream.extend(encode(&[9]));
    let mut events = Vec::new();
    let mut frames = Vec::new();
    for b in stream {
        let e = r.push(b);
        if e == FrameEvent::Frame {
            frames.push(r.data().to_vec());
        }
        if e != FrameEvent::Pending {
            events.push(e);
        }
    }
    assert_eq!(events, vec![FrameEvent::Frame, FrameEvent::Frame]);
    assert_eq!(frames, vec![vec![1, 2, 3], vec![9]]);
}

#[test]
fn rejects_zero_and_oversized_lengths() {
    let mut r = FrameReader::new(MAX_FRAME_DATA);
    assert_eq!(
        feed(&mut r, &[0xF4, 0xF3, 0xF2, 0xF1, 0x00, 0x00]),
        vec![FrameEvent::Error(FrameError::TooLong(0))]
    );
    assert_eq!(
        feed(&mut r, &[0xF4, 0xF3, 0xF2, 0xF1, 0x41, 0x00]),
        vec![FrameEvent::Error(FrameError::TooLong(65))]
    );
    assert_eq!(
        feed(&mut r, &[0xF4, 0xF3, 0xF2, 0xF1, 0x00, 0x01]),
        vec![FrameEvent::Error(FrameError::TooLong(256))]
    );
    // A full-capacity frame is still accepted afterwards.
    let payload = vec![0x5A; MAX_FRAME_DATA];
    assert_eq!(feed(&mut r, &encode(&payload)), vec![FrameEvent::Frame]);
    assert_eq!(r.data(), &payload[..]);
}

#[test]
fn rejects_bad_footer_after_reading_all_four_bytes() {
    let mut r = FrameReader::new(MAX_FRAME_DATA);
    let mut stream = encode(&[7, 7]);
    let n = stream.len();
    stream[n - 4] = 0x00;
    let events: Vec<FrameEvent> = stream.iter().map(|b| r.push(*b)).collect();
    assert_eq!(events[n - 1], FrameEvent::Error(FrameError::BadFooter));
    assert!(events[..n - 1].iter().all(|e| *e == FrameEvent::Pending));
    // The reader searches for a header again.
    assert_eq!(feed(&mut r, &encode(&[8])), vec![FrameEvent::Frame]);
    assert_eq!(r.data(), &[8][..]);
}

#[test]
fn reset_drops_partial_frame() {
    let mut r = FrameReader::new(MAX_FRAME_DATA);
    assert_eq!(feed(&mut r, &[0xF4, 0xF3, 0xF2, 0xF1, 0x05]), vec![]);
    r.reset();
    assert_eq!(feed(&mut r, &encode(&[3, 4])), vec![FrameEvent::Frame]);
    assert_eq!(r.data(), &[3, 4][..]);
}

#[test]
fn monitor_debounces_reports_and_throttles_warnings() {
    let mut m = SensorMonitor::new();
    assert!(!m.occupied());
    let first = m.on_error();
    assert!(first.warn);
    assert_eq!(first.backoff_ms, 20);
    assert!(!m.on_error().warn);
    assert_eq!(m.consecutive_errors(), 2);
    let present = [0x02, 0xAA, 0x01, 0x10, 0x00, 0x30, 0, 0, 0];
    let report = m.on_frame(&present).unwrap();
    assert_eq!(m.consecutive_errors(), 0);
    assert_eq!(m.observe(&report, 1_000), Some(true));
    assert!(m.occupied());
    let absent = [0x02, 0xAA, 0x00, 0, 0, 0, 0, 0, 0];
    let report = m.on_frame(&absent).unwrap();
    assert_eq!(m.observe(&report, 1_000 + HOLD_MS - 1), None);
    assert_eq!(m.observe(&report, 1_000 + HOLD_MS), Some(false));
    assert!(m.on_frame(&[0x00]).is_none());
    assert!(!m.occupied());
    assert!(m.on_error().warn);
}
