use cspi::decoder::{relay_message, DecoderStats};
use cspi::frame::{decode_frame, swap_halves};
use cspi::record::ComplexSample;
use cspi::relay::{decode_record, encode_record};

fn cs(real: i16, imaginary: i16) -> ComplexSample {
    ComplexSample { real, imaginary }
}

fn frame_with(samples: &[(i16, i16)]) -> Vec<u8> {
    let mut f = vec![0xAAu8, 0xBB, 0xCE, 0x01, 0x00, 0x1A, 0x2B, 0x3C, 0x4D, 0x5E, 0x2A, 0x00];
    f.extend_from_slice(&[9, 9, 9, 9, 9, 9]);
    for (re, im) in samples {
        f.extend_from_slice(&re.to_le_bytes());
        f.extend_from_slice(&im.to_le_bytes());
    }
    f
}

#[test]
fn example_frame_fields() {
    let f: Vec<u8> = vec![
        0x11, 0x22, 0xCE, 0x01, 0x00, 0x1A, 0x2B, 0x3C, 0x4D, 0x5E, 0x2A, 0x00, 0x33, 0x44, 0x55,
        0x66, 0x77, 0x88, 0x01, 0x00, 0x02, 0x00, 0x03, 0x00, 0x04, 0x00,
    ];
    assert_eq!(f.len(), 26);
    let rec = decode_frame(&f).unwrap();
    assert_eq!(rec.rssi, -50);
    assert_eq!(rec.frame_control, 1);
    assert_eq!(rec.source_mac, 0x00001A2B3C4D5E);
    assert_eq!(rec.sequence_number, 42);
    assert_eq!(rec.subcarriers, vec![cs(3, 4), cs(1, 2)]);
}

#[test]
fn swap_two_and_five() {
    assert_eq!(swap_halves(&vec![cs(1, 2), cs(3, 4)]), vec![cs(3, 4), cs(1, 2)]);
    let five = vec![cs(0, 0), cs(1, 1), cs(2, 2), cs(3, 3), cs(4, 4)];
    assert_eq!(swap_halves(&five), vec![cs(2, 2), cs(3, 3), cs(4, 4), cs(0, 0), cs(1, 1)]);
    assert_eq!(swap_halves(&vec![]), vec![]);
    assert_eq!(swap_halves(&vec![cs(7, 8)]), vec![cs(7, 8)]);
}

#[test]
fn reorder_for_several_counts() {
    for k in 1..=9usize {
        let raw: Vec<(i16, i16)> = (0..k).map(|i| (i as i16, -(i as i16))).collect();
        let rec = decode_frame(&frame_with(&raw)).unwrap();
        let half = k / 2;
        let expected: Vec<ComplexSample> = raw[half..]
            .iter()
            .chain(raw[..half].iter())
            .map(|&(re, im)| cs(re, im))
            .collect();
        assert_eq!(rec.subcarriers, expected);
    }
}

#[test]
fn short_frames_are_dropped() {
    let full = frame_with(&[(1, 2)]);
    assert_eq!(full.len(), 22);
    for n in 0..22 {
        assert!(decode_frame(&full[..n]).is_none());
        assert!(relay_message(&full[..n]).is_none());
    }
    assert!(decode_frame(&full).is_some());
}

#[test]
fn trailing_partial_group_is_ignored() {
    let mut f = frame_with(&[(5, 6)]);
    f.extend_from_slice(&[1, 2, 3]);
    let rec = decode_frame(&f).unwrap();
    assert_eq!(rec.subcarriers, vec![cs(5, 6)]);
}

#[test]
fn signed_values_and_extremes() {
    let f = frame_with(&[(-1, i16::MIN), (i16::MAX, -300)]);
    let rec = decode_frame(&f).unwrap();
    assert_eq!(rec.subcarriers, vec![cs(i16::MAX, -300), cs(-1, i16::MIN)]);
    let mut g = f.clone();
    g[2] = 0x7F;
    g[3] = 0xFF;
    g[4] = 0xFF;
    g[10] = 0xFF;
    g[11] = 0xFF;
    let rec = decode_frame(&g).unwrap();
    assert_eq!(rec.rssi, 127);
    assert_eq!(rec.frame_control, 255);
    assert_eq!(rec.source_mac, 0xFF1A2B3C4D5E);
    assert_eq!(rec.sequence_number, 65535);
}

#[test]
fn relay_message_is_encoded_record() {
    let f = frame_with(&[(1, 2), (3, 4), (5, 6)]);
    let msg = relay_message(&f).unwrap();
    let rec = decode_frame(&f).unwrap();
    assert_eq!(msg, encode_record(&rec));
    assert_eq!(decode_record(&msg), Some(rec));
}

#[test]
fn decoder_stats_count_outcomes() {
    let mut stats = DecoderStats::new();
    assert!(stats.on_datagram(&frame_with(&[(1, 1)])).is_some());
    assert!(stats.on_datagram(&[1, 2, 3]).is_none());
    assert!(stats.on_datagram(&[]).is_none());
    stats.on_send_failure();
    assert_eq!(stats, DecoderStats { relayed: 1, dropped: 2, failed_sends: 1 });
}
