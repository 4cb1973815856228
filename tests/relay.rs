use cspi::record::{ComplexSample, CsiRecord};
use cspi::relay::{decode_record, encode_record};

fn record(rssi: i8, frame_control: u8, source_mac: u64, sequence_number: u16, s: &[(i16, i16)]) -> CsiRecord {
    CsiRecord {
        rssi,
        frame_control,
        source_mac,
        sequence_number,
        subcarriers: s.iter().map(|&(real, imaginary)| ComplexSample { real, imaginary }).collect(),
    }
}

#[test]
fn exact_encoding() {
    let r = record(1, 2, 300, 4, &[(1, -1)]);
    let expected: Vec<u8> = vec![
        0x0A, 0x0D, 0x08, 0x01, 0x10, 0xFF, 0xFF, 0xFF, 0xFF, 0xFF, 0xFF, 0xFF, 0xFF, 0xFF, 0x01,
        0x10, 0x01, 0x18, 0x02, 0x20, 0xAC, 0x02, 0x28, 0x04,
    ];
    assert_eq!(encode_record(&r), expected);
    assert_eq!(decode_record(&expected), Some(r));
}

#[test]
fn zero_record_encoding() {
    let r = record(0, 0, 0, 0, &[]);
    assert_eq!(encode_record(&r), vec![0x10, 0x00, 0x18, 0x00, 0x20, 0x00, 0x28, 0x00]);
}

#[test]
fn round_trip_keeps_every_field() {
    let cases = vec![
        record(-50, 1, 0x1A2B3C4D5E, 42, &[(3, 4), (1, 2)]),
        record(0, 0, 0, 0, &[]),
        record(i8::MIN, u8::MAX, u64::MAX, u16::MAX, &[(i16::MIN, i16::MAX), (0, 0), (-1, 1)]),
        record(127, 128, 0xFFFFFFFFFFFF, 1, &[(200, -200); 64]),
    ];
    for r in cases {
        let bytes = encode_record(&r);
        assert_eq!(decode_record(&bytes), Some(r.clone()));
    }
}

#[test]
fn malformed_messages_are_refused() {
    let r = record(-50, 1, 0x1A2B3C4D5E, 42, &[(3, 4), (1, 2)]);
    let bytes = encode_record(&r);
    assert_eq!(decode_record(&[]), None);
    assert_eq!(decode_record(&[0xFF]), None);
    for n in 0..bytes.len() {
        assert_eq!(decode_record(&bytes[..n]), None);
    }
    let mut longer = bytes.clone();
    longer.push(0);
    assert_eq!(decode_record(&longer), None);
}
