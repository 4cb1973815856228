use cspi::capture::{frame_entry, CaptureError, CaptureRecorder};

#[test]
fn entry_has_length_prefix() {
    assert_eq!(frame_entry(&[1, 2, 3]), vec![3, 0, 0, 0, 0, 0, 0, 0, 1, 2, 3]);
    assert_eq!(frame_entry(&[]), vec![0; 8]);
    let big = vec![7u8; 300];
    let e = frame_entry(&big);
    assert_eq!(&e[..8], &[0x2C, 0x01, 0, 0, 0, 0, 0, 0]);
    assert_eq!(&e[8..], &big[..]);
}

#[test]
fn zero_count_is_refused() {
    assert_eq!(CaptureRecorder::new(0).err(), Some(CaptureError::ZeroCount));
    assert!(CaptureRecorder::new(1).is_ok());
}

#[test]
fn stops_after_five_received() {
    let mut rec = CaptureRecorder::new(5).unwrap();
    let mut file: Vec<u8> = Vec::new();
    let mut entries = 0;
    let events: Vec<Option<Vec<u8>>> = vec![
        None,
        Some(vec![1]),
        None,
        None,
        Some(vec![2, 2]),
        Some(vec![3]),
        None,
        Some(vec![]),
        Some(vec![5, 5, 5]),
        Some(vec![6]),
        None,
    ];
    let mut handled = 0;
    for ev in &events {
        if rec.is_done() {
            break;
        }
        handled += 1;
        if let Some(bytes) = rec.on_receive(ev.as_deref()) {
            file.extend_from_slice(&bytes);
            entries += 1;
        }
    }
    assert!(rec.is_done());
    assert_eq!(handled, 9);
    assert_eq!(entries, 5);
    assert_eq!(rec.recorded(), 5);
    assert_eq!(rec.target(), 5);
    assert_eq!(file.len(), 5 * 8 + 1 + 2 + 1 + 0 + 3);
    assert_eq!(rec.on_receive(Some(&[9u8][..])), None);
    assert_eq!(rec.recorded(), 5);
}

#[test]
fn failed_receives_do_not_count() {
    let mut rec = CaptureRecorder::new(2).unwrap();
    for _ in 0..10 {
        assert_eq!(rec.on_receive(None), None);
    }
    assert_eq!(rec.recorded(), 0);
    assert!(!rec.is_done());
}
