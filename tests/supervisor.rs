use cspi::supervisor::{decide_launch, decoder_alive, parse_pid, parse_pid_list, Admission};

#[test]
fn marker_text() {
    assert_eq!(parse_pid(b"1234\n"), Some(1234));
    assert_eq!(parse_pid(b"  77 "), Some(77));
    assert_eq!(parse_pid(b"4294967295"), Some(u32::MAX));
    assert_eq!(parse_pid(b"4294967296"), None);
    assert_eq!(parse_pid(b""), None);
    assert_eq!(parse_pid(b"\n"), None);
    assert_eq!(parse_pid(b"12 34"), None);
    assert_eq!(parse_pid(b"12a"), None);
    assert_eq!(parse_pid(b"NOT FOUND"), None);
}

#[test]
fn process_table_text() {
    assert_eq!(parse_pid_list(b"12\n345\n"), vec![12, 345]);
    assert_eq!(parse_pid_list(b""), Vec::<u32>::new());
    assert_eq!(parse_pid_list(b"1\nx2\n3"), vec![1, 3]);
    assert_eq!(parse_pid_list(b"99999999999 5"), vec![5]);
}

#[test]
fn alive_needs_marker_in_table() {
    assert!(decoder_alive(Some(7), &[1, 7, 9]));
    assert!(!decoder_alive(Some(8), &[1, 7, 9]));
    assert!(!decoder_alive(None, &[1, 7, 9]));
    assert!(!decoder_alive(Some(7), &[]));
}

#[test]
fn admission_is_idempotent() {
    assert_eq!(decide_launch(None, b"100\n200\n"), Admission::Launch);
    assert_eq!(decide_launch(Some(&b"300\n"[..]), b"100\n200\n"), Admission::Launch);
    assert_eq!(decide_launch(Some(&b""[..]), b"100\n200\n"), Admission::Launch);
    assert_eq!(decide_launch(Some(&b"20\n"[..]), b"100\n200\n"), Admission::Launch);
    // after a launch the marker holds the new decoder's id, which is live
    assert_eq!(decide_launch(Some(&b"300\n"[..]), b"100\n200\n300\n"), Admission::AlreadyRunning);
    assert_eq!(decide_launch(Some(&b"200\n"[..]), b"100\n200\n"), Admission::AlreadyRunning);
}
