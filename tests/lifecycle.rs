use cspi::lifecycle::{
    capture_path, check_apply, check_install, check_restore, check_start, check_stop,
    is_applied, is_installed, is_running, LifecycleError, Markers,
};

fn markers(installed: bool, patched: bool, running: bool) -> Markers {
    Markers { installed, patched, running }
}

#[test]
fn marker_queries() {
    let m = markers(true, false, true);
    assert!(is_installed(&m));
    assert!(!is_applied(&m));
    assert!(is_running(&m));
}

#[test]
fn lifecycle_checks() {
    assert_eq!(check_install(&markers(true, false, false), false), Err(LifecycleError::AlreadyInstalled));
    assert_eq!(check_install(&markers(true, false, false), true), Ok(()));
    assert_eq!(check_apply(&markers(false, false, false)), Err(LifecycleError::NotInstalled));
    assert_eq!(check_apply(&markers(true, true, false)), Err(LifecycleError::AlreadyPatched));
    assert_eq!(check_apply(&markers(true, false, false)), Ok(()));
    assert_eq!(check_restore(&markers(true, false, false)), Err(LifecycleError::NotPatched));
    assert_eq!(check_restore(&markers(true, true, false)), Ok(()));
    assert_eq!(check_start(&markers(true, false, false)), Err(LifecycleError::NotPatched));
    assert_eq!(check_start(&markers(true, true, true)), Err(LifecycleError::AlreadyRunning));
    assert_eq!(check_start(&markers(true, true, false)), Ok(()));
    assert_eq!(check_stop(&markers(true, true, false)), Err(LifecycleError::NotRunning));
    assert_eq!(check_stop(&markers(true, true, true)), Ok(()));
}

#[test]
fn capture_paths() {
    assert_eq!(capture_path(b"output.pcap", false), b"output.pcap.csi".to_vec());
    assert_eq!(capture_path(b"output", true), b"output.pcap".to_vec());
    assert_eq!(capture_path(b"output.pcap", true), b"output.pcap".to_vec());
    assert_eq!(capture_path(b"run.csi", false), b"run.csi".to_vec());
    assert_eq!(capture_path(b"", true), b".pcap".to_vec());
}
