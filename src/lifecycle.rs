use vstd::prelude::*;

verus! {

/// Which lifecycle markers are present: the hardware layer's boolean state as the
/// core reads it.
#[derive(Clone, Copy, Debug, PartialEq, Eq, Structural)]
pub struct Markers {
    /// The vendor binaries are installed.
    pub installed: bool,
    /// The firmware patch is applied.
    pub patched: bool,
    /// Collection is running.
    pub running: bool,
}

/// Why a lifecycle step may not run.
#[derive(Clone, Copy, Debug, PartialEq, Eq, Structural)]
pub enum LifecycleError {
    NotInstalled,
    AlreadyInstalled,
    NotPatched,
    AlreadyPatched,
    NotRunning,
    AlreadyRunning,
}

/// Whether the vendor binaries are installed.
pub fn is_installed(m: &Markers) -> (r: bool)
    ensures
        r == m.installed,
{
    m.installed
}

/// Whether the firmware patch is applied.
pub fn is_applied(m: &Markers) -> (r: bool)
    ensures
        r == m.patched,
{
    m.patched
}

/// Whether collection is running.
pub fn is_running(m: &Markers) -> (r: bool)
    ensures
        r == m.running,
{
    m.running
}

/// Installing is refused when already installed, unless forced.
pub fn check_install(m: &Markers, force: bool) -> (r: Result<(), LifecycleError>)
    ensures
        r == if !force && m.installed {
            Err(LifecycleError::AlreadyInstalled)
        } else {
            Ok(())
        },
{
    if !force && is_installed(m) {
        Err(LifecycleError::AlreadyInstalled)
    } else {
        Ok(())
    }
}

/// Applying the patch needs an installation and an unpatched firmware.
pub fn check_apply(m: &Markers) -> (r: Result<(), LifecycleError>)
    ensures
        r == if !m.installed {
            Err(LifecycleError::NotInstalled)
        } else if m.patched {
            Err(LifecycleError::AlreadyPatched)
        } else {
            Ok(())
        },
{
    if !is_installed(m) {
        Err(LifecycleError::NotInstalled)
    } else if is_applied(m) {
        Err(LifecycleError::AlreadyPatched)
    } else {
        Ok(())
    }
}

/// Restoring the firmware needs an installation and a patched firmware.
pub fn check_restore(m: &Markers) -> (r: Result<(), LifecycleError>)
    ensures
        r == if !m.installed {
            Err(LifecycleError::NotInstalled)
        } else if !m.patched {
            Err(LifecycleError::NotPatched)
        } else {
            Ok(())
        },
{
    if !is_installed(m) {
        Err(LifecycleError::NotInstalled)
    } else if !is_applied(m) {
        Err(LifecycleError::NotPatched)
    } else {
        Ok(())
    }
}

/// Starting collection needs a patched firmware and no running collection.
pub fn check_start(m: &Markers) -> (r: Result<(), LifecycleError>)
    ensures
        r == if !m.patched {
            Err(LifecycleError::NotPatched)
        } else if m.running {
            Err(LifecycleError::AlreadyRunning)
        } else {
            Ok(())
        },
{
    if !is_applied(m) {
        Err(LifecycleError::NotPatched)
    } else if is_running(m) {
        Err(LifecycleError::AlreadyRunning)
    } else {
        Ok(())
    }
}

/// Stopping collection needs a patched firmware and a running collection.
pub fn check_stop(m: &Markers) -> (r: Result<(), LifecycleError>)
    ensures
        r == if !m.patched {
            Err(LifecycleError::NotPatched)
        } else if !m.running {
            Err(LifecycleError::NotRunning)
        } else {
            Ok(())
        },
{
    if !is_applied(m) {
        Err(LifecycleError::NotPatched)
    } else if !is_running(m) {
        Err(LifecycleError::NotRunning)
    } else {
        Ok(())
    }
}

/// The bytes of ".pcap".
pub open spec fn pcap_suffix() -> Seq<u8> {
    seq![0x2E, 0x70, 0x63, 0x61, 0x70]
}

/// The bytes of ".csi".
pub open spec fn csi_suffix() -> Seq<u8> {
    seq![0x2E, 0x63, 0x73, 0x69]
}

pub open spec fn ends_with(s: Seq<u8>, suffix: Seq<u8>) -> bool {
    suffix.len() <= s.len() && s.subrange(s.len() - suffix.len(), s.len() as int) == suffix
}

/// The file a capture writes to: a record capture never ends in ".pcap" (it gets
/// ".csi" added), a raw-frame capture always does (it gets ".pcap" added when
/// missing); other paths stay as given.
pub open spec fn capture_path_spec(path: Seq<u8>, raw_frames: bool) -> Seq<u8> {
    if !raw_frames && ends_with(path, pcap_suffix()) {
        path + csi_suffix()
    } else if raw_frames && !ends_with(path, pcap_suffix()) {
        path + pcap_suffix()
    } else {
        path
    }
}

fn ends_with_pcap(path: &[u8]) -> (r: bool)
    ensures
        r == ends_with(path@, pcap_suffix()),
{
    let n = path.len();
    if n < 5 {
        return false;
    }
    let r = path[n - 5] == 0x2E && path[n - 4] == 0x70 && path[n - 3] == 0x63 && path[n - 2] == 0x61
        && path[n - 1] == 0x70;
    assert(r == (path@.subrange(n - 5, n as int) =~= pcap_suffix()));
    r
}

/// The output path of a capture, from the path asked for and whether raw frames
/// (rather than relayed records) are captured.
pub fn capture_path(path: &[u8], raw_frames: bool) -> (r: Vec<u8>)
    ensures
        r@ == capture_path_spec(path@, raw_frames),
{
    let ends = ends_with_pcap(path);
    let mut r: Vec<u8> = Vec::new();
    let mut i: usize = 0;
    while i < path.len()
        invariant
            i <= path@.len(),
            r@ == path@.subrange(0, i as int),
        decreases path@.len() - i,
    {
        r.push(path[i]);
        i += 1;
        assert(r@ =~= path@.subrange(0, i as int));
    }
    assert(r@ =~= path@);
    if !raw_frames && ends {
        r.push(0x2E);
        r.push(0x63);
        r.push(0x73);
        r.push(0x69);
        assert(r@ =~= path@ + csi_suffix());
    } else if raw_frames && !ends {
        r.push(0x2E);
        r.push(0x70);
        r.push(0x63);
        r.push(0x61);
        r.push(0x70);
        assert(r@ =~= path@ + pcap_suffix());
    }
    r
}

} // verus!
