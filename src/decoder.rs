use vstd::prelude::*;
use crate::frame::{decode_frame, frame_view, MIN_FRAME_LEN};
use crate::relay::{encode_record, record_bytes};

verus! {

/// The relay message for one received datagram: `None` for a malformed (too short)
/// frame, which is dropped.
pub fn relay_message(datagram: &[u8]) -> (r: Option<Vec<u8>>)
    ensures
        r is None <==> datagram@.len() < MIN_FRAME_LEN,
        r matches Some(m) ==> m@ == record_bytes(frame_view(datagram@)),
{
    match decode_frame(datagram) {
        Some(rec) => Some(encode_record(&rec)),
        None => None,
    }
}

/// Counts of what the decoder loop did, for reporting.
#[derive(Clone, Copy, Debug, PartialEq, Eq, Structural)]
pub struct DecoderStats {
    /// Frames decoded and handed on for relaying.
    pub relayed: u64,
    /// Malformed frames dropped.
    pub dropped: u64,
    /// Relay messages whose sending failed.
    pub failed_sends: u64,
}

impl DecoderStats {
    pub fn new() -> (r: DecoderStats)
        ensures
            r == (DecoderStats { relayed: 0, dropped: 0, failed_sends: 0 }),
    {
        DecoderStats { relayed: 0, dropped: 0, failed_sends: 0 }
    }

    /// Handles one received datagram: gives the message to relay, or `None` for a
    /// malformed frame. Counts either outcome, saturating at `u64::MAX`.
    pub fn on_datagram(&mut self, datagram: &[u8]) -> (r: Option<Vec<u8>>)
        ensures
            r is None <==> datagram@.len() < MIN_FRAME_LEN,
            r matches Some(m) ==> m@ == record_bytes(frame_view(datagram@)),
            final(self).failed_sends == old(self).failed_sends,
            r is Some ==> final(self).dropped == old(self).dropped && final(self).relayed == if old(
                self,
            ).relayed < u64::MAX {
                old(self).relayed + 1
            } else {
                old(self).relayed as int
            },
            r is None ==> final(self).relayed == old(self).relayed && final(self).dropped == if old(
                self,
            ).dropped < u64::MAX {
                old(self).dropped + 1
            } else {
                old(self).dropped as int
            },
    {
        let r = relay_message(datagram);
        if r.is_some() {
            self.relayed = self.relayed.saturating_add(1);
        } else {
            self.dropped = self.dropped.saturating_add(1);
        }
        r
    }

    /// Counts a relay message that could not be sent, saturating at `u64::MAX`.
    pub fn on_send_failure(&mut self)
        ensures
            final(self).relayed == old(self).relayed,
            final(self).dropped == old(self).dropped,
            final(self).failed_sends == if old(self).failed_sends < u64::MAX {
                old(self).failed_sends + 1
            } else {
                old(self).failed_sends as int
            },
    {
        self.failed_sends = self.failed_sends.saturating_add(1);
    }
}

} // verus!
