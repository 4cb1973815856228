use vstd::prelude::*;

verus! {

/// Bytes of the length prefix of a capture entry.
pub const PREFIX_LEN: usize = 8;

/// A length as 8 bytes, least significant first.
pub open spec fn le_u64_bytes(n: u64) -> Seq<u8> {
    seq![
        (n % 0x100) as u8,
        ((n / 0x100) % 0x100) as u8,
        ((n / 0x10000) % 0x100) as u8,
        ((n / 0x1000000) % 0x100) as u8,
        ((n / 0x100000000) % 0x100) as u8,
        ((n / 0x10000000000) % 0x100) as u8,
        ((n / 0x1000000000000) % 0x100) as u8,
        ((n / 0x100000000000000) % 0x100) as u8,
    ]
}

/// One capture entry: the payload's length as 8 little-endian bytes, then the payload.
pub open spec fn entry_bytes(payload: Seq<u8>) -> Seq<u8> {
    le_u64_bytes(payload.len() as u64) + payload
}

/// A capture file holding the given payloads, one entry each, in order.
pub open spec fn file_bytes(payloads: Seq<Seq<u8>>) -> Seq<u8>
    decreases payloads.len(),
{
    if payloads.len() == 0 {
        Seq::empty()
    } else {
        file_bytes(payloads.drop_last()) + entry_bytes(payloads.last())
    }
}

/// One step of the recorder: from the count written so far and the outcome of a
/// receive, the new count and the payload to write, if any.
pub open spec fn capture_step(target: nat, count: nat, ev: Option<Seq<u8>>) -> (nat, Option<
    Seq<u8>,
>) {
    match ev {
        Some(p) => if count < target {
            (count + 1, Some(p))
        } else {
            (count, None)
        },
        None => (count, None),
    }
}

/// What the recorder has after a run of receive outcomes (`Some` payload for a
/// successful receive, `None` for a failed one): how many entries it wrote, and
/// their payloads in order.
pub open spec fn capture_run(target: nat, events: Seq<Option<Seq<u8>>>) -> (nat, Seq<Seq<u8>>)
    decreases events.len(),
{
    if events.len() == 0 {
        (0, Seq::empty())
    } else {
        let (count, written) = capture_run(target, events.drop_last());
        let (next, out) = capture_step(target, count, events.last());
        match out {
            Some(p) => (next, written.push(p)),
            None => (next, written),
        }
    }
}

/// The payloads of the successful receives, in order.
pub open spec fn received(events: Seq<Option<Seq<u8>>>) -> Seq<Seq<u8>>
    decreases events.len(),
{
    if events.len() == 0 {
        Seq::empty()
    } else {
        match events.last() {
            Some(p) => received(events.drop_last()).push(p),
            None => received(events.drop_last()),
        }
    }
}

/// Capture termination: whatever failed receives come in between, the recorder
/// writes the first `target` successfully received payloads and nothing more, one
/// entry each; it is done exactly when `target` of them have come.
pub proof fn lemma_capture_run(target: nat, events: Seq<Option<Seq<u8>>>)
    ensures
        capture_run(target, events).0 == if received(events).len() < target {
            received(events).len()
        } else {
            target
        },
        capture_run(target, events).1 == received(events).subrange(
            0,
            capture_run(target, events).0 as int,
        ),
    decreases events.len(),
{
    if events.len() > 0 {
        lemma_capture_run(target, events.drop_last());
        let prev = received(events.drop_last());
        if let Some(p) = events.last() {
            assert(received(events) == prev.push(p));
            let c = capture_run(target, events.drop_last()).0;
            if c < target {
                assert(prev.push(p).subrange(0, (c + 1) as int) =~= prev.subrange(0, c as int).push(p));
            } else {
                assert(prev.push(p).subrange(0, c as int) =~= prev.subrange(0, c as int));
            }
        }
    }
}

/// Why a capture could not be set up.
#[derive(Clone, Copy, Debug, PartialEq, Eq, Structural)]
pub enum CaptureError {
    /// The requested number of records is zero.
    ZeroCount,
}

/// Writes the capture entry of one payload.
pub fn frame_entry(payload: &[u8]) -> (r: Vec<u8>)
    ensures
        r@ == entry_bytes(payload@),
{
    let n = payload.len() as u64;
    let mut r: Vec<u8> = Vec::new();
    r.push((n % 0x100) as u8);
    r.push(((n / 0x100) % 0x100) as u8);
    r.push(((n / 0x10000) % 0x100) as u8);
    r.push(((n / 0x1000000) % 0x100) as u8);
    r.push(((n / 0x100000000) % 0x100) as u8);
    r.push(((n / 0x10000000000) % 0x100) as u8);
    r.push(((n / 0x1000000000000) % 0x100) as u8);
    r.push(((n / 0x100000000000000) % 0x100) as u8);
    let ghost head = r@;
    assert(head =~= le_u64_bytes(n));
    let mut i: usize = 0;
    while i < payload.len()
        invariant
            i <= payload@.len(),
            r@ == head + payload@.subrange(0, i as int),
        decreases payload@.len() - i,
    {
        r.push(payload[i]);
        i += 1;
        assert(r@ =~= head + payload@.subrange(0, i as int));
    }
    assert(payload@.subrange(0, i as int) =~= payload@);
    r
}

/// Counts relayed records into a capture file until the requested number is reached.
pub struct CaptureRecorder {
    target: u32,
    recorded: u32,
}

impl CaptureRecorder {
    /// How many records the capture asks for.
    pub closed spec fn target_spec(&self) -> nat {
        self.target as nat
    }

    /// How many records have been written.
    pub closed spec fn recorded_spec(&self) -> nat {
        self.recorded as nat
    }

    pub closed spec fn wf(&self) -> bool {
        self.recorded <= self.target
    }

    /// A recorder for `target` records; a count of zero is refused.
    pub fn new(target: u32) -> (r: Result<CaptureRecorder, CaptureError>)
        ensures
            target == 0 <==> r is Err,
            r matches Ok(c) ==> c.wf() && c.target_spec() == target && c.recorded_spec() == 0,
            r matches Err(e) ==> e == CaptureError::ZeroCount,
    {
        if target == 0 {
            Err(CaptureError::ZeroCount)
        } else {
            Ok(CaptureRecorder { target, recorded: 0 })
        }
    }

    /// Handles the outcome of one receive: a payload (`Some`) or a failed receive
    /// (`None`). Gives the bytes to append to the capture file, if any: a payload is
    /// written as one entry while the target is not reached; a failed receive, or
    /// a payload after the target, writes nothing and changes nothing.
    pub fn on_receive(&mut self, payload: Option<&[u8]>) -> (r: Option<Vec<u8>>)
        requires
            old(self).wf(),
        ensures
            final(self).wf(),
            final(self).target_spec() == old(self).target_spec(),
            ({
                let ev = match payload {
                    Some(p) => Some(p@),
                    None => None,
                };
                let (next, out) = capture_step(
                    old(self).target_spec(),
                    old(self).recorded_spec(),
                    ev,
                );
                &&& final(self).recorded_spec() == next
                &&& match out {
                    Some(p) => r matches Some(bytes) && bytes@ == entry_bytes(p),
                    None => r is None,
                }
            }),
    {
        match payload {
            Some(p) => {
                if self.recorded < self.target {
                    self.recorded = self.recorded + 1;
                    Some(frame_entry(p))
                } else {
                    None
                }
            },
            None => None,
        }
    }

    /// Whether the requested number of records has been written.
    pub fn is_done(&self) -> (r: bool)
        requires
            self.wf(),
        ensures
            r == (self.recorded_spec() == self.target_spec()),
    {
        self.recorded == self.target
    }

    /// How many records have been written.
    pub fn recorded(&self) -> (r: u32)
        ensures
            r == self.recorded_spec(),
    {
        self.recorded
    }

    /// How many records the capture asks for.
    pub fn target(&self) -> (r: u32)
        ensures
            r == self.target_spec(),
    {
        self.target
    }
}

} // verus!
