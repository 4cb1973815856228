use vstd::prelude::*;
use crate::record::{ComplexSample, CsiRecord, CsiRecordView};

verus! {

/// Bytes before the first subcarrier group.
pub const HEADER_LEN: usize = 18;

/// Bytes of one subcarrier group: real, then imaginary, each 16-bit little-endian.
pub const GROUP_LEN: usize = 4;

/// Shortest frame that carries a header and one subcarrier group.
pub const MIN_FRAME_LEN: usize = 22;

/// The signed value of a byte read as two's complement.
pub open spec fn signed_byte(b: u8) -> int {
    if b < 128 { b as int } else { b as int - 256 }
}

/// The unsigned value of two bytes, least significant first.
pub open spec fn le_u16(lo: u8, hi: u8) -> int {
    lo as int + 256 * (hi as int)
}

/// The signed value of two bytes, least significant first.
pub open spec fn le_i16(lo: u8, hi: u8) -> int {
    if hi < 128 { le_u16(lo, hi) } else { le_u16(lo, hi) - 65536 }
}

/// The source address: bytes 4 to 9 of the frame, most significant first.
pub open spec fn mac_of(f: Seq<u8>) -> int {
    f[4] as int * 0x10000000000 + f[5] as int * 0x100000000 + f[6] as int * 0x1000000
        + f[7] as int * 0x10000 + f[8] as int * 0x100 + f[9] as int
}

/// Number of whole subcarrier groups after the header.
pub open spec fn group_count(f: Seq<u8>) -> int {
    if f.len() < HEADER_LEN { 0 } else { (f.len() - HEADER_LEN) / (GROUP_LEN as int) }
}

/// The subcarrier group at index `i`, as the firmware sent it.
pub open spec fn group_at(f: Seq<u8>, i: int) -> ComplexSample {
    let o = HEADER_LEN + GROUP_LEN * i;
    ComplexSample {
        real: le_i16(f[o], f[o + 1]) as i16,
        imaginary: le_i16(f[o + 2], f[o + 3]) as i16,
    }
}

/// The subcarriers in the order the firmware sent them.
pub open spec fn raw_subcarriers(f: Seq<u8>) -> Seq<ComplexSample> {
    Seq::new(group_count(f) as nat, |i: int| group_at(f, i))
}

/// The upper half (from index `len / 2`) followed by the lower half.
pub open spec fn rotate_halves<A>(s: Seq<A>) -> Seq<A> {
    s.subrange((s.len() / 2) as int, s.len() as int) + s.subrange(0, (s.len() / 2) as int)
}

/// The record that a frame of at least `MIN_FRAME_LEN` bytes decodes to.
pub open spec fn frame_view(f: Seq<u8>) -> CsiRecordView {
    CsiRecordView {
        rssi: signed_byte(f[2]) as i8,
        frame_control: f[3],
        source_mac: mac_of(f) as u64,
        sequence_number: le_u16(f[10], f[11]) as u16,
        subcarriers: rotate_halves(raw_subcarriers(f)),
    }
}

/// The 4 bytes of one subcarrier group: real, then imaginary, each least
/// significant byte first, in two's complement.
pub open spec fn group_bytes(s: ComplexSample) -> Seq<u8> {
    let re: int = if s.real >= 0 { s.real as int } else { s.real + 65536 };
    let im: int = if s.imaginary >= 0 { s.imaginary as int } else { s.imaginary + 65536 };
    seq![(re % 256) as u8, (re / 256) as u8, (im % 256) as u8, (im / 256) as u8]
}

/// The payload of a frame that carries the subcarriers `s`.
pub open spec fn groups_bytes(s: Seq<ComplexSample>) -> Seq<u8>
    decreases s.len(),
{
    if s.len() == 0 {
        Seq::empty()
    } else {
        groups_bytes(s.drop_last()) + group_bytes(s.last())
    }
}

proof fn lemma_groups_layout(s: Seq<ComplexSample>)
    ensures
        groups_bytes(s).len() == GROUP_LEN * s.len(),
        forall|i: int, k: int|
            0 <= i < s.len() && 0 <= k < GROUP_LEN ==> #[trigger] groups_bytes(s)[GROUP_LEN * i
                + k] == group_bytes(s[i])[k],
    decreases s.len(),
{
    if s.len() > 0 {
        lemma_groups_layout(s.drop_last());
        assert forall|i: int, k: int|
            0 <= i < s.len() && 0 <= k < GROUP_LEN implies #[trigger] groups_bytes(s)[GROUP_LEN
            * i + k] == group_bytes(s[i])[k] by {
            if i < s.len() - 1 {
                assert(groups_bytes(s.drop_last())[GROUP_LEN * i + k] == group_bytes(
                    s.drop_last()[i],
                )[k]);
            }
        }
    }
}

/// Reorder law: a frame whose payload carries the subcarriers `s` (and any header)
/// decodes to the subcarriers from index `len / 2` on, followed by those before it.
pub proof fn lemma_reorder(header: Seq<u8>, s: Seq<ComplexSample>)
    requires
        header.len() == HEADER_LEN,
        s.len() > 0,
    ensures
        (header + groups_bytes(s)).len() >= MIN_FRAME_LEN,
        frame_view(header + groups_bytes(s)).subcarriers == s.subrange(
            (s.len() / 2) as int,
            s.len() as int,
        ) + s.subrange(0, (s.len() / 2) as int),
{
    let f = header + groups_bytes(s);
    lemma_groups_layout(s);
    assert(group_count(f) == s.len());
    assert forall|i: int| 0 <= i < s.len() implies #[trigger] group_at(f, i) == s[i] by {
        let o = HEADER_LEN + GROUP_LEN * i;
        assert(f[o] == groups_bytes(s)[GROUP_LEN * i + 0]);
        assert(f[o + 1] == groups_bytes(s)[GROUP_LEN * i + 1]);
        assert(f[o + 2] == groups_bytes(s)[GROUP_LEN * i + 2]);
        assert(f[o + 3] == groups_bytes(s)[GROUP_LEN * i + 3]);
    }
    assert(raw_subcarriers(f) =~= s);
}

/// Moves the upper half of the subcarriers in front of the lower half, keeping the
/// order within each half.
pub fn swap_halves(samples: &Vec<ComplexSample>) -> (r: Vec<ComplexSample>)
    ensures
        r@ == rotate_halves(samples@),
{
    let n = samples.len();
    let half = n / 2;
    let mut r: Vec<ComplexSample> = Vec::with_capacity(n);
    let mut i: usize = half;
    while i < n
        invariant
            half <= i <= n,
            n == samples@.len(),
            half == n / 2,
            r@ == samples@.subrange(half as int, i as int),
        decreases n - i,
    {
        r.push(samples[i]);
        i += 1;
    }
    let mut j: usize = 0;
    while j < half
        invariant
            j <= half,
            n == samples@.len(),
            half == n / 2,
            r@ == samples@.subrange(half as int, n as int) + samples@.subrange(0, j as int),
        decreases half - j,
    {
        r.push(samples[j]);
        j += 1;
    }
    r
}


/// Reads a signed 16-bit value from two bytes, least significant first.
fn read_i16(lo: u8, hi: u8) -> (r: i16)
    ensures
        r as int == le_i16(lo, hi),
{
    let u: u16 = (hi as u16) * 256 + lo as u16;
    if u < 32768 {
        u as i16
    } else {
        (u as i32 - 65536) as i16
    }
}

/// Decodes one raw frame: fixed header fields, then every whole 4-byte subcarrier
/// group, with the two halves of the subcarriers swapped into ascending-frequency
/// order. A frame shorter than `MIN_FRAME_LEN` is malformed and gives `None`;
/// bytes after the last whole group are ignored.
pub fn decode_frame(frame: &[u8]) -> (r: Option<CsiRecord>)
    ensures
        r is None <==> frame@.len() < MIN_FRAME_LEN,
        r matches Some(rec) ==> rec@ == frame_view(frame@),
{
    let n = frame.len();
    if n < MIN_FRAME_LEN {
        return None;
    }
    let b2 = frame[2];
    let rssi: i8 = if b2 < 128 { b2 as i8 } else { (b2 as i16 - 256) as i8 };
    let source_mac: u64 = (frame[4] as u64) * 0x10000000000 + (frame[5] as u64) * 0x100000000
        + (frame[6] as u64) * 0x1000000 + (frame[7] as u64) * 0x10000 + (frame[8] as u64)
        * 0x100 + frame[9] as u64;
    let sequence_number: u16 = (frame[11] as u16) * 256 + frame[10] as u16;
    let count = (n - HEADER_LEN) / GROUP_LEN;
    let mut raw: Vec<ComplexSample> = Vec::with_capacity(count);
    let mut i: usize = 0;
    while i < count
        invariant
            n == frame@.len(),
            n >= MIN_FRAME_LEN,
            count == group_count(frame@),
            i <= count,
            raw@ =~= raw_subcarriers(frame@).subrange(0, i as int),
        decreases count - i,
    {
        let o = HEADER_LEN + GROUP_LEN * i;
        let s = ComplexSample {
            real: read_i16(frame[o], frame[o + 1]),
            imaginary: read_i16(frame[o + 2], frame[o + 3]),
        };
        raw.push(s);
        i += 1;
    }
    assert(raw@ =~= raw_subcarriers(frame@));
    let rec = CsiRecord {
        rssi,
        frame_control: frame[3],
        source_mac,
        sequence_number,
        subcarriers: swap_halves(&raw),
    };
    assert(rec@ == frame_view(frame@));
    Some(rec)
}

} // verus!
