use vstd::prelude::*;
use vstd::slice::slice_subrange;
use crate::record::{ComplexSample, CsiRecord, CsiRecordView};

verus! {

/// prost's error for a malformed varint, carried through and never looked into.
#[verifier::external_type_specification]
#[verifier::external_body]
pub struct ExDecodeError(prost::DecodeError);

/// Key of the repeated subcarrier field (field 1, length-delimited).
pub const KEY_SUBCARRIER: u8 = 0x0A;
/// Key of a subcarrier's real part (field 1, varint).
pub const KEY_REAL: u8 = 0x08;
/// Key of a subcarrier's imaginary part (field 2, varint).
pub const KEY_IMAGINARY: u8 = 0x10;
/// Key of the signal strength (field 2, varint).
pub const KEY_RSSI: u8 = 0x10;
/// Key of the frame control byte (field 3, varint).
pub const KEY_FRAME_CONTROL: u8 = 0x18;
/// Key of the source address (field 4, varint).
pub const KEY_SOURCE_MAC: u8 = 0x20;
/// Key of the sequence number (field 5, varint).
pub const KEY_SEQUENCE: u8 = 0x28;

/// LEB128 encoding of an unsigned value: seven bits per byte, least significant
/// group first, the high bit set on every byte but the last.
pub open spec fn varint_bytes(v: u64) -> Seq<u8>
    decreases v,
{
    if v < 128 {
        seq![v as u8]
    } else {
        seq![(v % 128 + 128) as u8] + varint_bytes((v / 128) as u64)
    }
}

/// `p` is a prefix of `s`.
pub open spec fn starts_with(s: Seq<u8>, p: Seq<u8>) -> bool {
    p.len() <= s.len() && s.subrange(0, p.len() as int) == p
}

/// The fields of one subcarrier message.
pub open spec fn sample_body(s: ComplexSample) -> Seq<u8> {
    seq![KEY_REAL] + varint_bytes(s.real as u64) + seq![KEY_IMAGINARY] + varint_bytes(
        s.imaginary as u64,
    )
}

/// One subcarrier as an entry of the repeated field: key, length, message.
pub open spec fn sample_entry(s: ComplexSample) -> Seq<u8> {
    seq![KEY_SUBCARRIER] + varint_bytes(sample_body(s).len() as u64) + sample_body(s)
}

/// The repeated subcarrier field, in order.
pub open spec fn samples_bytes(s: Seq<ComplexSample>) -> Seq<u8>
    decreases s.len(),
{
    if s.len() == 0 {
        Seq::empty()
    } else {
        samples_bytes(s.drop_last()) + sample_entry(s.last())
    }
}

/// The scalar fields, in field order.
pub open spec fn scalar_bytes(r: CsiRecordView) -> Seq<u8> {
    seq![KEY_RSSI] + varint_bytes(r.rssi as u64) + seq![KEY_FRAME_CONTROL] + varint_bytes(
        r.frame_control as u64,
    ) + seq![KEY_SOURCE_MAC] + varint_bytes(r.source_mac) + seq![KEY_SEQUENCE] + varint_bytes(
        r.sequence_number as u64,
    )
}

/// The relay message of a record: a protobuf message with every field present,
/// signed values sign-extended to 64 bits as protobuf's `int32` does.
pub open spec fn record_bytes(r: CsiRecordView) -> Seq<u8> {
    samples_bytes(r.subcarriers) + scalar_bytes(r)
}

/// Relies on prost::encoding::encode_varint: appends the LEB128 encoding of the value
/// to the buffer.
#[verifier::external_body]
fn put_varint(value: u64, buf: &mut Vec<u8>)
    ensures
        final(buf)@ == old(buf)@ + varint_bytes(value),
{
    prost::encoding::encode_varint(value, buf)
}

/// Relies on prost::encoding::decode_varint over a byte slice: a slice that starts
/// with the LEB128 encoding of a value reads back as that value, with the bytes after
/// it left; any success consumes at least one byte. Gives the value and the number of
/// bytes left.
#[verifier::external_body]
fn read_varint(buf: &[u8]) -> (r: Result<(u64, usize), prost::DecodeError>)
    ensures
        r is Ok ==> r->Ok_0.1 < buf@.len(),
        forall|v: u64| #[trigger]
            starts_with(buf@, varint_bytes(v)) ==> r is Ok && r->Ok_0.0 == v && r->Ok_0.1
                == buf@.len() - varint_bytes(v).len(),
{
    let mut rest: &[u8] = buf;
    match prost::encoding::decode_varint(&mut rest) {
        Ok(v) => Ok((v, rest.len())),
        Err(e) => Err(e),
    }
}

/// Appends the relay encoding of one subcarrier entry.
fn put_sample(s: ComplexSample, out: &mut Vec<u8>)
    ensures
        final(out)@ == old(out)@ + sample_entry(s),
{
    let mut body: Vec<u8> = Vec::new();
    body.push(KEY_REAL);
    put_varint(s.real as u64, &mut body);
    body.push(KEY_IMAGINARY);
    put_varint(s.imaginary as u64, &mut body);
    assert(body@ =~= sample_body(s));
    out.push(KEY_SUBCARRIER);
    put_varint(body.len() as u64, out);
    let mut i: usize = 0;
    let ghost start = out@;
    while i < body.len()
        invariant
            i <= body@.len(),
            out@ == start + body@.subrange(0, i as int),
        decreases body@.len() - i,
    {
        out.push(body[i]);
        i += 1;
        assert(out@ =~= start + body@.subrange(0, i as int));
    }
    assert(body@.subrange(0, body@.len() as int) =~= body@);
    assert(final(out)@ =~= old(out)@ + sample_entry(s));
}

/// Serialises a record into its relay message.
pub fn encode_record(r: &CsiRecord) -> (out: Vec<u8>)
    ensures
        out@ == record_bytes(r@),
{
    let mut out: Vec<u8> = Vec::new();
    let n = r.subcarriers.len();
    let mut i: usize = 0;
    while i < n
        invariant
            n == r.subcarriers@.len(),
            i <= n,
            out@ == samples_bytes(r.subcarriers@.subrange(0, i as int)),
        decreases n - i,
    {
        let ghost pre = r.subcarriers@.subrange(0, i as int);
        put_sample(r.subcarriers[i], &mut out);
        i += 1;
        let ghost next = r.subcarriers@.subrange(0, i as int);
        assert(next.drop_last() =~= pre);
    }
    assert(r.subcarriers@.subrange(0, n as int) =~= r.subcarriers@);
    out.push(KEY_RSSI);
    put_varint(r.rssi as u64, &mut out);
    out.push(KEY_FRAME_CONTROL);
    put_varint(r.frame_control as u64, &mut out);
    out.push(KEY_SOURCE_MAC);
    put_varint(r.source_mac, &mut out);
    out.push(KEY_SEQUENCE);
    put_varint(r.sequence_number as u64, &mut out);
    assert(out@ =~= record_bytes(r@));
    out
}


/// The bytes of `b` from `pos` on.
pub open spec fn from(b: Seq<u8>, pos: int) -> Seq<u8> {
    b.subrange(pos, b.len() as int)
}

proof fn lemma_split(b: Seq<u8>, pos: int, x: Seq<u8>, y: Seq<u8>)
    requires
        0 <= pos <= b.len(),
        starts_with(from(b, pos), x + y),
    ensures
        starts_with(from(b, pos), x),
        starts_with(from(b, pos + x.len()), y),
{
    assert(from(b, pos).subrange(0, x.len() as int) =~= (x + y).subrange(0, x.len() as int));
    assert((x + y).subrange(0, x.len() as int) =~= x);
    assert(from(b, pos + x.len()).subrange(0, y.len() as int) =~= (x + y).subrange(
        x.len() as int,
        (x.len() + y.len()) as int,
    ));
    assert((x + y).subrange(x.len() as int, (x.len() + y.len()) as int) =~= y);
}

proof fn lemma_key(b: Seq<u8>, pos: int, k: u8, y: Seq<u8>)
    requires
        0 <= pos <= b.len(),
        starts_with(from(b, pos), seq![k] + y),
    ensures
        pos < b.len(),
        b[pos] == k,
        starts_with(from(b, pos + 1), y),
{
    lemma_split(b, pos, seq![k], y);
    assert(from(b, pos).subrange(0, 1)[0] == b[pos]);
}

proof fn lemma_cast_i8(x: i8)
    ensures
        (x as u64) as i8 == x,
{
    assert((x as u64) as i8 == x) by (bit_vector);
}

proof fn lemma_cast_i16(x: i16)
    ensures
        (x as u64) as i16 == x,
{
    assert((x as u64) as i16 == x) by (bit_vector);
}

proof fn lemma_cast_u8(x: u8)
    ensures
        (x as u64) as u8 == x,
{
    assert((x as u64) as u8 == x) by (bit_vector);
}

proof fn lemma_cast_u16(x: u16)
    ensures
        (x as u64) as u16 == x,
{
    assert((x as u64) as u16 == x) by (bit_vector);
}

/// Reads the varint that starts at `pos`; gives its value and the position after it.
fn read_varint_at(bytes: &[u8], pos: usize) -> (r: Option<(u64, usize)>)
    requires
        pos <= bytes@.len(),
    ensures
        r matches Some((_, p)) ==> pos < p <= bytes@.len(),
        forall|v: u64| #[trigger]
            starts_with(from(bytes@, pos as int), varint_bytes(v)) ==> r == Some(
                (v, (pos + varint_bytes(v).len()) as usize),
            ),
{
    let n = bytes.len();
    let rest = slice_subrange(bytes, pos, n);
    match read_varint(rest) {
        Ok((v, left)) => Some((v, n - left)),
        Err(_) => None,
    }
}

/// Reads one subcarrier entry at `pos`; gives the subcarrier and the position after it.
fn read_sample(bytes: &[u8], pos: usize, Ghost(s): Ghost<ComplexSample>) -> (r: Option<
    (ComplexSample, usize),
>)
    requires
        pos <= bytes@.len(),
    ensures
        r matches Some((_, p)) ==> pos < p <= bytes@.len(),
        starts_with(from(bytes@, pos as int), sample_entry(s)) ==> r == Some(
            (s, (pos + sample_entry(s).len()) as usize),
        ),
{
    let ghost b = bytes@;
    let ghost ok = starts_with(from(b, pos as int), sample_entry(s));
    let ghost lv = varint_bytes(sample_body(s).len() as u64);
    let ghost vr = varint_bytes(s.real as u64);
    let ghost vi = varint_bytes(s.imaginary as u64);
    proof {
        if ok {
            assert(sample_entry(s) =~= seq![KEY_SUBCARRIER] + (lv + (seq![KEY_REAL] + (vr + (
            seq![KEY_IMAGINARY] + vi)))));
            lemma_key(b, pos as int, KEY_SUBCARRIER, lv + (seq![KEY_REAL] + (vr + (
            seq![KEY_IMAGINARY] + vi))));
            lemma_split(b, pos + 1, lv, seq![KEY_REAL] + (vr + (seq![KEY_IMAGINARY] + vi)));
            let q = pos + 1 + lv.len();
            lemma_key(b, q, KEY_REAL, vr + (seq![KEY_IMAGINARY] + vi));
            lemma_split(b, q + 1, vr, seq![KEY_IMAGINARY] + vi);
            lemma_key(b, q + 1 + vr.len(), KEY_IMAGINARY, vi);
            lemma_cast_i16(s.real);
            lemma_cast_i16(s.imaginary);
        }
    }
    let n = bytes.len();
    if pos >= n || bytes[pos] != KEY_SUBCARRIER {
        return None;
    }
    let (len, p) = match read_varint_at(bytes, pos + 1) {
        Some(x) => x,
        None => { return None },
    };
    if len > (n - p) as u64 {
        return None;
    }
    let end = p + len as usize;
    if p >= n || bytes[p] != KEY_REAL {
        return None;
    }
    let (re, p) = match read_varint_at(bytes, p + 1) {
        Some(x) => x,
        None => { return None },
    };
    if p >= n || bytes[p] != KEY_IMAGINARY {
        return None;
    }
    let (im, p) = match read_varint_at(bytes, p + 1) {
        Some(x) => x,
        None => { return None },
    };
    if p != end {
        return None;
    }
    Some((ComplexSample { real: re as i16, imaginary: im as i16 }, end))
}


proof fn lemma_samples_concat(a: Seq<ComplexSample>, b: Seq<ComplexSample>)
    ensures
        samples_bytes(a + b) == samples_bytes(a) + samples_bytes(b),
    decreases b.len(),
{
    if b.len() == 0 {
        assert(a + b =~= a);
        assert(samples_bytes(a) + samples_bytes(b) =~= samples_bytes(a));
    } else {
        lemma_samples_concat(a, b.drop_last());
        assert((a + b).drop_last() =~= a + b.drop_last());
        assert(samples_bytes(a) + samples_bytes(b) =~= samples_bytes(a) + samples_bytes(
            b.drop_last(),
        ) + sample_entry(b.last()));
    }
}

/// The entries of a non-empty sequence: the first, then those of the rest.
proof fn lemma_samples_front(s: Seq<ComplexSample>)
    requires
        s.len() > 0,
    ensures
        samples_bytes(s) == sample_entry(s[0]) + samples_bytes(s.drop_first()),
{
    lemma_samples_concat(seq![s[0]], s.drop_first());
    assert(seq![s[0]] + s.drop_first() =~= s);
    let one = seq![s[0]];
    assert(one.drop_last() =~= Seq::<ComplexSample>::empty());
    assert(one.last() == s[0]);
    assert(samples_bytes(one.drop_last()) =~= Seq::<u8>::empty());
    assert(samples_bytes(one) == samples_bytes(one.drop_last()) + sample_entry(one.last()));
    assert(samples_bytes(one) =~= sample_entry(s[0]));
}

/// Whether two byte sequences are equal.
fn same_bytes(a: &Vec<u8>, b: &[u8]) -> (r: bool)
    ensures
        r == (a@ == b@),
{
    if a.len() != b.len() {
        return false;
    }
    let mut i: usize = 0;
    while i < a.len()
        invariant
            a@.len() == b@.len(),
            i <= a@.len(),
            a@.subrange(0, i as int) == b@.subrange(0, i as int),
        decreases a@.len() - i,
    {
        if a[i] != b[i] {
            assert(a@.subrange(0, i as int + 1)[i as int] != b@.subrange(0, i as int + 1)[i as int]);
            return false;
        }
        assert(a@.subrange(0, i as int + 1) =~= a@.subrange(0, i as int).push(a@[i as int]));
        assert(b@.subrange(0, i as int + 1) =~= b@.subrange(0, i as int).push(b@[i as int]));
        i += 1;
    }
    assert(a@ =~= a@.subrange(0, i as int));
    assert(b@ =~= b@.subrange(0, i as int));
    true
}

/// Reads the key `k` and the varint after it at `pos`.
fn read_field(bytes: &[u8], pos: usize, k: u8) -> (r: Option<(u64, usize)>)
    requires
        pos <= bytes@.len(),
    ensures
        r matches Some((_, p)) ==> pos < p <= bytes@.len(),
        forall|v: u64| #[trigger]
            starts_with(from(bytes@, pos as int), seq![k] + varint_bytes(v)) ==> r == Some(
                (v, (pos + 1 + varint_bytes(v).len()) as usize),
            ),
{
    proof {
        assert forall|v: u64| #[trigger]
            starts_with(from(bytes@, pos as int), seq![k] + varint_bytes(v)) implies pos
            < bytes@.len() && bytes@[pos as int] == k && starts_with(
            from(bytes@, pos + 1),
            varint_bytes(v),
        ) by {
            lemma_key(bytes@, pos as int, k, varint_bytes(v));
        }
    }
    if pos >= bytes.len() || bytes[pos] != k {
        return None;
    }
    read_varint_at(bytes, pos + 1)
}

/// What follows the first `i` subcarrier entries of a record's message: the next
/// entry and the rest while subcarriers remain, else the scalar fields.
proof fn lemma_after_entries(b: Seq<u8>, pos: int, t: CsiRecordView, i: int)
    requires
        0 <= pos <= b.len(),
        0 <= i <= t.subcarriers.len(),
        starts_with(from(b, pos), samples_bytes(t.subcarriers.skip(i)) + scalar_bytes(t)),
    ensures
        pos < b.len(),
        i == t.subcarriers.len() ==> b[pos] == KEY_RSSI && starts_with(
            from(b, pos),
            scalar_bytes(t),
        ),
        i < t.subcarriers.len() ==> {
            &&& b[pos] == KEY_SUBCARRIER
            &&& starts_with(from(b, pos), sample_entry(t.subcarriers[i]))
            &&& starts_with(
                from(b, pos + sample_entry(t.subcarriers[i]).len()),
                samples_bytes(t.subcarriers.skip(i + 1)) + scalar_bytes(t),
            )
        },
{
    let tail = t.subcarriers.skip(i);
    if i == t.subcarriers.len() {
        assert(tail =~= Seq::<ComplexSample>::empty());
        assert(samples_bytes(tail) + scalar_bytes(t) =~= scalar_bytes(t));
        assert(scalar_bytes(t) =~= seq![KEY_RSSI] + scalar_bytes(t).skip(1));
        lemma_key(b, pos, KEY_RSSI, scalar_bytes(t).skip(1));
    } else {
        lemma_samples_front(tail);
        assert(tail.drop_first() =~= t.subcarriers.skip(i + 1));
        let e = sample_entry(tail[0]);
        let rest = samples_bytes(t.subcarriers.skip(i + 1)) + scalar_bytes(t);
        assert(samples_bytes(tail) + scalar_bytes(t) =~= e + rest);
        lemma_split(b, pos, e, rest);
        assert(e =~= seq![KEY_SUBCARRIER] + e.skip(1));
        lemma_key(b, pos, KEY_SUBCARRIER, e.skip(1));
    }
}

/// The four scalar fields of a record's message, one after the other.
proof fn lemma_scalar_fields(b: Seq<u8>, pos: int, t: CsiRecordView)
    requires
        0 <= pos <= b.len(),
        starts_with(from(b, pos), scalar_bytes(t)),
    ensures
        ({
            let vr = varint_bytes(t.rssi as u64);
            let vf = varint_bytes(t.frame_control as u64);
            let vm = varint_bytes(t.source_mac);
            let vs = varint_bytes(t.sequence_number as u64);
            let q1 = pos + 1 + vr.len();
            let q2 = q1 + 1 + vf.len();
            let q3 = q2 + 1 + vm.len();
            &&& starts_with(from(b, pos), seq![KEY_RSSI] + vr)
            &&& starts_with(from(b, q1), seq![KEY_FRAME_CONTROL] + vf)
            &&& starts_with(from(b, q2), seq![KEY_SOURCE_MAC] + vm)
            &&& starts_with(from(b, q3), seq![KEY_SEQUENCE] + vs)
        }),
        (t.rssi as u64) as i8 == t.rssi,
        (t.frame_control as u64) as u8 == t.frame_control,
        (t.sequence_number as u64) as u16 == t.sequence_number,
{
    let vr = varint_bytes(t.rssi as u64);
    let vf = varint_bytes(t.frame_control as u64);
    let vm = varint_bytes(t.source_mac);
    let vs = varint_bytes(t.sequence_number as u64);
    let sb = scalar_bytes(t);
    assert(sb =~= (seq![KEY_RSSI] + vr) + ((seq![KEY_FRAME_CONTROL] + vf) + ((
    seq![KEY_SOURCE_MAC] + vm) + (seq![KEY_SEQUENCE] + vs))));
    lemma_split(
        b,
        pos,
        seq![KEY_RSSI] + vr,
        (seq![KEY_FRAME_CONTROL] + vf) + ((seq![KEY_SOURCE_MAC] + vm) + (seq![KEY_SEQUENCE] + vs)),
    );
    let q1 = pos + 1 + vr.len();
    lemma_split(
        b,
        q1,
        seq![KEY_FRAME_CONTROL] + vf,
        (seq![KEY_SOURCE_MAC] + vm) + (seq![KEY_SEQUENCE] + vs),
    );
    let q2 = q1 + 1 + vf.len();
    lemma_split(b, q2, seq![KEY_SOURCE_MAC] + vm, seq![KEY_SEQUENCE] + vs);
    lemma_cast_i8(t.rssi);
    lemma_cast_u8(t.frame_control);
    lemma_cast_u16(t.sequence_number);
}

/// Parses a relay message. Exactly the messages that `encode_record` writes are
/// accepted, each as the record it was written from.
pub fn decode_record(bytes: &[u8]) -> (r: Option<CsiRecord>)
    ensures
        r matches Some(rec) ==> bytes@ == record_bytes(rec@),
        r matches Some(rec) ==> forall|m: CsiRecordView|
            bytes@ == #[trigger] record_bytes(m) ==> rec@ == m,
        r is None ==> forall|m: CsiRecordView| bytes@ != #[trigger] record_bytes(m),
{
    let ghost has = exists|m: CsiRecordView| bytes@ == #[trigger] record_bytes(m);
    let ghost t = choose|m: CsiRecordView| bytes@ == #[trigger] record_bytes(m);
    let n = bytes.len();
    let mut samples: Vec<ComplexSample> = Vec::new();
    let mut pos: usize = 0;
    proof {
        if has {
            assert(t.subcarriers.skip(0) =~= t.subcarriers);
            assert(from(bytes@, 0).subrange(0, bytes@.len() as int) =~= bytes@);
        }
    }
    while pos < n && bytes[pos] == KEY_SUBCARRIER
        invariant
            n == bytes@.len(),
            pos <= n,
            has == exists|m: CsiRecordView| bytes@ == #[trigger] record_bytes(m),
            has ==> samples@.len() <= t.subcarriers.len(),
            has ==> samples@ == t.subcarriers.subrange(0, samples@.len() as int),
            has ==> starts_with(
                from(bytes@, pos as int),
                samples_bytes(t.subcarriers.skip(samples@.len() as int)) + scalar_bytes(t),
            ),
        decreases n - pos,
    {
        let ghost i = samples@.len() as int;
        proof {
            if has {
                lemma_after_entries(bytes@, pos as int, t, i);
            }
        }
        let ghost expect = if has { t.subcarriers[i] } else { t.subcarriers[0] };
        match read_sample(bytes, pos, Ghost(expect)) {
            Some((s, p)) => {
                samples.push(s);
                pos = p;
                proof {
                    if has {
                        assert(samples@ =~= t.subcarriers.subrange(0, i + 1));
                    }
                }
            },
            None => {
                return None;
            },
        }
    }
    proof {
        if has {
            let i = samples@.len() as int;
            lemma_after_entries(bytes@, pos as int, t, i);
            assert(samples@ =~= t.subcarriers);
            lemma_scalar_fields(bytes@, pos as int, t);
        }
    }
    let (rssi, pos) = match read_field(bytes, pos, KEY_RSSI) {
        Some(x) => x,
        None => { return None },
    };
    let (frame_control, pos) = match read_field(bytes, pos, KEY_FRAME_CONTROL) {
        Some(x) => x,
        None => { return None },
    };
    let (source_mac, pos) = match read_field(bytes, pos, KEY_SOURCE_MAC) {
        Some(x) => x,
        None => { return None },
    };
    let (sequence_number, _) = match read_field(bytes, pos, KEY_SEQUENCE) {
        Some(x) => x,
        None => { return None },
    };
    let rec = CsiRecord {
        rssi: rssi as i8,
        frame_control: frame_control as u8,
        source_mac,
        sequence_number: sequence_number as u16,
        subcarriers: samples,
    };
    let written = encode_record(&rec);
    proof {
        if has {
            assert(rec@ == t);
        }
    }
    if same_bytes(&written, bytes) {
        proof {
            assert forall|m: CsiRecordView| bytes@ == #[trigger] record_bytes(m) implies rec@
                == m by {
                lemma_relay_round_trip(rec@, m);
            }
        }
        Some(rec)
    } else {
        None
    }
}


proof fn lemma_key_prefix(k1: u8, k2: u8, u: Seq<u8>, v: Seq<u8>)
    requires
        seq![k1] + u == seq![k2] + v,
    ensures
        k1 == k2,
        u == v,
{
    assert((seq![k1] + u)[0] == k1);
    assert((seq![k2] + v)[0] == k2);
    assert((seq![k1] + u).skip(1) =~= u);
    assert((seq![k2] + v).skip(1) =~= v);
}

/// A varint followed by anything determines both its value and what follows it.
proof fn lemma_varint_prefix(a: u64, b: u64, x: Seq<u8>, y: Seq<u8>)
    requires
        varint_bytes(a) + x == varint_bytes(b) + y,
    ensures
        a == b,
        x == y,
    decreases a,
{
    let ha: u8 = if a < 128 { a as u8 } else { (a % 128 + 128) as u8 };
    let hb: u8 = if b < 128 { b as u8 } else { (b % 128 + 128) as u8 };
    let ta = if a < 128 { Seq::<u8>::empty() } else { varint_bytes((a / 128) as u64) };
    let tb = if b < 128 { Seq::<u8>::empty() } else { varint_bytes((b / 128) as u64) };
    assert(varint_bytes(a) =~= seq![ha] + ta);
    assert(varint_bytes(b) =~= seq![hb] + tb);
    assert(varint_bytes(a) + x =~= seq![ha] + (ta + x));
    assert(varint_bytes(b) + y =~= seq![hb] + (tb + y));
    lemma_key_prefix(ha, hb, ta + x, tb + y);
    if a < 128 && b < 128 {
        assert(ta + x =~= x);
        assert(tb + y =~= y);
    } else if a >= 128 && b >= 128 {
        lemma_varint_prefix((a / 128) as u64, (b / 128) as u64, x, y);
    }
}

/// A subcarrier entry followed by anything determines both the subcarrier and what
/// follows it.
proof fn lemma_entry_prefix(p: ComplexSample, q: ComplexSample, x: Seq<u8>, y: Seq<u8>)
    requires
        sample_entry(p) + x == sample_entry(q) + y,
    ensures
        p == q,
        x == y,
{
    let lp = varint_bytes(sample_body(p).len() as u64);
    let lq = varint_bytes(sample_body(q).len() as u64);
    let rp = varint_bytes(p.real as u64);
    let rq = varint_bytes(q.real as u64);
    let ip = varint_bytes(p.imaginary as u64);
    let iq = varint_bytes(q.imaginary as u64);
    assert(sample_entry(p) + x =~= seq![KEY_SUBCARRIER] + (lp + (seq![KEY_REAL] + (rp + (
    seq![KEY_IMAGINARY] + (ip + x))))));
    assert(sample_entry(q) + y =~= seq![KEY_SUBCARRIER] + (lq + (seq![KEY_REAL] + (rq + (
    seq![KEY_IMAGINARY] + (iq + y))))));
    lemma_key_prefix(
        KEY_SUBCARRIER,
        KEY_SUBCARRIER,
        lp + (seq![KEY_REAL] + (rp + (seq![KEY_IMAGINARY] + (ip + x)))),
        lq + (seq![KEY_REAL] + (rq + (seq![KEY_IMAGINARY] + (iq + y)))),
    );
    lemma_varint_prefix(
        sample_body(p).len() as u64,
        sample_body(q).len() as u64,
        seq![KEY_REAL] + (rp + (seq![KEY_IMAGINARY] + (ip + x))),
        seq![KEY_REAL] + (rq + (seq![KEY_IMAGINARY] + (iq + y))),
    );
    lemma_key_prefix(
        KEY_REAL,
        KEY_REAL,
        rp + (seq![KEY_IMAGINARY] + (ip + x)),
        rq + (seq![KEY_IMAGINARY] + (iq + y)),
    );
    lemma_varint_prefix(
        p.real as u64,
        q.real as u64,
        seq![KEY_IMAGINARY] + (ip + x),
        seq![KEY_IMAGINARY] + (iq + y),
    );
    lemma_key_prefix(KEY_IMAGINARY, KEY_IMAGINARY, ip + x, iq + y);
    lemma_varint_prefix(p.imaginary as u64, q.imaginary as u64, x, y);
    lemma_cast_i16(p.real);
    lemma_cast_i16(q.real);
    lemma_cast_i16(p.imaginary);
    lemma_cast_i16(q.imaginary);
}

/// The subcarrier entries followed by the scalar fields (which open with a key that
/// no entry opens with) determine the subcarriers and what follows them.
proof fn lemma_samples_prefix(
    s1: Seq<ComplexSample>,
    s2: Seq<ComplexSample>,
    x: Seq<u8>,
    y: Seq<u8>,
)
    requires
        samples_bytes(s1) + x == samples_bytes(s2) + y,
        x.len() > 0 && x[0] == KEY_RSSI,
        y.len() > 0 && y[0] == KEY_RSSI,
    ensures
        s1 == s2,
        x == y,
    decreases s1.len(),
{
    if s1.len() == 0 && s2.len() == 0 {
        assert(samples_bytes(s1) + x =~= x);
        assert(samples_bytes(s2) + y =~= y);
    } else if s1.len() == 0 {
        lemma_samples_front(s2);
        assert(samples_bytes(s1) + x =~= x);
        assert((samples_bytes(s2) + y)[0] == KEY_SUBCARRIER);
    } else if s2.len() == 0 {
        lemma_samples_front(s1);
        assert(samples_bytes(s2) + y =~= y);
        assert((samples_bytes(s1) + x)[0] == KEY_SUBCARRIER);
    } else {
        lemma_samples_front(s1);
        lemma_samples_front(s2);
        let r1 = samples_bytes(s1.drop_first()) + x;
        let r2 = samples_bytes(s2.drop_first()) + y;
        assert(samples_bytes(s1) + x =~= sample_entry(s1[0]) + r1);
        assert(samples_bytes(s2) + y =~= sample_entry(s2[0]) + r2);
        lemma_entry_prefix(s1[0], s2[0], r1, r2);
        lemma_samples_prefix(s1.drop_first(), s2.drop_first(), x, y);
        assert(s1 =~= seq![s1[0]] + s1.drop_first());
        assert(s2 =~= seq![s2[0]] + s2.drop_first());
    }
}

/// Relay round trip: a relay message determines the record it was written from,
/// every field and every subcarrier in order. With the contracts of `encode_record`
/// and `decode_record`, decoding what was encoded from a record gives that record.
pub proof fn lemma_relay_round_trip(a: CsiRecordView, b: CsiRecordView)
    requires
        record_bytes(a) == record_bytes(b),
    ensures
        a == b,
{
    let va = varint_bytes(a.rssi as u64);
    let vb = varint_bytes(b.rssi as u64);
    let fa = varint_bytes(a.frame_control as u64);
    let fb = varint_bytes(b.frame_control as u64);
    let ma = varint_bytes(a.source_mac);
    let mb = varint_bytes(b.source_mac);
    let sa = varint_bytes(a.sequence_number as u64);
    let sb = varint_bytes(b.sequence_number as u64);
    let xa = seq![KEY_RSSI] + (va + (seq![KEY_FRAME_CONTROL] + (fa + (seq![KEY_SOURCE_MAC] + (ma
        + (seq![KEY_SEQUENCE] + sa))))));
    let xb = seq![KEY_RSSI] + (vb + (seq![KEY_FRAME_CONTROL] + (fb + (seq![KEY_SOURCE_MAC] + (mb
        + (seq![KEY_SEQUENCE] + sb))))));
    assert(scalar_bytes(a) =~= xa);
    assert(scalar_bytes(b) =~= xb);
    lemma_samples_prefix(a.subcarriers, b.subcarriers, xa, xb);
    lemma_key_prefix(
        KEY_RSSI,
        KEY_RSSI,
        va + (seq![KEY_FRAME_CONTROL] + (fa + (seq![KEY_SOURCE_MAC] + (ma + (seq![KEY_SEQUENCE]
            + sa))))),
        vb + (seq![KEY_FRAME_CONTROL] + (fb + (seq![KEY_SOURCE_MAC] + (mb + (seq![KEY_SEQUENCE]
            + sb))))),
    );
    lemma_varint_prefix(
        a.rssi as u64,
        b.rssi as u64,
        seq![KEY_FRAME_CONTROL] + (fa + (seq![KEY_SOURCE_MAC] + (ma + (seq![KEY_SEQUENCE] + sa)))),
        seq![KEY_FRAME_CONTROL] + (fb + (seq![KEY_SOURCE_MAC] + (mb + (seq![KEY_SEQUENCE] + sb)))),
    );
    lemma_key_prefix(
        KEY_FRAME_CONTROL,
        KEY_FRAME_CONTROL,
        fa + (seq![KEY_SOURCE_MAC] + (ma + (seq![KEY_SEQUENCE] + sa))),
        fb + (seq![KEY_SOURCE_MAC] + (mb + (seq![KEY_SEQUENCE] + sb))),
    );
    lemma_varint_prefix(
        a.frame_control as u64,
        b.frame_control as u64,
        seq![KEY_SOURCE_MAC] + (ma + (seq![KEY_SEQUENCE] + sa)),
        seq![KEY_SOURCE_MAC] + (mb + (seq![KEY_SEQUENCE] + sb)),
    );
    lemma_key_prefix(
        KEY_SOURCE_MAC,
        KEY_SOURCE_MAC,
        ma + (seq![KEY_SEQUENCE] + sa),
        mb + (seq![KEY_SEQUENCE] + sb),
    );
    lemma_varint_prefix(
        a.source_mac,
        b.source_mac,
        seq![KEY_SEQUENCE] + sa,
        seq![KEY_SEQUENCE] + sb,
    );
    lemma_key_prefix(KEY_SEQUENCE, KEY_SEQUENCE, sa, sb);
    assert(sa + Seq::<u8>::empty() =~= sb + Seq::<u8>::empty());
    lemma_varint_prefix(
        a.sequence_number as u64,
        b.sequence_number as u64,
        Seq::<u8>::empty(),
        Seq::<u8>::empty(),
    );
    lemma_cast_i8(a.rssi);
    lemma_cast_i8(b.rssi);
    lemma_cast_u8(a.frame_control);
    lemma_cast_u8(b.frame_control);
    lemma_cast_u16(a.sequence_number);
    lemma_cast_u16(b.sequence_number);
}

} // verus!
