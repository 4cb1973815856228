use vstd::prelude::*;

verus! {

/// Where a scan of process-id text stands between two bytes.
pub enum Token {
    /// Between tokens.
    Gap,
    /// Inside a token of digits so far, with its value (at most `u32::MAX`).
    Digits(nat),
    /// Inside a token that is not a process id.
    Junk,
}

/// The state of a scan: the ids read so far, whether a token that is not an id was
/// met, and the token being read.
pub struct Scan {
    pub ids: Seq<u32>,
    pub junk: bool,
    pub token: Token,
}

pub open spec fn is_space(b: u8) -> bool {
    b == 0x20 || b == 0x09 || b == 0x0A || b == 0x0D
}

pub open spec fn is_digit(b: u8) -> bool {
    0x30 <= b <= 0x39
}

/// The scan after one more byte. Tokens are separated by ASCII whitespace; a token
/// of decimal digits whose value fits in 32 bits is a process id.
pub open spec fn scan_byte(s: Scan, b: u8) -> Scan {
    if is_space(b) {
        match s.token {
            Token::Digits(v) => Scan { ids: s.ids.push(v as u32), junk: s.junk, token: Token::Gap },
            _ => Scan { ids: s.ids, junk: s.junk, token: Token::Gap },
        }
    } else if is_digit(b) {
        match s.token {
            Token::Gap => Scan { ids: s.ids, junk: s.junk, token: Token::Digits((b - 0x30) as nat) },
            Token::Digits(v) => if 10 * v + (b - 0x30) <= u32::MAX {
                Scan { ids: s.ids, junk: s.junk, token: Token::Digits((10 * v + (b - 0x30)) as nat) }
            } else {
                Scan { ids: s.ids, junk: true, token: Token::Junk }
            },
            Token::Junk => s,
        }
    } else {
        Scan { ids: s.ids, junk: true, token: Token::Junk }
    }
}

/// The scan of a whole text.
pub open spec fn scan(t: Seq<u8>) -> Scan
    decreases t.len(),
{
    if t.len() == 0 {
        Scan { ids: Seq::empty(), junk: false, token: Token::Gap }
    } else {
        scan_byte(scan(t.drop_last()), t.last())
    }
}

/// The scan of a whole text, with the token at its end closed.
pub open spec fn scan_closed(t: Seq<u8>) -> Scan {
    let s = scan(t);
    match s.token {
        Token::Digits(v) => Scan { ids: s.ids.push(v as u32), junk: s.junk, token: Token::Gap },
        _ => s,
    }
}

/// The process ids listed in a text, one per whitespace-separated token of digits.
pub open spec fn listed_ids(t: Seq<u8>) -> Seq<u32> {
    scan_closed(t).ids
}

/// The process id of an instance marker: the text holds exactly one token, of
/// digits, with any whitespace around it.
pub open spec fn marker_id(t: Seq<u8>) -> Option<u32> {
    let s = scan_closed(t);
    if !s.junk && s.ids.len() == 1 {
        Some(s.ids[0])
    } else {
        None
    }
}

/// The scan state in executable form: the token as a tag and a value.
struct ScanState {
    ids: Vec<u32>,
    junk: bool,
    in_digits: bool,
    in_junk: bool,
    value: u32,
}

impl ScanState {
    spec fn matches(&self, s: Scan) -> bool {
        &&& self.ids@ == s.ids
        &&& self.junk == s.junk
        &&& match s.token {
            Token::Gap => !self.in_digits && !self.in_junk,
            Token::Digits(v) => self.in_digits && !self.in_junk && self.value == v,
            Token::Junk => !self.in_digits && self.in_junk,
        }
    }
}

fn scan_text(t: &[u8]) -> (r: (Vec<u32>, bool))
    ensures
        r.0@ == scan_closed(t@).ids,
        r.1 == scan_closed(t@).junk,
{
    let mut st = ScanState { ids: Vec::new(), junk: false, in_digits: false, in_junk: false, value: 0 };
    let mut i: usize = 0;
    assert(t@.subrange(0, 0) =~= Seq::<u8>::empty());
    while i < t.len()
        invariant
            i <= t@.len(),
            st.matches(scan(t@.subrange(0, i as int))),
        decreases t@.len() - i,
    {
        let b = t[i];
        assert(t@.subrange(0, i as int + 1).drop_last() =~= t@.subrange(0, i as int));
        if b == 0x20 || b == 0x09 || b == 0x0A || b == 0x0D {
            if st.in_digits {
                st.ids.push(st.value);
            }
            st.in_digits = false;
            st.in_junk = false;
        } else if 0x30 <= b && b <= 0x39 {
            let d = (b - 0x30) as u32;
            if st.in_digits {
                if st.value <= (u32::MAX - d) / 10 {
                    st.value = st.value * 10 + d;
                } else {
                    st.in_digits = false;
                    st.in_junk = true;
                    st.junk = true;
                }
            } else if !st.in_junk {
                st.in_digits = true;
                st.value = d;
            }
        } else {
            st.in_digits = false;
            st.in_junk = true;
            st.junk = true;
        }
        i += 1;
    }
    assert(t@.subrange(0, i as int) =~= t@);
    if st.in_digits {
        st.ids.push(st.value);
    }
    (st.ids, st.junk)
}

/// The process ids listed in a text, such as the output of a process-table query.
pub fn parse_pid_list(text: &[u8]) -> (r: Vec<u32>)
    ensures
        r@ == listed_ids(text@),
{
    scan_text(text).0
}

/// The process id held by an instance marker, if its text is a single id.
pub fn parse_pid(text: &[u8]) -> (r: Option<u32>)
    ensures
        r == marker_id(text@),
{
    let (ids, junk) = scan_text(text);
    if !junk && ids.len() == 1 {
        Some(ids[0])
    } else {
        None
    }
}


/// What the supervisor does when asked to make sure a decoder runs.
#[derive(Clone, Copy, Debug, PartialEq, Eq, Structural)]
pub enum Admission {
    /// A decoder is recorded live: nothing is launched.
    AlreadyRunning,
    /// No decoder is recorded live: launch one and record its id in the marker.
    Launch,
}

/// The marker's process id is among the live processes.
pub open spec fn alive(marker: Option<u32>, live: Seq<u32>) -> bool {
    marker matches Some(p) && live.contains(p)
}

pub open spec fn admission(marker: Option<u32>, live: Seq<u32>) -> Admission {
    if alive(marker, live) {
        Admission::AlreadyRunning
    } else {
        Admission::Launch
    }
}

/// The id of an absent marker (`None`) or of the marker's text.
pub open spec fn marker_of(text: Option<Seq<u8>>) -> Option<u32> {
    match text {
        Some(t) => marker_id(t),
        None => None,
    }
}

/// Whether the marker's process id is among the live process ids.
pub fn decoder_alive(marker: Option<u32>, live: &[u32]) -> (r: bool)
    ensures
        r == alive(marker, live@),
{
    match marker {
        None => false,
        Some(p) => {
            let mut i: usize = 0;
            while i < live.len()
                invariant
                    i <= live@.len(),
                    marker == Some(p),
                    forall|j: int| 0 <= j < i ==> live@[j] != p,
                decreases live@.len() - i,
            {
                if live[i] == p {
                    assert(live@[i as int] == p);
                    return true;
                }
                i += 1;
            }
            false
        },
    }
}

/// Decides, from the marker's text (`None` when there is no marker) and the live
/// process table's ids for this program, whether to launch a decoder. An absent,
/// unreadable or stale marker means no decoder runs.
pub fn decide_launch(marker_text: Option<&[u8]>, table_text: &[u8]) -> (r: Admission)
    ensures
        r == admission(
            marker_of(
                match marker_text {
                    Some(t) => Some(t@),
                    None => None,
                },
            ),
            listed_ids(table_text@),
        ),
{
    let marker = match marker_text {
        Some(t) => parse_pid(t),
        None => None,
    };
    let live = parse_pid_list(table_text);
    if decoder_alive(marker, live.as_slice()) {
        Admission::AlreadyRunning
    } else {
        Admission::Launch
    }
}

/// Idempotent admission: with a decoder recorded live nothing is launched; with
/// none, exactly one launch is asked for, and once the marker holds the new
/// decoder's id and that decoder is live, asking again launches nothing.
pub proof fn lemma_admission_idempotent(marker: Option<u32>, live: Seq<u32>, child: u32)
    ensures
        alive(marker, live) ==> admission(marker, live) == Admission::AlreadyRunning,
        !alive(marker, live) ==> admission(marker, live) == Admission::Launch,
        admission(Some(child), live.push(child)) == Admission::AlreadyRunning,
{
    assert(live.push(child)[live.len() as int] == child);
}

} // verus!
