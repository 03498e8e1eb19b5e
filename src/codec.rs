//! Frame codec: one application message per frame, each frame followed by
//! the two-byte delimiter `\r\n`.
use vstd::prelude::*;

use vstd::string::StringSliceAdditionalSpecFns;

use crate::json::{is_json, json_valid};

verus! {

/// Carriage return, the first byte of the delimiter.
pub const CR: u8 = 13;

/// Line feed, the second byte of the delimiter.
pub const LF: u8 = 10;

/// The delimiter `\r\n` as a byte sequence.
pub open spec fn delimiter() -> Seq<u8> {
    seq![CR, LF]
}

/// The delimiter starts at index `i` of `b`.
pub open spec fn delim_at(b: Seq<u8>, i: int) -> bool {
    0 <= i && i + 1 < b.len() && b[i] == CR && b[i + 1] == LF
}

/// `b` holds the delimiter somewhere.
pub open spec fn has_delim(b: Seq<u8>) -> bool {
    exists|i: int| delim_at(b, i)
}

/// The first delimiter of `b` at index `k` or later.
pub open spec fn scan_from(b: Seq<u8>, k: int) -> Option<int>
    decreases b.len() - k,
{
    if k < 0 || k + 1 >= b.len() {
        None
    } else if delim_at(b, k) {
        Some(k)
    } else {
        scan_from(b, k + 1)
    }
}

/// Index of the first delimiter of `b`, if there is one.
pub open spec fn first_delim(b: Seq<u8>) -> Option<int> {
    scan_from(b, 0)
}

proof fn lemma_scan_from(b: Seq<u8>, k: int)
    requires
        0 <= k,
    ensures
        match scan_from(b, k) {
            Some(i) => k <= i && delim_at(b, i) && forall|j: int| k <= j < i ==> !delim_at(b, j),
            None => forall|j: int| k <= j ==> !delim_at(b, j),
        },
    decreases b.len() - k,
{
    if k + 1 < b.len() && !delim_at(b, k) {
        lemma_scan_from(b, k + 1);
        assert forall|j: int| k <= j && !(k + 1 <= j) implies !delim_at(b, j) by {
            assert(j == k);
        }
    }
}

/// `first_delim` is the least index where the delimiter starts.
pub proof fn lemma_first_delim(b: Seq<u8>)
    ensures
        match first_delim(b) {
            Some(i) => delim_at(b, i) && forall|j: int| 0 <= j < i ==> !delim_at(b, j),
            None => !has_delim(b),
        },
{
    lemma_scan_from(b, 0);
}

/// Finds the position of the first `\r\n` in `buffer`.
pub fn find_delimiter(buffer: &[u8]) -> (r: Option<usize>)
    ensures
        match r {
            Some(i) => first_delim(buffer@) == Some(i as int),
            None => first_delim(buffer@) == None::<int>,
        },
        match r {
            Some(i) => delim_at(buffer@, i as int) && forall|j: int|
                0 <= j < i ==> !delim_at(buffer@, j),
            None => !has_delim(buffer@),
        },
{
    proof {
        lemma_first_delim(buffer@);
    }
    find_delimiter_from(buffer, 0)
}

/// Finds the first `\r\n` of `buffer` at index `start` or later.
pub(crate) fn find_delimiter_from(buffer: &[u8], start: usize) -> (r: Option<usize>)
    ensures
        match r {
            Some(i) => scan_from(buffer@, start as int) == Some(i as int),
            None => scan_from(buffer@, start as int) == None::<int>,
        },
{
    let n = buffer.len();
    if n < 2 {
        return None;
    }
    let mut i: usize = start;
    while i < n - 1
        invariant
            n == buffer@.len(),
            n >= 2,
            start <= i,
            scan_from(buffer@, start as int) == scan_from(buffer@, i as int),
        decreases n - i,
    {
        if buffer[i] == CR && buffer[i + 1] == LF {
            return Some(i);
        }
        i = i + 1;
    }
    None
}

/// The frame at the front of `b`: its payload and the number of bytes it takes,
/// delimiter included. `None` while no delimiter has arrived.
pub open spec fn next_frame(b: Seq<u8>) -> Option<(Seq<u8>, int)> {
    match first_delim(b) {
        Some(i) => Some((b.subrange(0, i), i + 2)),
        None => None,
    }
}

/// The bytes that carry message `m`: its text, then the delimiter.
pub open spec fn encoding(m: Seq<u8>) -> Seq<u8> {
    m + delimiter()
}

/// A message that may be sent: well-formed JSON whose bytes hold no
/// delimiter, so that its frame cannot be cut in two.
pub open spec fn valid_message(m: Seq<u8>) -> bool {
    json_valid(m) && !has_delim(m)
}

/// Whether `message` may be sent.
pub fn is_valid_message(message: &str) -> (r: bool)
    ensures
        r == valid_message(message.spec_bytes()),
{
    let bytes = message.as_bytes();
    find_delimiter(bytes).is_none() && is_json(bytes)
}

/// One decoded frame: a well-formed message, or the raw payload of a frame
/// that is not JSON.
#[derive(Clone, Debug, PartialEq, Eq)]
pub enum Decoded {
    Message(Vec<u8>),
    Malformed(Vec<u8>),
}

impl Decoded {
    /// The bytes of the frame, delimiter excluded.
    pub open spec fn payload(&self) -> Seq<u8> {
        match self {
            Decoded::Message(b) => b@,
            Decoded::Malformed(b) => b@,
        }
    }

    /// The frame was well-formed JSON.
    pub open spec fn is_message(&self) -> bool {
        self is Message
    }

    /// The payload bytes.
    pub fn bytes(&self) -> (r: &Vec<u8>)
        ensures
            r@ == self.payload(),
    {
        match self {
            Decoded::Message(b) => b,
            Decoded::Malformed(b) => b,
        }
    }
}

/// Copies `b[lo..hi]` into a new vector.
pub fn copy_range(b: &[u8], lo: usize, hi: usize) -> (r: Vec<u8>)
    requires
        lo <= hi <= b@.len(),
    ensures
        r@ == b@.subrange(lo as int, hi as int),
{
    let mut r: Vec<u8> = Vec::with_capacity(hi - lo);
    let mut k: usize = lo;
    while k < hi
        invariant
            lo <= k <= hi <= b@.len(),
            r@ == b@.subrange(lo as int, k as int),
        decreases hi - k,
    {
        r.push(b[k]);
        k = k + 1;
        assert(r@ =~= b@.subrange(lo as int, k as int));
    }
    r
}

/// Encodes one message: its UTF-8 text followed by `\r\n`.
pub fn encode(message: &str) -> (r: Vec<u8>)
    ensures
        r@ == encoding(message.spec_bytes()),
{
    let text = message.as_bytes();
    let mut r = copy_range(text, 0, text.len());
    r.push(CR);
    r.push(LF);
    assert(r@ =~= encoding(message.spec_bytes()));
    r
}

/// Classifies a frame's payload by whether it is well-formed JSON.
pub fn frame_outcome(payload: Vec<u8>, well_formed: bool) -> (r: Decoded)
    ensures
        r.payload() == payload@,
        r.is_message() == well_formed,
{
    if well_formed {
        Decoded::Message(payload)
    } else {
        Decoded::Malformed(payload)
    }
}

/// Decodes the frame at the front of `buffer`: `None` while no delimiter has
/// arrived; otherwise the frame, as a message or as malformed, and the number
/// of bytes to consume, delimiter included.
pub fn decode_next(buffer: &[u8]) -> (r: Option<(Decoded, usize)>)
    ensures
        match next_frame(buffer@) {
            None => r is None,
            Some((p, n)) => r matches Some((d, m)) && m == n && d.payload() == p
                && d.is_message() == json_valid(p),
        },
{
    match find_delimiter(buffer) {
        None => None,
        Some(i) => {
            let n = buffer.len();
            assert(i + 2 <= n);
            let payload = copy_range(buffer, 0, i);
            let well_formed = is_json(payload.as_slice());
            Some((frame_outcome(payload, well_formed), i + 2))
        },
    }
}

/// Round trip: a message whose bytes hold no delimiter is the frame at the
/// front of its own encoding, and that frame takes the whole encoding.
pub proof fn lemma_round_trip(m: Seq<u8>)
    requires
        !has_delim(m),
    ensures
        next_frame(encoding(m)) == Some((m, encoding(m).len() as int)),
{
    let e = encoding(m);
    lemma_first_delim(e);
    assert(delim_at(e, m.len() as int));
    assert forall|j: int| 0 <= j < m.len() implies !delim_at(e, j) by {
        if delim_at(e, j) {
            if j + 1 < m.len() {
                assert(delim_at(m, j));
            } else {
                assert(e[j] == m[j]);
                assert(e[j + 1] == CR);
            }
        }
    }
    match first_delim(e) {
        Some(i) => {
            if i < m.len() {
            } else if i > m.len() {
                assert(!delim_at(e, m.len() as int));
            }
            assert(e.subrange(0, i) =~= m);
        },
        None => {
            assert(has_delim(e));
        },
    }
}

} // verus!
