//! The per-connection accumulator: bytes arrive in arbitrary pieces, whole
//! frames come out, and an unfinished frame waits, within a bound, for the
//! rest of its bytes.
use vstd::prelude::*;

use crate::codec::{
    copy_range, delim_at, find_delimiter_from, first_delim, frame_outcome, lemma_first_delim,
    next_frame, scan_from, Decoded,
};
use crate::json::{is_json, json_valid};

verus! {

/// Splits a byte stream into the payloads of its complete frames, in order,
/// and the bytes after the last delimiter.
pub open spec fn split_frames(s: Seq<u8>) -> (Seq<Seq<u8>>, Seq<u8>)
    decreases s.len(),
{
    match next_frame(s) {
        Some((p, n)) => if 2 <= n <= s.len() {
            let r = split_frames(s.subrange(n, s.len() as int));
            (seq![p] + r.0, r.1)
        } else {
            (seq![], s)
        },
        None => (seq![], s),
    }
}

/// The pieces of a stream, put back together.
pub open spec fn concat_all(chunks: Seq<Seq<u8>>) -> Seq<u8>
    decreases chunks.len(),
{
    if chunks.len() == 0 {
        seq![]
    } else {
        chunks[0] + concat_all(chunks.drop_first())
    }
}

/// What a decoder holding `pending` emits, and then holds, when `chunks` are fed
/// to it one after another.
pub open spec fn feed_all(pending: Seq<u8>, chunks: Seq<Seq<u8>>) -> (Seq<Seq<u8>>, Seq<u8>)
    decreases chunks.len(),
{
    if chunks.len() == 0 {
        (seq![], pending)
    } else {
        let step = split_frames(pending + chunks[0]);
        let rest = feed_all(step.1, chunks.drop_first());
        (step.0 + rest.0, rest.1)
    }
}

proof fn lemma_next_frame_bounds(s: Seq<u8>)
    ensures
        next_frame(s) matches Some((p, n)) ==> 2 <= n <= s.len() && p == s.subrange(0, n - 2)
            && delim_at(s, n - 2),
{
    lemma_first_delim(s);
}

/// The first delimiter of `s` is still the first once more bytes follow.
proof fn lemma_first_delim_extend(s: Seq<u8>, t: Seq<u8>)
    requires
        first_delim(s) is Some,
    ensures
        first_delim(s + t) == first_delim(s),
{
    lemma_first_delim(s);
    lemma_first_delim(s + t);
    let i = first_delim(s)->Some_0;
    assert(delim_at(s + t, i));
    match first_delim(s + t) {
        Some(j) => {
            if j < i {
                assert(delim_at(s, j));
            }
        },
        None => {},
    }
}

/// No delimiter is left in what follows the last frame.
pub proof fn lemma_split_rest_clear(s: Seq<u8>)
    ensures
        first_delim(split_frames(s).1) is None,
    decreases s.len(),
{
    lemma_next_frame_bounds(s);
    match next_frame(s) {
        Some((p, n)) => {
            lemma_split_rest_clear(s.subrange(n, s.len() as int));
        },
        None => {},
    }
}

/// Splitting a stream at once, or first a prefix and then what is left of it
/// together with the rest, gives the same frames and the same remainder.
pub proof fn lemma_split_append(s: Seq<u8>, t: Seq<u8>)
    ensures
        split_frames(s + t) == (split_frames(s).0 + split_frames(split_frames(s).1 + t).0,
            split_frames(split_frames(s).1 + t).1),
    decreases s.len(),
{
    lemma_next_frame_bounds(s);
    match next_frame(s) {
        Some((p, n)) => {
            lemma_first_delim_extend(s, t);
            let st = s + t;
            assert(st.subrange(0, n - 2) =~= p);
            let tail = s.subrange(n, s.len() as int);
            assert(st.subrange(n, st.len() as int) =~= tail + t);
            lemma_split_append(tail, t);
            let a = split_frames(tail);
            let b = split_frames(a.1 + t);
            assert(seq![p] + (a.0 + b.0) =~= (seq![p] + a.0) + b.0);
        },
        None => {
            assert(seq![] + split_frames(s + t).0 =~= split_frames(s + t).0);
        },
    }
}

/// Feeding a decoder a stream in any pieces, down to one byte at a time,
/// emits the same frames, in the same order, and leaves the same bytes
/// pending, as feeding it the whole stream at once.
pub proof fn lemma_chunking_invariant(pending: Seq<u8>, chunks: Seq<Seq<u8>>)
    requires
        first_delim(pending) is None,
    ensures
        feed_all(pending, chunks) == split_frames(pending + concat_all(chunks)),
    decreases chunks.len(),
{
    if chunks.len() == 0 {
        assert(pending + concat_all(chunks) =~= pending);
        assert(next_frame(pending) is None);
    } else {
        let s = pending + chunks[0];
        let rest = chunks.drop_first();
        lemma_split_append(s, concat_all(rest));
        lemma_split_rest_clear(s);
        lemma_chunking_invariant(split_frames(s).1, rest);
        assert(pending + concat_all(chunks) =~= s + concat_all(rest));
    }
}

/// The frames that a decoder emits match the payloads `frames`, each tagged
/// by whether it is well-formed JSON.
pub open spec fn emits(out: Seq<Decoded>, frames: Seq<Seq<u8>>) -> bool {
    &&& out.len() == frames.len()
    &&& forall|k: int|
        0 <= k < out.len() ==> #[trigger] out[k].payload() == frames[k] && out[k].is_message()
            == json_valid(frames[k])
}

/// The pending bytes grew past the decoder's bound with no delimiter among them.
#[derive(PartialEq, Eq, Structural, Clone, Copy, Debug)]
pub enum DecodeError {
    Overflow,
}

/// Accumulates the bytes of one connection and cuts them into frames.
pub struct FrameDecoder {
    buffer: Vec<u8>,
    limit: usize,
}

impl FrameDecoder {
    /// The bytes received after the last delimiter.
    pub closed spec fn pending(&self) -> Seq<u8> {
        self.buffer@
    }

    /// The most bytes that may wait for a delimiter.
    pub closed spec fn limit(&self) -> nat {
        self.limit as nat
    }

    /// At most `limit` bytes are pending, none of them a complete frame.
    pub closed spec fn wf(&self) -> bool {
        &&& self.buffer@.len() <= self.limit
        &&& first_delim(self.buffer@) is None
    }

    /// A decoder with nothing pending that holds at most `limit` bytes of an
    /// unfinished frame.
    pub fn new(limit: usize) -> (r: FrameDecoder)
        ensures
            r.wf(),
            r.pending() == Seq::<u8>::empty(),
            r.limit() == limit,
    {
        FrameDecoder { buffer: Vec::new(), limit }
    }

    /// The number of pending bytes.
    pub fn pending_len(&self) -> (r: usize)
        ensures
            r == self.pending().len(),
    {
        self.buffer.len()
    }

    /// Appends `bytes` to the pending bytes and emits every complete frame, in
    /// order. What follows the last delimiter stays pending; if that is more
    /// than the bound, it is dropped and `Overflow` comes back instead.
    pub fn feed(&mut self, bytes: &[u8]) -> (r: Result<Vec<Decoded>, DecodeError>)
        requires
            old(self).wf(),
        ensures
            final(self).wf(),
            final(self).limit() == old(self).limit(),
            ({
                let (frames, rest) = split_frames(old(self).pending() + bytes@);
                &&& rest.len() <= old(self).limit() ==> (r matches Ok(out) && emits(out@, frames)
                    && final(self).pending() == rest)
                &&& rest.len() > old(self).limit() ==> (r == Err::<Vec<Decoded>, DecodeError>(
                    DecodeError::Overflow,
                ) && final(self).pending() == Seq::<u8>::empty())
            }),
    {
        let mut data: Vec<u8> = Vec::new();
        data.extend_from_slice(self.buffer.as_slice());
        data.extend_from_slice(bytes);
        let ghost whole = data@;
        assert(whole =~= self.buffer@ + bytes@);
        let n = data.len();
        let mut out: Vec<Decoded> = Vec::new();
        let ghost mut done: Seq<Seq<u8>> = seq![];
        let mut start: usize = 0;
        assert(whole.subrange(0, n as int) =~= whole);
        loop
            invariant
                data@ == whole,
                n == whole.len(),
                start <= n,
                split_frames(whole).1 == split_frames(whole.subrange(start as int, n as int)).1,
                split_frames(whole).0 == done + split_frames(
                    whole.subrange(start as int, n as int),
                ).0,
                emits(out@, done),
            ensures
                start <= n,
                split_frames(whole) == (done, whole.subrange(start as int, n as int)),
                emits(out@, done),
            decreases n - start,
        {
            let ghost rest = whole.subrange(start as int, n as int);
            proof {
                lemma_scan_shift(whole, start as int, start as int);
                lemma_next_frame_bounds(rest);
            }
            match find_delimiter_from(data.as_slice(), start) {
                None => {
                    proof {
                        assert(split_frames(rest) == (Seq::<Seq<u8>>::empty(), rest));
                        assert(done + Seq::<Seq<u8>>::empty() =~= done);
                    }
                    break;
                },
                Some(i) => {
                    let payload = copy_range(data.as_slice(), start, i);
                    let well_formed = is_json(payload.as_slice());
                    let ghost p = payload@;
                    let ghost old_out = out@;
                    out.push(frame_outcome(payload, well_formed));
                    proof {
                        let m = (i - start + 2) as int;
                        assert(rest.subrange(0, m - 2) =~= p);
                        assert(rest.subrange(m, rest.len() as int) =~= whole.subrange(
                            i + 2,
                            n as int,
                        ));
                        let after = split_frames(whole.subrange(i + 2, n as int));
                        assert(done + (seq![p] + after.0) =~= (done + seq![p]) + after.0);
                        done = done + seq![p];
                        assert forall|k: int| 0 <= k < out@.len() implies #[trigger] out@[k].payload()
                            == done[k] && out@[k].is_message() == json_valid(done[k]) by {
                            if k < old_out.len() {
                                assert(out@[k] == old_out[k]);
                            }
                        }
                    }
                    start = i + 2;
                },
            }
        }
        let pending = copy_range(data.as_slice(), start, n);
        proof {
            lemma_split_rest_clear(whole);
        }
        if pending.len() > self.limit {
            self.buffer = Vec::new();
            Err(DecodeError::Overflow)
        } else {
            self.buffer = pending;
            Ok(out)
        }
    }
}

/// The first delimiter of `b` at `m` or later is the first of `b[k..]` at
/// `m - k` or later, shifted by `k`.
proof fn lemma_scan_shift(b: Seq<u8>, k: int, m: int)
    requires
        0 <= k <= m <= b.len(),
    ensures
        ({
            let c = b.subrange(k, b.len() as int);
            match scan_from(b, m) {
                Some(i) => scan_from(c, m - k) == Some(i - k),
                None => scan_from(c, m - k) is None,
            }
        }),
    decreases b.len() - m,
{
    let c = b.subrange(k, b.len() as int);
    if m + 1 < b.len() {
        assert(delim_at(b, m) == delim_at(c, m - k));
        if !delim_at(b, m) {
            lemma_scan_shift(b, k, m + 1);
        }
    }
}

} // verus!
