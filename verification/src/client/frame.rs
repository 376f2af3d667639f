//! The mathematical model of delimiter framing: where a delimiter occurs in a
//! byte sequence, and what one call of the decoder does to its state and buffer.

use vstd::prelude::*;

verus! {

/// `pat` occurs in `s` at position `i`.
pub open spec fn occurs_at(s: Seq<u8>, pat: Seq<u8>, i: int) -> bool {
    &&& 0 <= i
    &&& i + pat.len() <= s.len()
    &&& s.subrange(i, i + pat.len()) == pat
}

/// The first position `i >= from` with `i + pat.len() <= to` at which the
/// non-empty pattern `pat` occurs in `s`, if there is one.
pub open spec fn first_occurrence(s: Seq<u8>, pat: Seq<u8>, from: int, to: int) -> Option<int>
    decreases to - from,
{
    if from < 0 || to > s.len() || pat.len() == 0 || from + pat.len() > to {
        None
    } else if s.subrange(from, from + pat.len()) == pat {
        Some(from)
    } else {
        first_occurrence(s, pat, from + 1, to)
    }
}

/// What `first_occurrence` finds: the least position in the range where the
/// pattern occurs, or, for a non-empty pattern, `None` when it occurs nowhere
/// in the range.
pub proof fn lemma_first_occurrence(s: Seq<u8>, pat: Seq<u8>, from: int, to: int)
    requires
        0 <= from,
        to <= s.len(),
    ensures
        first_occurrence(s, pat, from, to) matches Some(k) ==> {
            &&& pat.len() > 0
            &&& from <= k
            &&& k + pat.len() <= to
            &&& occurs_at(s, pat, k)
            &&& forall|j: int| from <= j < k ==> !occurs_at(s, pat, j)
        },
        first_occurrence(s, pat, from, to) is None && pat.len() > 0 ==> forall|j: int|
            from <= j && j + pat.len() <= to ==> !occurs_at(s, pat, j),
    decreases to - from,
{
    if pat.len() == 0 || from + pat.len() > to {
    } else if s.subrange(from, from + pat.len()) == pat {
    } else {
        lemma_first_occurrence(s, pat, from + 1, to);
    }
}

/// Starting the search later does not change its result when the skipped
/// positions hold no occurrence.
pub proof fn lemma_first_occurrence_skip(s: Seq<u8>, pat: Seq<u8>, lo: int, hi: int, to: int)
    requires
        0 <= lo <= hi,
        to <= s.len(),
        pat.len() > 0,
        forall|j: int| lo <= j < hi ==> !occurs_at(s, pat, j),
    ensures
        first_occurrence(s, pat, lo, to) == first_occurrence(s, pat, hi, to),
    decreases hi - lo,
{
    if lo < hi && lo + pat.len() <= to {
        assert(!occurs_at(s, pat, lo));
        lemma_first_occurrence_skip(s, pat, lo + 1, hi, to);
    }
}

/// The abstract state of a delimiter codec.
pub struct CodecView {
    /// Position in the buffer where the next search for a delimiter starts.
    pub next_index: usize,
    /// The longest chunk accepted; `usize::MAX` means no bound.
    pub max_length: usize,
    /// Whether the rest of an over-long chunk is being thrown away.
    pub is_discarding: bool,
    /// The delimiter searched for when decoding.
    pub seek_delimiters: Seq<u8>,
    /// The bytes written after each chunk when encoding.
    pub sequence_writer: Seq<u8>,
}

/// What one call of the decoder reports.
pub enum Decoded {
    /// A complete chunk was split off the buffer.
    Frame(Seq<u8>),
    /// More input is needed.
    Pending,
    /// No delimiter within `max_length + 1` bytes: the chunk is too long.
    TooLong,
}

/// The codec state, the remaining buffer and the report after a call.
pub struct DecodeStep {
    pub state: CodecView,
    pub buffer: Seq<u8>,
    pub outcome: Decoded,
}

/// How far into a buffer of length `len` the decoder looks for a delimiter:
/// at most `max_length + 1` bytes (saturating at `usize::MAX`).
pub open spec fn read_limit(v: CodecView, len: int) -> int {
    let bound: int = if v.max_length < usize::MAX { (v.max_length + 1) as int } else { usize::MAX as int };
    if bound < len { bound } else { len }
}

/// `v` with the search position set to `n`.
pub open spec fn with_next_index(v: CodecView, n: usize) -> CodecView {
    CodecView { next_index: n, ..v }
}

/// `v` with the discarding flag set to `b` and the search position set to `n`.
pub open spec fn with_discarding(v: CodecView, b: bool, n: usize) -> CodecView {
    CodecView { is_discarding: b, next_index: n, ..v }
}

/// One call of the decoder on buffer `buf`.
///
/// It searches `buf[next_index..read_limit]` for the delimiter. While
/// discarding, it drops the buffer up to one byte past the start of the
/// delimiter found (or all bytes searched) and goes on; otherwise it splits off
/// the bytes before the delimiter as a chunk and drops the delimiter's first
/// byte, reports a chunk that is too long, or remembers where to resume: the
/// last `seek_delimiters.len() - 1` bytes searched are searched again, since a
/// delimiter may straddle the end of the buffer.
pub open spec fn decode_step(v: CodecView, buf: Seq<u8>) -> DecodeStep
    decreases buf.len(),
{
    let read_to = read_limit(v, buf.len() as int);
    let d = v.seek_delimiters.len();
    let found = first_occurrence(buf, v.seek_delimiters, v.next_index as int, read_to);
    if v.is_discarding {
        match found {
            Some(k) => {
                proof {
                    lemma_first_occurrence(buf, v.seek_delimiters, v.next_index as int, read_to);
                }
                decode_step(with_discarding(v, false, 0), buf.skip(k + 1))
            },
            None => {
                let rest = buf.skip(read_to);
                if rest.len() == 0 {
                    DecodeStep { state: with_next_index(v, 0), buffer: rest, outcome: Decoded::Pending }
                } else {
                    decode_step(with_next_index(v, 0), rest)
                }
            },
        }
    } else {
        match found {
            Some(k) => DecodeStep {
                state: with_next_index(v, 0),
                buffer: buf.skip(k + 1),
                outcome: Decoded::Frame(buf.take(k)),
            },
            None => {
                if buf.len() > v.max_length {
                    DecodeStep { state: with_discarding(v, true, v.next_index), buffer: buf, outcome: Decoded::TooLong }
                } else {
                    let n: usize = if read_to > d { (read_to - (d - 1)) as usize } else { 0 };
                    DecodeStep { state: with_next_index(v, n), buffer: buf, outcome: Decoded::Pending }
                }
            },
        }
    }
}

/// The decoder at the end of the input: a call of `decode_step`, after which
/// bytes left over without a delimiter come out as a last chunk.
pub open spec fn decode_eof_step(v: CodecView, buf: Seq<u8>) -> DecodeStep {
    let s = decode_step(v, buf);
    match s.outcome {
        Decoded::Pending => {
            if s.buffer.len() == 0 {
                s
            } else {
                DecodeStep {
                    state: with_next_index(s.state, 0),
                    buffer: Seq::empty(),
                    outcome: Decoded::Frame(s.buffer),
                }
            }
        },
        _ => s,
    }
}

/// What encoding `chunk` appends to a buffer.
pub open spec fn encoded(v: CodecView, chunk: Seq<u8>) -> Seq<u8> {
    chunk + v.sequence_writer
}

} // verus!
