//! Properties of the delimiter codec that hold across inputs and calls.

use vstd::prelude::*;

use super::codec::decode_precondition;
use super::frame::{
    decode_eof_step, decode_step, encoded, first_occurrence, lemma_first_occurrence,
    lemma_first_occurrence_skip, occurs_at, read_limit, with_discarding, with_next_index,
    CodecView, DecodeStep, Decoded,
};

verus! {

/// The positions before `next_index` hold no delimiter, and the delimiter
/// would fit in the buffer there: a search may start at `next_index` without
/// missing one. A codec that starts a search from scratch (`next_index == 0`)
/// is always in this state, and `decode` keeps it (see
/// `lemma_pending_keeps_search_resumable`).
pub open spec fn search_is_resumable(v: CodecView, buf: Seq<u8>) -> bool {
    forall|i: int|
        0 <= i < v.next_index ==> i + v.seek_delimiters.len() <= buf.len() && !occurs_at(
            buf,
            v.seek_delimiters,
            i,
        )
}

/// An occurrence that lies within `b` is an occurrence in `b + c` and back.
proof fn lemma_occurs_in_prefix(b: Seq<u8>, c: Seq<u8>, pat: Seq<u8>, i: int)
    requires
        0 <= i,
        i + pat.len() <= b.len(),
    ensures
        occurs_at(b + c, pat, i) == occurs_at(b, pat, i),
{
    assert((b + c).subrange(i, i + pat.len()) =~= b.subrange(i, i + pat.len()));
}

/// A decoder that is not discarding and can resume its search on `b` splits
/// off exactly the bytes before the first delimiter: the buffer it was handed
/// is the frame, then the delimiter, then more; the frame holds no delimiter;
/// and one byte past the frame (the delimiter's first) is dropped with it.
pub proof fn lemma_frame_splits_buffer(v: CodecView, b: Seq<u8>)
    requires
        !v.is_discarding,
        v.seek_delimiters.len() > 0,
        search_is_resumable(v, b),
        decode_step(v, b).outcome is Frame,
    ensures
        ({
            let step = decode_step(v, b);
            let frame = step.outcome->Frame_0;
            &&& b.take((frame.len() + v.seek_delimiters.len()) as int) == frame + v.seek_delimiters
            &&& step.buffer == b.skip((frame.len() + 1) as int)
            &&& forall|i: int| !occurs_at(frame, v.seek_delimiters, i)
        }),
{
    let d = v.seek_delimiters.len();
    let rt = read_limit(v, b.len() as int);
    lemma_first_occurrence(b, v.seek_delimiters, v.next_index as int, rt);
    let k = first_occurrence(b, v.seek_delimiters, v.next_index as int, rt)->Some_0;
    let frame = b.take(k);
    assert(b.take(k + d) =~= frame + v.seek_delimiters) by {
        assert(b.subrange(k, k + d) == v.seek_delimiters);
        assert forall|j: int| 0 <= j < k + d implies b.take(k + d)[j] == (frame
            + v.seek_delimiters)[j] by {
            if j >= k {
                assert(b.subrange(k, k + d)[j - k] == b[j]);
            }
        }
    }
    assert forall|i: int| !occurs_at(frame, v.seek_delimiters, i) by {
        if occurs_at(frame, v.seek_delimiters, i) {
            assert(frame.subrange(i, i + d) =~= b.subrange(i, i + d));
            assert(occurs_at(b, v.seek_delimiters, i));
        }
    }
}

/// No frame that the decoder hands out is longer than `max_length`.
pub proof fn lemma_frame_within_max_length(v: CodecView, b: Seq<u8>)
    requires
        v.seek_delimiters.len() > 0,
    ensures
        decode_step(v, b).outcome matches Decoded::Frame(frame) ==> frame.len() <= v.max_length,
    decreases b.len(),
{
    let rt = read_limit(v, b.len() as int);
    lemma_first_occurrence(b, v.seek_delimiters, v.next_index as int, rt);
    let found = first_occurrence(b, v.seek_delimiters, v.next_index as int, rt);
    if v.is_discarding {
        match found {
            Some(k) => {
                lemma_frame_within_max_length(
                    CodecView { is_discarding: false, next_index: 0, ..v },
                    b.skip(k + 1),
                );
            },
            None => {
                let rest = b.skip(rt);
                if rest.len() != 0 {
                    lemma_frame_within_max_length(with_next_index(v, 0), rest);
                }
            },
        }
    }
}

/// Where a non-discarding search starts does not matter when it can resume:
/// the decoder reports the same and leaves the same buffer as one that
/// searches `b + c` from the start.
pub proof fn lemma_resume_position_irrelevant(v: CodecView, b: Seq<u8>, c: Seq<u8>)
    requires
        !v.is_discarding,
        v.seek_delimiters.len() > 0,
        search_is_resumable(v, b),
    ensures
        decode_step(v, b + c).outcome == decode_step(with_next_index(v, 0), b + c).outcome,
        decode_step(v, b + c).buffer == decode_step(with_next_index(v, 0), b + c).buffer,
{
    let bc = b + c;
    let d = v.seek_delimiters.len();
    let rt = read_limit(v, bc.len() as int);
    assert forall|j: int| 0 <= j < v.next_index implies !occurs_at(bc, v.seek_delimiters, j) by {
        assert(!occurs_at(b, v.seek_delimiters, j));
        lemma_occurs_in_prefix(b, c, v.seek_delimiters, j);
    }
    lemma_first_occurrence_skip(bc, v.seek_delimiters, 0, v.next_index as int, rt);
    assert(read_limit(with_next_index(v, 0), bc.len() as int) == rt);
}

/// After a call that found no frame, a decoder that could resume its search
/// on `b` still can, and is still not discarding; only `next_index` changed.
pub proof fn lemma_pending_keeps_search_resumable(v: CodecView, b: Seq<u8>)
    requires
        !v.is_discarding,
        v.seek_delimiters.len() > 0,
        search_is_resumable(v, b),
        decode_step(v, b).outcome is Pending,
    ensures
        decode_step(v, b).state == with_next_index(v, decode_step(v, b).state.next_index),
        decode_step(v, b).buffer == b,
        search_is_resumable(decode_step(v, b).state, b),
{
    let d = v.seek_delimiters.len();
    let rt = read_limit(v, b.len() as int);
    lemma_first_occurrence(b, v.seek_delimiters, v.next_index as int, rt);
    assert(first_occurrence(b, v.seek_delimiters, v.next_index as int, rt) is None);
    assert(b.len() <= v.max_length);
    assert(rt == b.len());
}

/// Decoding is not affected by how the input was split into reads: when a
/// call on `b` found no frame, the next call on `b` followed by more bytes
/// `c` reports the same, and leaves the same buffer, as a fresh search of the
/// whole input.
pub proof fn lemma_split_input_decodes_alike(v: CodecView, b: Seq<u8>, c: Seq<u8>)
    requires
        !v.is_discarding,
        v.seek_delimiters.len() > 0,
        search_is_resumable(v, b),
        decode_step(v, b).outcome is Pending,
    ensures
        ({
            let resumed = decode_step(decode_step(v, b).state, decode_step(v, b).buffer + c);
            let fresh = decode_step(with_next_index(v, 0), b + c);
            &&& resumed.outcome == fresh.outcome
            &&& resumed.buffer == fresh.buffer
        }),
{
    lemma_pending_keeps_search_resumable(v, b);
    let s1 = decode_step(v, b).state;
    lemma_resume_position_irrelevant(s1, b, c);
    assert(with_next_index(s1, 0) == with_next_index(v, 0));
}

/// A chunk encoded by a codec that searches for the bytes it writes is
/// decoded back, when the chunk holds no delimiter (the delimiter first
/// occurs right after it) and fits within the length bound: the frame is the
/// chunk, and the delimiter's bytes after its first one are left in the
/// buffer.
pub proof fn lemma_encode_then_decode(v: CodecView, chunk: Seq<u8>)
    requires
        v.next_index == 0,
        !v.is_discarding,
        v.seek_delimiters.len() > 0,
        v.sequence_writer == v.seek_delimiters,
        chunk.len() + v.seek_delimiters.len() <= v.max_length + 1,
        chunk.len() + v.seek_delimiters.len() <= usize::MAX,
        forall|i: int| 0 <= i < chunk.len() ==> !occurs_at(chunk + v.seek_delimiters, v.seek_delimiters, i),
    ensures
        decode_step(v, encoded(v, chunk)) == (DecodeStep {
            state: v,
            buffer: v.seek_delimiters.skip(1),
            outcome: Decoded::Frame(chunk),
        }),
{
    let e = encoded(v, chunk);
    let d = v.seek_delimiters.len();
    let rt = read_limit(v, e.len() as int);
    assert(rt == e.len());
    lemma_first_occurrence_skip(e, v.seek_delimiters, 0, chunk.len() as int, rt);
    assert(e.subrange(chunk.len() as int, (chunk.len() + d) as int) =~= v.seek_delimiters);
    assert(e.take(chunk.len() as int) =~= chunk);
    assert(e.skip((chunk.len() + 1) as int) =~= v.seek_delimiters.skip(1));
    assert(with_next_index(v, 0) == v);
}

/// With the default codec (delimiter and terminator `\r\n`, no length bound),
/// a chunk that holds no `\r\n`, encoded into an empty buffer, is decoded
/// back whole, and `\n` is left in the buffer.
pub proof fn lemma_default_codec_round_trip(v: CodecView, chunk: Seq<u8>)
    requires
        v == (CodecView {
            next_index: 0,
            max_length: usize::MAX,
            is_discarding: false,
            seek_delimiters: seq![13u8, 10u8],
            sequence_writer: seq![13u8, 10u8],
        }),
        chunk.len() + 2 <= usize::MAX,
        forall|i: int| !occurs_at(chunk, v.seek_delimiters, i),
    ensures
        decode_step(v, encoded(v, chunk)) == (DecodeStep {
            state: v,
            buffer: seq![10u8],
            outcome: Decoded::Frame(chunk),
        }),
{
    let delim = v.seek_delimiters;
    let e = chunk + delim;
    assert forall|i: int| 0 <= i < chunk.len() implies !occurs_at(e, delim, i) by {
        if i + 2 <= chunk.len() {
            assert(e.subrange(i, i + 2) =~= chunk.subrange(i, i + 2));
            assert(!occurs_at(chunk, delim, i));
        } else {
            assert(e.subrange(i, i + 2)[1] == 13u8);
        }
    }
    lemma_encode_then_decode(v, chunk);
    assert(delim.skip(1) =~= seq![10u8]);
}

/// At the end of the input, bytes without a delimiter come out whole as a
/// last frame, and the buffer is left empty.
pub proof fn lemma_eof_returns_rest(v: CodecView, b: Seq<u8>)
    requires
        !v.is_discarding,
        v.seek_delimiters.len() > 0,
        b.len() > 0,
        b.len() <= v.max_length,
        forall|i: int| !occurs_at(b, v.seek_delimiters, i),
    ensures
        decode_eof_step(v, b) == (DecodeStep {
            state: with_next_index(v, 0),
            buffer: Seq::<u8>::empty(),
            outcome: Decoded::Frame(b),
        }),
{
    let rt = read_limit(v, b.len() as int);
    lemma_first_occurrence(b, v.seek_delimiters, v.next_index as int, rt);
    let s = decode_step(v, b);
    assert(with_next_index(s.state, 0) == with_next_index(v, 0));
}

/// A codec without a length bound (as `new` and `default` make it) never
/// reports a chunk as too long and never starts discarding: every call of
/// `decode` or `decode_eof` on a buffer a `BytesMut` can hold leaves it
/// unbounded and not discarding, with only `next_index` changed. So over any
/// sequence of calls, with bytes appended in between, none reports
/// `MaxChunkLengthExceeded`.
pub proof fn lemma_unbounded_never_too_long(v: CodecView, b: Seq<u8>)
    requires
        v.max_length == usize::MAX,
        !v.is_discarding,
        b.len() <= usize::MAX,
    ensures
        !(decode_step(v, b).outcome is TooLong),
        decode_step(v, b).state == with_next_index(v, decode_step(v, b).state.next_index),
        !(decode_eof_step(v, b).outcome is TooLong),
        decode_eof_step(v, b).state == with_next_index(v, decode_eof_step(v, b).state.next_index),
{
    let s = decode_step(v, b);
    assert(with_next_index(s.state, 0) == with_next_index(v, 0));
}

/// A codec without a length bound that can resume its search returns a chunk
/// of any length whole once its delimiter is in the buffer: the frame is
/// everything before the first delimiter.
pub proof fn lemma_unbounded_finds_delimiter(v: CodecView, b: Seq<u8>, k: int)
    requires
        v.max_length == usize::MAX,
        !v.is_discarding,
        v.seek_delimiters.len() > 0,
        b.len() <= usize::MAX,
        search_is_resumable(v, b),
        occurs_at(b, v.seek_delimiters, k),
        forall|j: int| 0 <= j < k ==> !occurs_at(b, v.seek_delimiters, j),
    ensures
        decode_step(v, b) == (DecodeStep {
            state: with_next_index(v, 0),
            buffer: b.skip(k + 1),
            outcome: Decoded::Frame(b.take(k)),
        }),
{
    let d = v.seek_delimiters.len();
    let rt = read_limit(v, b.len() as int);
    assert(rt == b.len());
    if k < v.next_index {
        assert(!occurs_at(b, v.seek_delimiters, k));
    }
    lemma_first_occurrence_skip(b, v.seek_delimiters, v.next_index as int, k, rt);
    assert(first_occurrence(b, v.seek_delimiters, k, rt) == Some(k));
}

/// `n` calls of `decode_eof` on `b` from state `v`, with nothing appended in
/// between, empty the buffer: each call but the last returns a frame and
/// removes at least one byte, leaving a state and buffer `decode_eof` may be
/// called on again, and the last call reports no frame with the buffer empty;
/// no call reports an error.
pub open spec fn eof_drains_within(v: CodecView, b: Seq<u8>, n: nat) -> bool
    decreases n,
{
    if n == 0 {
        false
    } else {
        let s = decode_eof_step(v, b);
        match s.outcome {
            Decoded::Pending => s.buffer.len() == 0,
            Decoded::Frame(_) => {
                &&& s.buffer.len() < b.len()
                &&& decode_precondition(s.state, s.buffer)
                &&& eof_drains_within(s.state, s.buffer, (n - 1) as nat)
            },
            Decoded::TooLong => false,
        }
    }
}

/// Calling `decode_eof` again and again on a buffer, with nothing appended,
/// empties it within `b.len() + 1` calls (or any more), without an error,
/// when the codec has no length bound.
pub proof fn lemma_eof_drains(v: CodecView, b: Seq<u8>, n: nat)
    requires
        v.max_length == usize::MAX,
        !v.is_discarding,
        decode_precondition(v, b),
        b.len() <= usize::MAX,
        n > b.len(),
    ensures
        eof_drains_within(v, b, n),
    decreases b.len(),
{
    let rt = read_limit(v, b.len() as int);
    lemma_first_occurrence(b, v.seek_delimiters, v.next_index as int, rt);
    lemma_unbounded_never_too_long(v, b);
    let s = decode_eof_step(v, b);
    let v1 = with_next_index(v, 0);
    assert(s.state == v1) by {
        assert(with_next_index(decode_step(v, b).state, 0) == v1);
    }
    match s.outcome {
        Decoded::Pending => {},
        Decoded::Frame(_) => {
            lemma_eof_drains(v1, s.buffer, (n - 1) as nat);
        },
        Decoded::TooLong => {},
    }
}

/// While discarding, when a delimiter lies within the part of the buffer
/// searched and none comes before it there, the bytes up to and including
/// the delimiter's first byte are dropped, and the decoder goes on, no longer
/// discarding, from a fresh search of the rest.
pub proof fn lemma_discard_through_delimiter(v: CodecView, b: Seq<u8>, k: int)
    requires
        v.is_discarding,
        v.seek_delimiters.len() > 0,
        v.next_index <= k,
        k + v.seek_delimiters.len() <= read_limit(v, b.len() as int),
        occurs_at(b, v.seek_delimiters, k),
        forall|j: int| v.next_index <= j < k ==> !occurs_at(b, v.seek_delimiters, j),
    ensures
        decode_step(v, b) == decode_step(with_discarding(v, false, 0), b.skip(k + 1)),
{
    let rt = read_limit(v, b.len() as int);
    lemma_first_occurrence_skip(b, v.seek_delimiters, v.next_index as int, k, rt);
    assert(first_occurrence(b, v.seek_delimiters, k, rt) == Some(k));
}

/// While discarding, a buffer that holds no delimiter is emptied, and the
/// decoder stays discarding and reports that it needs more input.
pub proof fn lemma_discard_without_delimiter_empties(v: CodecView, b: Seq<u8>)
    requires
        v.is_discarding,
        v.seek_delimiters.len() > 0,
        forall|i: int| !occurs_at(b, v.seek_delimiters, i),
    ensures
        decode_step(v, b) == (DecodeStep {
            state: with_next_index(v, 0),
            buffer: Seq::<u8>::empty(),
            outcome: Decoded::Pending,
        }),
    decreases b.len(),
{
    let d = v.seek_delimiters.len();
    let rt = read_limit(v, b.len() as int);
    lemma_first_occurrence(b, v.seek_delimiters, v.next_index as int, rt);
    let rest = b.skip(rt);
    if rest.len() == 0 {
        assert(rest =~= Seq::<u8>::empty());
    } else {
        assert forall|i: int| !occurs_at(rest, v.seek_delimiters, i) by {
            if occurs_at(rest, v.seek_delimiters, i) {
                assert(rest.subrange(i, i + d) =~= b.subrange(i + rt, i + rt + d));
                assert(occurs_at(b, v.seek_delimiters, i + rt));
            }
        }
        lemma_discard_without_delimiter_empties(with_next_index(v, 0), rest);
        assert(with_next_index(with_next_index(v, 0), 0) == with_next_index(v, 0));
    }
}

/// Encoding writes the chunk's bytes followed by the terminator, whatever
/// state an earlier decode left the codec in: neither the search position
/// nor the discarding flag changes what is written.
pub proof fn lemma_encoding_ignores_decoder_state(v: CodecView, chunk: Seq<u8>, discarding: bool, n: usize)
    ensures
        encoded(v, chunk) == chunk + v.sequence_writer,
        encoded(with_discarding(v, discarding, n), chunk) == encoded(v, chunk),
        encoded(v, chunk).len() == chunk.len() + v.sequence_writer.len(),
{
}

/// A decoder that is not discarding and can resume its search, on a buffer
/// whose first delimiter starts at `k` and ends within `max_length + 1`
/// bytes, splits off exactly the bytes before it, drops the delimiter's first
/// byte, and starts the next search from the front.
pub proof fn lemma_decode_splits_at_first_delimiter(v: CodecView, b: Seq<u8>, k: int)
    requires
        !v.is_discarding,
        v.seek_delimiters.len() > 0,
        b.len() <= usize::MAX,
        k + v.seek_delimiters.len() <= v.max_length + 1,
        search_is_resumable(v, b),
        occurs_at(b, v.seek_delimiters, k),
        forall|j: int| 0 <= j < k ==> !occurs_at(b, v.seek_delimiters, j),
    ensures
        decode_step(v, b) == (DecodeStep {
            state: with_next_index(v, 0),
            buffer: b.skip(k + 1),
            outcome: Decoded::Frame(b.take(k)),
        }),
{
    let rt = read_limit(v, b.len() as int);
    assert(k + v.seek_delimiters.len() <= rt);
    if k < v.next_index {
        assert(!occurs_at(b, v.seek_delimiters, k));
    }
    lemma_first_occurrence_skip(b, v.seek_delimiters, v.next_index as int, k, rt);
    assert(first_occurrence(b, v.seek_delimiters, k, rt) == Some(k));
}

/// At the end of the input the decoder still hands out complete frames one
/// at a time: on a buffer whose first delimiter starts at `k` (and ends
/// within `max_length + 1` bytes), `decode_eof` returns exactly the bytes
/// before it, drops the delimiter's first byte and keeps the rest for the
/// next call, just as `decode` does. Only a buffer with no delimiter comes
/// out whole (`lemma_eof_returns_rest`).
pub proof fn lemma_eof_splits_at_first_delimiter(v: CodecView, b: Seq<u8>, k: int)
    requires
        !v.is_discarding,
        v.seek_delimiters.len() > 0,
        b.len() <= usize::MAX,
        k + v.seek_delimiters.len() <= v.max_length + 1,
        search_is_resumable(v, b),
        occurs_at(b, v.seek_delimiters, k),
        forall|j: int| 0 <= j < k ==> !occurs_at(b, v.seek_delimiters, j),
    ensures
        decode_eof_step(v, b) == (DecodeStep {
            state: with_next_index(v, 0),
            buffer: b.skip(k + 1),
            outcome: Decoded::Frame(b.take(k)),
        }),
        decode_eof_step(v, b) == decode_step(v, b),
{
    lemma_decode_splits_at_first_delimiter(v, b, k);
}

/// `decode_eof` reports what `decode` reports whenever `decode` finds a frame
/// or a chunk that is too long; when `decode` needs more input, `decode_eof`
/// returns the bytes left, if any, as one frame and empties the buffer.
pub proof fn lemma_eof_agrees_with_decode(v: CodecView, b: Seq<u8>)
    ensures
        !(decode_step(v, b).outcome is Pending) ==> decode_eof_step(v, b) == decode_step(v, b),
        decode_step(v, b).outcome is Pending ==> decode_eof_step(v, b).buffer.len() == 0,
        decode_step(v, b).outcome is Pending && decode_step(v, b).buffer.len() > 0
            ==> decode_eof_step(v, b).outcome == Decoded::Frame(decode_step(v, b).buffer),
        decode_step(v, b).outcome is Pending && decode_step(v, b).buffer.len() == 0
            ==> decode_eof_step(v, b).outcome is Pending,
{
}

} // verus!
