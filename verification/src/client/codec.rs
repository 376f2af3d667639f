//! A codec that splits a byte stream into chunks at a delimiter and writes
//! chunks followed by a terminator.

use bytes::{Bytes, BytesMut};
use vstd::prelude::*;
use vstd::string::StringSliceAdditionalSpecFns;

use super::buf::{
    buf_advance, buf_contents, buf_freeze, buf_put, buf_reserve, buf_split_to, buf_truncate,
    bytes_mut_view, bytes_view,
};
use super::frame::{
    decode_eof_step, decode_step, encoded, first_occurrence, lemma_first_occurrence, read_limit,
    with_discarding, with_next_index, CodecView, DecodeStep, Decoded,
};

verus! {

#[verifier::external_type_specification]
#[verifier::external_body]
pub struct ExIoError(std::io::Error);

/// Splits a byte stream into chunks at `seek_delimiters`, and writes chunks
/// followed by `sequence_writer`.
#[derive(Clone, Debug, PartialEq, Eq, PartialOrd, Ord, Hash)]
pub struct RPCDelimiterCodec {
    // Stored index of the next index to examine for the delimiter.
    // This is used to optimize searching: a later call resumes where the
    // previous one stopped.
    next_index: usize,
    /// The maximum length for a given chunk. If `usize::MAX`, chunks will be
    /// read until a delimiter is reached.
    max_length: usize,
    /// Are we currently discarding the remainder of a chunk which was over
    /// the length limit?
    is_discarding: bool,
    /// The bytes that are searched for during decode.
    seek_delimiters: Vec<u8>,
    /// The bytes that are written after each chunk during encode.
    sequence_writer: Vec<u8>,
}

impl View for RPCDelimiterCodec {
    type V = CodecView;

    closed spec fn view(&self) -> CodecView {
        CodecView {
            next_index: self.next_index,
            max_length: self.max_length,
            is_discarding: self.is_discarding,
            seek_delimiters: self.seek_delimiters@,
            sequence_writer: self.sequence_writer@,
        }
    }
}

/// An error occurred while encoding or decoding a chunk.
#[derive(Debug)]
pub enum RPCDelimiterCodecError {
    /// The maximum chunk length was exceeded.
    MaxChunkLengthExceeded,
    /// An IO error occurred.
    Io(std::io::Error),
}

/// What a decoder can be called on without panicking: a non-empty delimiter,
/// and a resume position that lies within the part of `buf` to be searched.
pub open spec fn decode_precondition(v: CodecView, buf: Seq<u8>) -> bool {
    &&& v.seek_delimiters.len() > 0
    &&& v.next_index <= read_limit(v, buf.len() as int)
}

/// What an encoder can be called on without panicking: room for the chunk
/// and one more byte is reserved first, then the chunk and the terminator are
/// appended, and a buffer's capacity cannot exceed `isize::MAX`.
pub open spec fn encode_precondition(v: CodecView, chunk: Seq<u8>, buf: Seq<u8>) -> bool {
    &&& buf.len() + chunk.len() + 1 <= isize::MAX
    &&& buf.len() + chunk.len() + v.sequence_writer.len() <= isize::MAX
}

/// The state `state`, buffer `buffer` and result `res` are those of `step`.
pub open spec fn decode_reports(
    step: DecodeStep,
    state: CodecView,
    buffer: Seq<u8>,
    res: Result<Option<Bytes>, RPCDelimiterCodecError>,
) -> bool {
    &&& step.state == state
    &&& step.buffer == buffer
    &&& match res {
        Ok(Some(frame)) => step.outcome == Decoded::Frame(bytes_view(frame)),
        Ok(None) => step.outcome == Decoded::Pending,
        Err(e) => e is MaxChunkLengthExceeded && step.outcome == Decoded::TooLong,
    }
}

/// Whether `pat` occurs in `hay` at `start`; `hay[start..start + pat.len()]`
/// must lie within `hay`.
fn window_matches(hay: &[u8], start: usize, pat: &[u8]) -> (r: bool)
    requires
        start + pat@.len() <= hay@.len(),
    ensures
        r == (hay@.subrange(start as int, start + pat@.len()) == pat@),
{
    let hay_len = hay.len();
    let mut j: usize = 0;
    while j < pat.len()
        invariant
            hay_len == hay@.len(),
            j <= pat@.len(),
            start + pat@.len() <= hay@.len(),
            forall|t: int| 0 <= t < j ==> hay@[start + t] == pat@[t],
        decreases pat@.len() - j,
    {
        if hay[start + j] != pat[j] {
            assert(hay@.subrange(start as int, start + pat@.len())[j as int] != pat@[j as int]);
            return false;
        }
        j += 1;
    }
    assert(hay@.subrange(start as int, start + pat@.len()) =~= pat@);
    true
}

/// The first position `i >= from` with `i + pat.len() <= to` at which `pat`
/// occurs in `hay`.
fn find_delimiter(hay: &[u8], pat: &[u8], from: usize, to: usize) -> (r: Option<usize>)
    requires
        from <= to <= hay@.len(),
        pat@.len() > 0,
    ensures
        match r {
            Some(k) => first_occurrence(hay@, pat@, from as int, to as int) == Some(k as int),
            None => first_occurrence(hay@, pat@, from as int, to as int) is None,
        },
{
    let d = pat.len();
    let mut i = from;
    while to - i >= d
        invariant
            from <= i <= to,
            to <= hay@.len(),
            d == pat@.len(),
            d > 0,
            first_occurrence(hay@, pat@, from as int, to as int) == first_occurrence(
                hay@,
                pat@,
                i as int,
                to as int,
            ),
        decreases to - i,
    {
        if window_matches(hay, i, pat) {
            return Some(i);
        }
        i += 1;
    }
    None
}

impl RPCDelimiterCodec {
    /// Returns a `RPCDelimiterCodec` for splitting up data into chunks.
    ///
    /// # Note
    ///
    /// The returned `RPCDelimiterCodec` will not have an upper bound on the length
    /// of a buffered chunk. See the documentation for [`new_with_max_length`]
    /// for information on why this could be a potential security risk.
    ///
    /// [`new_with_max_length`]: RPCDelimiterCodec::new_with_max_length()
    pub fn new(seek_delimiters: Vec<u8>, sequence_writer: Vec<u8>) -> (c: RPCDelimiterCodec)
        ensures
            c@ == (CodecView {
                next_index: 0,
                max_length: usize::MAX,
                is_discarding: false,
                seek_delimiters: seek_delimiters@,
                sequence_writer: sequence_writer@,
            }),
    {
        RPCDelimiterCodec {
            next_index: 0,
            max_length: usize::MAX,
            is_discarding: false,
            seek_delimiters,
            sequence_writer,
        }
    }

    /// Returns a `RPCDelimiterCodec` with a maximum chunk length limit.
    ///
    /// If this is set, calls to `decode` will return a
    /// [`RPCDelimiterCodecError::MaxChunkLengthExceeded`] when no delimiter
    /// is found within `max_length + 1` bytes; the rest of that chunk is then
    /// discarded, up to the next delimiter. Without a limit, a peer that never
    /// sends a delimiter makes the buffer grow without bound.
    pub fn new_with_max_length(
        seek_delimiters: Vec<u8>,
        sequence_writer: Vec<u8>,
        max_length: usize,
    ) -> (c: RPCDelimiterCodec)
        ensures
            c@ == (CodecView {
                next_index: 0,
                max_length: max_length,
                is_discarding: false,
                seek_delimiters: seek_delimiters@,
                sequence_writer: sequence_writer@,
            }),
    {
        RPCDelimiterCodec { max_length, ..RPCDelimiterCodec::new(seek_delimiters, sequence_writer) }
    }

    /// Whether `decode` and `decode_eof` may be called with this codec and
    /// `buf`: the delimiter is not empty, and the position where the search
    /// resumes lies within the part of `buf` that is searched (it does while
    /// the same buffer is handed in again, grown or as the codec left it).
    pub fn can_decode(&self, buf: &BytesMut) -> (r: bool)
        ensures
            r == decode_precondition(self@, bytes_mut_view(*buf)),
            bytes_mut_view(*buf).len() <= usize::MAX,
    {
        let len = buf_contents(buf).len();
        let bound = self.max_length.saturating_add(1);
        let read_to = if bound < len { bound } else { len };
        self.seek_delimiters.len() > 0 && self.next_index <= read_to
    }

    /// Splits the next chunk off the front of `buf`, if a delimiter is found.
    pub fn decode(&mut self, buf: &mut BytesMut) -> (res: Result<Option<Bytes>, RPCDelimiterCodecError>)
        requires
            decode_precondition(old(self)@, bytes_mut_view(*old(buf))),
        ensures
            bytes_mut_view(*old(buf)).len() <= usize::MAX,
            decode_reports(
                decode_step(old(self)@, bytes_mut_view(*old(buf))),
                final(self)@,
                bytes_mut_view(*final(buf)),
                res,
            ),
    {
        let ghost v0 = self@;
        let ghost b0 = bytes_mut_view(*buf);
        let start_len = buf_contents(buf).len();
        assert(b0.len() == start_len);
        loop
            invariant
                v0 == old(self)@,
                b0 == bytes_mut_view(*old(buf)),
                b0.len() <= usize::MAX,
                decode_precondition(self@, bytes_mut_view(*buf)),
                decode_step(self@, bytes_mut_view(*buf)) == decode_step(v0, b0),
            decreases bytes_mut_view(*buf).len(),
        {
            // Determine how far into the buffer we'll search for a delimiter. If
            // there's no max_length set, we'll read to the end of the buffer.
            let ghost v = self@;
            let ghost b = bytes_mut_view(*buf);
            let buf_len = buf_contents(buf).len();
            let bound = self.max_length.saturating_add(1);
            let read_to = if bound < buf_len { bound } else { buf_len };
            let seek_delimiters_length = self.seek_delimiters.len();
            assert(read_to == read_limit(v, b.len() as int));

            let new_chunk_index = find_delimiter(
                buf_contents(buf),
                self.seek_delimiters.as_slice(),
                self.next_index,
                read_to,
            );
            proof {
                lemma_first_occurrence(b, v.seek_delimiters, v.next_index as int, read_to as int);
            }

            match (self.is_discarding, new_chunk_index) {
                (true, Some(index)) => {
                    // If we found a new chunk, discard up to that index and
                    // then stop discarding. On the next iteration, we'll try
                    // to read a chunk normally.
                    buf_advance(buf, index + 1);
                    self.is_discarding = false;
                    self.next_index = 0;
                    assert(self@ == with_discarding(v, false, 0));
                },
                (true, None) => {
                    // Otherwise, we didn't find a new chunk, so we'll discard
                    // everything we read. On the next iteration, we'll continue
                    // discarding up to max_len bytes unless we find a new chunk.
                    buf_advance(buf, read_to);
                    self.next_index = 0;
                    assert(self@ == with_next_index(v, 0));
                    if buf_contents(buf).len() == 0 {
                        return Ok(None);
                    }
                },
                (false, Some(index)) => {
                    // Found a chunk!
                    self.next_index = 0;
                    let mut chunk = buf_split_to(buf, index + 1);
                    let chunk_len = buf_contents(&chunk).len();
                    buf_truncate(&mut chunk, chunk_len - 1);
                    assert(self@ == with_next_index(v, 0));
                    assert(b.take(index + 1).take(index as int) =~= b.take(index as int));
                    return Ok(Some(buf_freeze(chunk)));
                },
                (false, None) if buf_len > self.max_length => {
                    // Reached the maximum length without finding a
                    // new chunk, return an error and start discarding on the
                    // next call.
                    self.is_discarding = true;
                    assert(self@ == with_discarding(v, true, v.next_index));
                    return Err(RPCDelimiterCodecError::MaxChunkLengthExceeded);
                },
                (false, None) => {
                    // We didn't find a chunk or reach the length limit, so the next
                    // call will resume searching at the current offset.
                    // We also need to go back the length of seek delimiters minus 1
                    // so that we can catch the delimiters that appear across chunks.
                    if read_to > seek_delimiters_length {
                        self.next_index = read_to - (seek_delimiters_length - 1);
                    } else {
                        self.next_index = 0;
                    }
                    return Ok(None);
                },
            }
        }
    }

    /// Like `decode`, at the end of the input: bytes left over without a
    /// delimiter are returned as a last chunk.
    pub fn decode_eof(&mut self, buf: &mut BytesMut) -> (res: Result<Option<Bytes>, RPCDelimiterCodecError>)
        requires
            decode_precondition(old(self)@, bytes_mut_view(*old(buf))),
        ensures
            bytes_mut_view(*old(buf)).len() <= usize::MAX,
            decode_reports(
                decode_eof_step(old(self)@, bytes_mut_view(*old(buf))),
                final(self)@,
                bytes_mut_view(*final(buf)),
                res,
            ),
    {
        match self.decode(buf) {
            Err(e) => Err(e),
            Ok(Some(frame)) => Ok(Some(frame)),
            Ok(None) => {
                // return remaining data, if any
                let len = buf_contents(buf).len();
                if len == 0 {
                    Ok(None)
                } else {
                    let ghost rest = bytes_mut_view(*buf);
                    let chunk = buf_split_to(buf, len);
                    self.next_index = 0;
                    assert(rest.take(len as int) =~= rest);
                    assert(bytes_mut_view(*buf) =~= Seq::<u8>::empty());
                    Ok(Some(buf_freeze(chunk)))
                }
            },
        }
    }

    /// Whether `encode` may be called with `chunk` and `buf`: the buffer and
    /// the chunk with one more byte (the room reserved), and the buffer, the
    /// chunk and the terminator, fit in the memory a buffer can address.
    pub fn can_encode(&self, chunk: &str, buf: &BytesMut) -> (r: bool)
        ensures
            r == encode_precondition(self@, chunk.spec_bytes(), bytes_mut_view(*buf)),
    {
        let limit = isize::MAX as usize;
        let used = buf_contents(buf).len();
        let chunk_len = chunk.as_bytes().len();
        let writer_len = self.sequence_writer.len();
        used <= limit && chunk_len < limit - used && writer_len <= limit - used - chunk_len
    }

    /// Appends `chunk` and then `sequence_writer` to `buf`.
    pub fn encode(&mut self, chunk: &str, buf: &mut BytesMut) -> (res: Result<(), RPCDelimiterCodecError>)
        requires
            encode_precondition(old(self)@, chunk.spec_bytes(), bytes_mut_view(*old(buf))),
        ensures
            res is Ok,
            final(self)@ == old(self)@,
            bytes_mut_view(*final(buf)) == bytes_mut_view(*old(buf)) + chunk.spec_bytes()
                + old(self)@.sequence_writer,
            bytes_mut_view(*final(buf)) == bytes_mut_view(*old(buf)) + encoded(
                old(self)@,
                chunk.spec_bytes(),
            ),
    {
        let bytes = chunk.as_bytes();
        buf_reserve(buf, bytes.len() + 1);
        buf_put(buf, bytes);
        buf_put(buf, self.sequence_writer.as_slice());
        assert(bytes_mut_view(*buf) =~= bytes_mut_view(*old(buf)) + chunk.spec_bytes()
            + old(self)@.sequence_writer);
        assert(bytes_mut_view(*buf) =~= bytes_mut_view(*old(buf)) + encoded(
            old(self)@,
            chunk.spec_bytes(),
        ));
        Ok(())
    }
}

impl RPCDelimiterCodecError {
    /// The text of the error: a fixed message for an over-long chunk, the IO
    /// error's own text otherwise.
    pub fn message(&self) -> (s: String)
        ensures
            self is MaxChunkLengthExceeded ==> s@ == "max chunk length exceeded"@,
            self matches RPCDelimiterCodecError::Io(e)
                ==> vstd::string::to_string_from_display_ensures::<std::io::Error>(&e, s),
    {
        broadcast use vstd::string::to_string_from_display_ensures_for_str;

        match self {
            RPCDelimiterCodecError::MaxChunkLengthExceeded => "max chunk length exceeded".to_string(),
            RPCDelimiterCodecError::Io(e) => e.to_string(),
        }
    }
}

impl From<std::io::Error> for RPCDelimiterCodecError {
    fn from(e: std::io::Error) -> (r: RPCDelimiterCodecError) {
        RPCDelimiterCodecError::Io(e)
    }
}

impl vstd::std_specs::convert::FromSpecImpl<std::io::Error> for RPCDelimiterCodecError {
    open spec fn obeys_from_spec() -> bool {
        true
    }

    open spec fn from_spec(e: std::io::Error) -> RPCDelimiterCodecError {
        RPCDelimiterCodecError::Io(e)
    }
}

impl Default for RPCDelimiterCodec {
    /// A codec that splits at `\r\n` and writes `\r\n` after each chunk, with
    /// no bound on the length of a chunk.
    fn default() -> (c: RPCDelimiterCodec)
        ensures
            c@ == (CodecView {
                next_index: 0,
                max_length: usize::MAX,
                is_discarding: false,
                seek_delimiters: seq![13u8, 10u8],
                sequence_writer: seq![13u8, 10u8],
            }),
    {
        let c = Self::new(vec![13u8, 10u8], vec![13u8, 10u8]);
        assert(c@.seek_delimiters =~= seq![13u8, 10u8]);
        c
    }
}

} // verus!
