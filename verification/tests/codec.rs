use bytes::{BufMut, BytesMut};
use jsonrpc_socket_client::client::codec::{RPCDelimiterCodec, RPCDelimiterCodecError};

fn buffer(bytes: &[u8]) -> BytesMut {
    BytesMut::from(bytes)
}

#[test]
fn default_codec_splits_at_crlf() {
    let mut codec = RPCDelimiterCodec::default();
    let mut buf = buffer(b"abc\r\ndef");
    let frame = codec.decode(&mut buf).unwrap().unwrap();
    assert_eq!(&frame[..], b"abc");
    // the first byte of the delimiter is dropped with the frame
    assert_eq!(&buf[..], b"\ndef");
}

#[test]
fn decode_without_delimiter_waits_for_more() {
    let mut codec = RPCDelimiterCodec::default();
    let mut buf = buffer(b"abc");
    assert!(codec.decode(&mut buf).unwrap().is_none());
    assert_eq!(&buf[..], b"abc");
}

#[test]
fn decode_on_empty_buffer_waits() {
    let mut codec = RPCDelimiterCodec::default();
    let mut buf = BytesMut::new();
    assert!(codec.can_decode(&buf));
    assert!(codec.decode(&mut buf).unwrap().is_none());
    assert!(buf.is_empty());
}

#[test]
fn delimiter_split_across_reads_is_found() {
    let mut codec = RPCDelimiterCodec::default();
    let mut buf = buffer(b"abc\r");
    assert!(codec.decode(&mut buf).unwrap().is_none());
    buf.put_slice(b"\nxyz");
    assert!(codec.can_decode(&buf));
    let frame = codec.decode(&mut buf).unwrap().unwrap();
    assert_eq!(&frame[..], b"abc");
    assert_eq!(&buf[..], b"\nxyz");
}

#[test]
fn split_reads_decode_like_one_read() {
    let whole = b"{\"id\":1}\r\n{\"id\":2}\r\n";
    for cut in 0..whole.len() {
        let mut codec = RPCDelimiterCodec::default();
        let mut buf = buffer(&whole[..cut]);
        let mut frames = Vec::new();
        while let Some(f) = codec.decode(&mut buf).unwrap() {
            frames.push(f.to_vec());
        }
        buf.put_slice(&whole[cut..]);
        while let Some(f) = codec.decode(&mut buf).unwrap() {
            frames.push(f.to_vec());
        }
        assert_eq!(frames, vec![b"{\"id\":1}".to_vec(), b"\n{\"id\":2}".to_vec()]);
        assert_eq!(&buf[..], b"\n");
    }
}

#[test]
fn consecutive_frames_keep_the_rest_of_the_delimiter() {
    let mut codec = RPCDelimiterCodec::default();
    let mut buf = buffer(b"a\r\nb\r\n");
    assert_eq!(&codec.decode(&mut buf).unwrap().unwrap()[..], b"a");
    assert_eq!(&codec.decode(&mut buf).unwrap().unwrap()[..], b"\nb");
    assert_eq!(&buf[..], b"\n");
    assert!(codec.decode(&mut buf).unwrap().is_none());
}

#[test]
fn single_byte_delimiter_is_dropped_whole() {
    let mut codec = RPCDelimiterCodec::new(vec![b'}'], vec![b'}']);
    let mut buf = buffer(b"{a}{b}");
    assert_eq!(&codec.decode(&mut buf).unwrap().unwrap()[..], b"{a");
    assert_eq!(&codec.decode(&mut buf).unwrap().unwrap()[..], b"{b");
    assert!(buf.is_empty());
}

#[test]
fn encode_appends_chunk_and_terminator() {
    let mut codec = RPCDelimiterCodec::default();
    let mut buf = buffer(b"x");
    codec.encode("hello", &mut buf).unwrap();
    assert_eq!(&buf[..], b"xhello\r\n");
}

#[test]
fn encode_uses_the_sequence_writer() {
    let mut codec = RPCDelimiterCodec::new(vec![b'\n'], vec![b';', b'\n']);
    let mut buf = BytesMut::new();
    codec.encode("{}", &mut buf).unwrap();
    assert_eq!(&buf[..], b"{};\n");
}

#[test]
fn encode_then_decode_gives_the_chunk_back() {
    let mut codec = RPCDelimiterCodec::default();
    let mut buf = BytesMut::new();
    codec.encode("{\"jsonrpc\":\"2.0\"}", &mut buf).unwrap();
    let frame = codec.decode(&mut buf).unwrap().unwrap();
    assert_eq!(&frame[..], b"{\"jsonrpc\":\"2.0\"}");
    assert_eq!(&buf[..], b"\n");
}

#[test]
fn too_long_chunk_is_reported_then_discarded() {
    let mut codec = RPCDelimiterCodec::new_with_max_length(b"\r\n".to_vec(), b"\r\n".to_vec(), 4);
    let mut buf = buffer(b"abcdefgh");
    match codec.decode(&mut buf) {
        Err(RPCDelimiterCodecError::MaxChunkLengthExceeded) => {}
        other => panic!("unexpected result {:?}", other),
    }
    assert_eq!(&buf[..], b"abcdefgh");
    buf.put_slice(b"\r\nok\r\n");
    let frame = codec.decode(&mut buf).unwrap().unwrap();
    assert_eq!(&frame[..], b"\nok");
    assert_eq!(&buf[..], b"\n");
}

#[test]
fn discarding_without_delimiter_empties_the_buffer() {
    let mut codec = RPCDelimiterCodec::new_with_max_length(b"\r\n".to_vec(), b"\r\n".to_vec(), 2);
    let mut buf = buffer(b"abcdef");
    assert!(codec.decode(&mut buf).is_err());
    assert!(codec.decode(&mut buf).unwrap().is_none());
    assert!(buf.is_empty());
}

#[test]
fn frame_within_max_length_passes() {
    let mut codec = RPCDelimiterCodec::new_with_max_length(b"\r\n".to_vec(), b"\r\n".to_vec(), 5);
    let mut buf = buffer(b"abcd\r\n");
    assert_eq!(&codec.decode(&mut buf).unwrap().unwrap()[..], b"abcd");
}

#[test]
fn delimiter_must_fit_in_the_length_bound() {
    let mut codec = RPCDelimiterCodec::new_with_max_length(b"\r\n".to_vec(), b"\r\n".to_vec(), 4);
    let mut buf = buffer(b"abcd\r\n");
    assert!(matches!(
        codec.decode(&mut buf),
        Err(RPCDelimiterCodecError::MaxChunkLengthExceeded)
    ));
}

#[test]
fn decode_eof_returns_the_rest() {
    let mut codec = RPCDelimiterCodec::default();
    let mut buf = buffer(b"abc");
    assert_eq!(&codec.decode_eof(&mut buf).unwrap().unwrap()[..], b"abc");
    assert!(buf.is_empty());
    assert!(codec.decode_eof(&mut buf).unwrap().is_none());
}

#[test]
fn decode_eof_prefers_a_complete_frame() {
    let mut codec = RPCDelimiterCodec::default();
    let mut buf = buffer(b"a\r\nb");
    assert_eq!(&codec.decode_eof(&mut buf).unwrap().unwrap()[..], b"a");
    assert_eq!(&codec.decode_eof(&mut buf).unwrap().unwrap()[..], b"\nb");
    assert!(buf.is_empty());
}

#[test]
fn empty_delimiter_cannot_decode() {
    let codec = RPCDelimiterCodec::new(Vec::new(), b"\r\n".to_vec());
    assert!(!codec.can_decode(&buffer(b"abc")));
}

#[test]
fn stale_search_position_cannot_decode() {
    let mut codec = RPCDelimiterCodec::default();
    let mut buf = buffer(b"abcdef");
    assert!(codec.decode(&mut buf).unwrap().is_none());
    assert!(!codec.can_decode(&buffer(b"ab")));
    assert!(codec.can_decode(&buf));
}

#[test]
fn codec_error_messages() {
    assert_eq!(
        RPCDelimiterCodecError::MaxChunkLengthExceeded.message(),
        "max chunk length exceeded"
    );
    let io = std::io::Error::new(std::io::ErrorKind::Other, "socket closed");
    let err = RPCDelimiterCodecError::from(io);
    assert!(matches!(err, RPCDelimiterCodecError::Io(_)));
    assert_eq!(err.message(), "socket closed");
}

#[test]
fn unbounded_codec_returns_a_long_chunk_whole() {
    let mut codec = RPCDelimiterCodec::new(b"\r\n".to_vec(), b"\r\n".to_vec());
    let mut buf = BytesMut::new();
    let piece = [b'a'; 1000];
    for _ in 0..200 {
        buf.put_slice(&piece);
        assert!(codec.decode(&mut buf).unwrap().is_none());
    }
    buf.put_slice(b"\r\n");
    let frame = codec.decode(&mut buf).unwrap().unwrap();
    assert_eq!(frame.len(), 200_000);
    assert!(frame.iter().all(|b| *b == b'a'));
    assert_eq!(&buf[..], b"\n");
}

#[test]
fn repeated_decode_eof_drains_the_buffer() {
    let mut codec = RPCDelimiterCodec::default();
    let mut buf = buffer(b"a\r\nb\r\nc");
    let len = buf.len();
    let mut frames = Vec::new();
    let mut calls = 0;
    loop {
        calls += 1;
        let before = buf.len();
        match codec.decode_eof(&mut buf).unwrap() {
            Some(frame) => {
                assert!(buf.len() < before);
                frames.push(frame.to_vec());
            }
            None => break,
        }
    }
    assert!(buf.is_empty());
    assert!(calls <= len + 1);
    assert_eq!(frames, vec![b"a".to_vec(), b"\nb".to_vec(), b"\nc".to_vec()]);
}

#[test]
fn chunk_ending_in_carriage_return_round_trips() {
    let mut codec = RPCDelimiterCodec::default();
    let mut buf = BytesMut::new();
    codec.encode("x\r", &mut buf).unwrap();
    assert_eq!(&codec.decode(&mut buf).unwrap().unwrap()[..], b"x\r");
    assert_eq!(&buf[..], b"\n");
}
