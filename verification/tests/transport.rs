use bytes::Bytes;
use jsonrpc_socket_client::client::codec::RPCDelimiterCodecError;
use jsonrpc_socket_client::client::transport::{connect_error, received_message, SocketErr};

#[test]
fn received_frame_becomes_message_bytes() {
    let r = received_message(Some(Ok(Bytes::from_static(b"{\"result\":1}"))));
    assert_eq!(r.unwrap(), b"{\"result\":1}".to_vec());
}

#[test]
fn decoding_error_becomes_receive_error() {
    let r = received_message(Some(Err(RPCDelimiterCodecError::MaxChunkLengthExceeded)));
    assert!(matches!(
        r,
        Err(SocketErr::ReceiveError(RPCDelimiterCodecError::MaxChunkLengthExceeded))
    ));
}

#[test]
fn end_of_stream_means_sender_disconnected() {
    assert!(matches!(received_message(None), Err(SocketErr::SenderDisconnected)));
}

#[test]
fn failed_connect_is_reported_as_cannot_connect() {
    assert!(matches!(connect_error(), SocketErr::CannotConnect));
}
