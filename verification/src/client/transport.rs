//! The decisions of the socket transport: what a received frame becomes, and
//! which error stands for a failure. The socket and its async plumbing are
//! outside the library.

use bytes::Bytes;
use vstd::prelude::*;

use super::buf::{bytes_to_vec, bytes_view};
use super::codec::RPCDelimiterCodecError;

verus! {

/// Errors of the socket transport.
#[derive(Debug)]
pub enum SocketErr {
    /// Sender went away
    SenderDisconnected,
    /// Could not connect to socket endpoint
    CannotConnect,
    /// Sending a frame failed.
    SendError(RPCDelimiterCodecError),
    /// Receiving a frame failed.
    ReceiveError(RPCDelimiterCodecError),
}

/// What the receiving half reports for the next item of the framed stream:
/// a frame becomes the message's bytes, a decoding error a `ReceiveError`,
/// and the end of the stream `SenderDisconnected`.
pub fn received_message(next: Option<Result<Bytes, RPCDelimiterCodecError>>) -> (r: Result<
    Vec<u8>,
    SocketErr,
>)
    ensures
        match next {
            Some(Ok(msg)) => r matches Ok(bytes) && bytes@ == bytes_view(msg),
            Some(Err(err)) => r == Err::<Vec<u8>, SocketErr>(SocketErr::ReceiveError(err)),
            None => r == Err::<Vec<u8>, SocketErr>(SocketErr::SenderDisconnected),
        },
{
    match next {
        Some(Ok(msg)) => Ok(bytes_to_vec(&msg)),
        Some(Err(err)) => Err(SocketErr::ReceiveError(err)),
        None => Err(SocketErr::SenderDisconnected),
    }
}

/// The error reported when the connection to the endpoint cannot be opened,
/// whatever the IO error was: `CannotConnect`.
pub fn connect_error() -> (e: SocketErr)
    ensures
        e == SocketErr::CannotConnect,
{
    SocketErr::CannotConnect
}

} // verus!
