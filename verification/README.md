# jsonrpc_socket_client

A JSON-RPC client transport over a plain TCP socket. Messages travel as byte
frames separated by a delimiter (`\r\n` by default).

- `src/client/frame.rs`: the model of delimiter framing (where a delimiter
  occurs, and what one decoder call does to the codec's state and buffer).
- `src/client/codec.rs`: the verified codec (`decode`, `decode_eof`, `encode`).
- `src/client/laws.rs`: properties of the codec proved over the model.
- `src/client/buf.rs`: the trusted contracts of the `bytes` buffers it uses.
- `src/client/transport.rs`, `src/client/builder.rs`: the transport's
  decisions and the client settings.
- `app/`: the command-line client, the `tokio_util` codec traits, the socket
  halves and the `jsonrpsee` client set-up.
