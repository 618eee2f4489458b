# http3

The decisions of an HTTP/3 endpoint: frames, header sections, field compression with QPACK,
and what a connection and its requests make of what the peer and the transport do. The library
is written in Verus; every function states what it returns or changes, and is proved to do so.

- `src/qpack/`: field compression. Prefixed integers, strings and the Huffman code, field
  lines and instructions, the static and the dynamic table, the encoder and the decoder, and
  what is shared between the requests of a connection. `laws.rs`, `pieces.rs`,
  `references.rs`, `sections.rs`, `blocking.rs` and `static_lines.rs` hold what spans several
  of these.
- `src/proto/`: variable-length integers, frames, and the header sections of messages.
- `src/frame.rs`, `src/buf_list.rs`: frames out of a stream of bytes.
- `src/connection.rs`, `src/qpack_streams.rs`, `src/critical.rs`, `src/stream.rs`,
  `src/shared_state.rs`: the streams of a connection and its state.
- `src/client.rs`, `src/request.rs`, `src/request_stream.rs`, `src/send_order.rs`,
  `src/guard.rs`, `src/recv_control.rs`: requests.
- `app/`: a client around the library. It talks to a QUIC transport through traits, holds
  locks and channels, and wakes tasks.

The library does no input or output. Where a step needs the transport, it says so, and the
caller does what is asked and takes the step again with what came of it.
