//! The logic of HTTP/3: field compression, frames, header sections, and what a connection and
//! its requests decide.
//!
//! Nothing here reads from or writes to a network. See
//! <https://www.rfc-editor.org/rfc/rfc9114.html> and
//! <https://www.rfc-editor.org/rfc/rfc9204.html>.
use vstd::prelude::*;

pub mod agreement;
pub mod arrivals;
pub mod buf;
pub mod buf_list;
pub mod client;
pub mod config;
pub mod connection;
pub mod critical;
pub mod delivery;
pub mod encode_buffer;
pub mod error;
pub mod exchange;
pub mod ext;
pub mod failures;
pub mod frame;
pub mod guard;
pub mod proto;
pub mod qpack;
pub mod qpack_streams;
pub mod quic;
pub mod recv_control;
pub mod request;
pub mod request_stream;
pub mod send_order;
pub mod shared_state;
pub mod stream;
