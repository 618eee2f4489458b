//! Field compression.
//!
//! See <https://www.rfc-editor.org/rfc/rfc9204.html>.
use vstd::prelude::*;

pub mod answers;
pub mod block;
pub mod blocking;
pub mod decoder;
pub mod dynamic;
pub mod economy;
pub mod encoder;
pub mod field;
pub mod laws;
pub mod lookup;
pub mod parse_error;
pub mod pieces;
pub mod prefix_int;
pub mod prefix_string;
pub mod references;
pub mod sections;
pub mod shared;
pub mod static_;
pub mod static_lines;
pub mod stream;
pub mod vas;
pub mod wire;

pub use self::decoder::{ack_header, stream_canceled, Decoded, Decoder, DecoderError};
pub use self::encoder::{encode_stateless, Encoder, EncoderError};
pub use self::field::HeaderField;

verus! {

/// What can go wrong with field compression.
#[derive(Debug, Clone, Copy, PartialEq, Eq)]
pub enum Error {
    Encoder(EncoderError),
    Decoder(DecoderError),
}

} // verus!
