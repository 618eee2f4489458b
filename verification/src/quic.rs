//! Identifiers of the transport.
use vstd::prelude::*;

verus! {

/// The largest integer that a variable-length integer can hold.
pub const MAX_VARINT: u64 = 0x3fff_ffff_ffff_ffff;

/// The identifier of a stream, below two to the 62nd.
#[derive(Debug, Clone, Copy, PartialEq, Eq, Structural)]
pub struct StreamId(pub u64);

impl StreamId {
    /// The stream with this number, where it can be one.
    ///
    /// See <https://www.rfc-editor.org/rfc/rfc9000.html#section-2.1>.
    pub fn checked(value: u64) -> (id: Option<StreamId>)
        ensures
            id == if value <= MAX_VARINT {
                Some(StreamId(value))
            } else {
                None::<StreamId>
            },
    {
        if value <= MAX_VARINT {
            Some(StreamId(value))
        } else {
            None
        }
    }

    pub fn into_inner(self) -> (value: u64)
        ensures
            value == self.0,
    {
        self.0
    }

    /// Whether a client opens this stream for a request.
    ///
    /// See <https://www.rfc-editor.org/rfc/rfc9000.html#section-2.1>.
    pub fn is_request(&self) -> (request: bool)
        ensures
            request == (self.0 % 4 == 0),
    {
        self.0 % 4 == 0
    }
}

} // verus!
