//! The buffer in which field sections of requests are encoded.
use bytes::BytesMut;
use vstd::prelude::*;

verus! {

/// Storage up to this size is kept for the next request; a single large field section does
/// not pin its memory.
pub const MAX_RETAINED_QPACK_ENCODE_CAPACITY: usize = 4096;

#[verifier::external_type_specification]
#[verifier::external_body]
pub struct ExBytesMut(bytes::BytesMut);

/// The bytes that a buffer holds.
pub uninterp spec fn buffered(buffer: BytesMut) -> Seq<u8>;

/// `BytesMut::new` makes a buffer that holds nothing.
#[verifier::external_body]
pub(crate) fn new_buffer() -> (buffer: BytesMut)
    ensures
        buffered(buffer) == Seq::<u8>::empty(),
{
    BytesMut::new()
}

/// `BytesMut::capacity` tells how many bytes the buffer has room for. Nothing is said of the
/// number.
#[verifier::external_body]
fn capacity(buffer: &BytesMut) -> usize {
    buffer.capacity()
}

/// `BytesMut::clear` lets go of the bytes and keeps the storage.
#[verifier::external_body]
fn clear(buffer: &mut BytesMut)
    ensures
        buffered(*final(buffer)) == Seq::<u8>::empty(),
{
    buffer.clear();
}

/// `BytesMut::is_empty` tells whether the buffer holds nothing.
#[verifier::external_body]
pub(crate) fn is_empty(buffer: &BytesMut) -> (empty: bool)
    ensures
        empty == (buffered(*buffer).len() == 0),
{
    buffer.is_empty()
}

/// `BytesMut::split` takes the bytes out and leaves the buffer with none.
#[verifier::external_body]
pub(crate) fn split(buffer: &mut BytesMut) -> (bytes: Vec<u8>)
    ensures
        bytes@ == buffered(*old(buffer)),
        buffered(*final(buffer)) == Seq::<u8>::empty(),
{
    Vec::from(buffer.split().freeze())
}

/// `BytesMut::extend_from_slice` appends bytes. It panics where there would be more bytes than
/// memory can hold, which bytes that are there already cannot be.
#[verifier::external_body]
pub(crate) fn fill(buffer: &mut BytesMut, bytes: &[u8])
    requires
        buffered(*old(buffer)).len() == 0,
    ensures
        buffered(*final(buffer)) == bytes@,
{
    buffer.extend_from_slice(bytes);
}

/// Lets go of what the buffer holds, and of storage that is too large to keep.
pub fn clear_qpack_encode_buffer(buffer: &mut BytesMut)
    ensures
        buffered(*final(buffer)) == Seq::<u8>::empty(),
{
    if capacity(buffer) > MAX_RETAINED_QPACK_ENCODE_CAPACITY {
        *buffer = new_buffer();
    } else {
        clear(buffer);
    }
}

/// Takes what the buffer holds; storage that is too large to keep goes with it.
pub fn take_qpack_encode_buffer(buffer: &mut BytesMut) -> (bytes: Vec<u8>)
    ensures
        bytes@ == buffered(*old(buffer)),
        buffered(*final(buffer)) == Seq::<u8>::empty(),
{
    if capacity(buffer) > MAX_RETAINED_QPACK_ENCODE_CAPACITY {
        let mut taken = new_buffer();
        std::mem::swap(buffer, &mut taken);
        split(&mut taken)
    } else {
        split(buffer)
    }
}

} // verus!
