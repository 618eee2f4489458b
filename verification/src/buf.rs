//! Sequential access to received bytes.
use vstd::prelude::*;

verus! {

/// A cursor over bytes that have been received and not yet consumed.
///
/// Its view is the sequence of bytes that remain.
pub struct Reader<'a> {
    rest: &'a [u8],
}

impl<'a> View for Reader<'a> {
    type V = Seq<u8>;

    closed spec fn view(&self) -> Seq<u8> {
        self.rest@
    }
}

impl<'a> Reader<'a> {
    /// Starts reading at the first byte of `data`.
    pub fn new(data: &'a [u8]) -> (reader: Self)
        ensures
            reader@ == data@,
    {
        Reader { rest: data }
    }

    /// Another cursor at the same place.
    pub fn fork(&self) -> (reader: Self)
        ensures
            reader@ == self@,
    {
        Reader { rest: self.rest }
    }

    /// The number of bytes that remain.
    pub fn remaining(&self) -> (n: usize)
        ensures
            n == self@.len(),
    {
        self.rest.len()
    }

    pub fn has_remaining(&self) -> (more: bool)
        ensures
            more == (self@.len() > 0),
    {
        self.rest.len() > 0
    }

    /// The bytes that remain.
    pub fn chunk(&self) -> (bytes: &'a [u8])
        ensures
            bytes@ == self@,
    {
        self.rest
    }

    /// The next byte, left where it is.
    pub fn peek(&self) -> (byte: Option<u8>)
        ensures
            self@.len() == 0 ==> byte is None,
            self@.len() > 0 ==> byte == Some(self@[0]),
    {
        if self.rest.len() == 0 {
            None
        } else {
            Some(self.rest[0])
        }
    }

    /// Takes the next byte.
    pub fn get_u8(&mut self) -> (byte: Option<u8>)
        ensures
            old(self)@.len() == 0 ==> byte is None && final(self)@ == old(self)@,
            old(self)@.len() > 0 ==> byte == Some(old(self)@[0]) && final(self)@ == old(self)@.skip(1),
    {
        if self.rest.len() == 0 {
            None
        } else {
            let byte = self.rest[0];
            self.advance(1);
            Some(byte)
        }
    }

    /// Passes over the next `n` bytes.
    pub fn advance(&mut self, n: usize)
        requires
            n <= old(self)@.len(),
        ensures
            final(self)@ == old(self)@.skip(n as int),
    {
        let len: usize = self.rest.len();
        self.rest = vstd::slice::slice_subrange(self.rest, n, len);
    }

    /// Takes the next `n` bytes.
    pub fn take(&mut self, n: usize) -> (bytes: &'a [u8])
        requires
            n <= old(self)@.len(),
        ensures
            bytes@ == old(self)@.take(n as int),
            final(self)@ == old(self)@.skip(n as int),
    {
        let bytes = vstd::slice::slice_subrange(self.rest, 0, n);
        self.advance(n);
        bytes
    }
}

/// A result with the view of its value.
pub open spec fn view_ok<T: View, E>(result: Result<T, E>) -> Result<T::V, E> {
    match result {
        Ok(value) => Ok(value@),
        Err(error) => Err(error),
    }
}

/// A result with the view of the value that it refers to.
pub open spec fn view_ref<T: View, E>(result: Result<&T, E>) -> Result<T::V, E> {
    match result {
        Ok(value) => Ok((*value)@),
        Err(error) => Err(error),
    }
}

/// Appends `bytes` to `out`.
pub fn put_slice(out: &mut Vec<u8>, bytes: &[u8])
    ensures
        final(out)@ == old(out)@ + bytes@,
{
    let mut i: usize = 0;
    while i < bytes.len()
        invariant
            i <= bytes@.len(),
            out@ == old(out)@ + bytes@.take(i as int),
        decreases bytes@.len() - i,
    {
        out.push(bytes[i]);
        i = i + 1;
        assert(bytes@.take(i as int) == bytes@.take(i - 1).push(bytes@[i - 1]));
    }
    assert(bytes@.take(i as int) == bytes@);
}

/// An owned copy of `bytes`.
pub fn to_vec(bytes: &[u8]) -> (copy: Vec<u8>)
    ensures
        copy@ == bytes@,
{
    let mut copy: Vec<u8> = Vec::new();
    put_slice(&mut copy, bytes);
    copy
}

/// Whether two byte strings are the same.
pub fn same_bytes(a: &[u8], b: &[u8]) -> (same: bool)
    ensures
        same == (a@ == b@),
{
    if a.len() != b.len() {
        return false;
    }
    let mut i: usize = 0;
    while i < a.len()
        invariant
            i <= a@.len(),
            a@.len() == b@.len(),
            forall|j: int| 0 <= j < i ==> a@[j] == b@[j],
        decreases a@.len() - i,
    {
        if a[i] != b[i] {
            return false;
        }
        i = i + 1;
    }
    assert(a@ =~= b@);
    true
}

} // verus!
