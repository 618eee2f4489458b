//! Field lines.
use vstd::prelude::*;
use crate::buf::{same_bytes, to_vec};

verus! {

/// The size that each dynamic table entry has beside its name and value.
pub const ENTRY_OVERHEAD: usize = 32;

/// A name, a value, and whether the value must never enter a table.
#[derive(Debug, PartialEq, Eq)]
pub struct HeaderField {
    pub name: Vec<u8>,
    pub value: Vec<u8>,
    pub sensitive: bool,
}

/// What a field line says.
#[verifier::ext_equal]
pub struct FieldView {
    pub name: Seq<u8>,
    pub value: Seq<u8>,
    pub sensitive: bool,
}

impl FieldView {
    /// The same name and value, not marked.
    pub open spec fn plain(self) -> FieldView {
        FieldView { name: self.name, value: self.value, sensitive: false }
    }

    /// The size of the field line as a table entry.
    pub open spec fn size(self) -> int {
        self.name.len() + self.value.len() + ENTRY_OVERHEAD
    }
}

/// A field line that is not marked.
pub open spec fn field_view(name: Seq<u8>, value: Seq<u8>) -> FieldView {
    FieldView { name, value, sensitive: false }
}

impl View for HeaderField {
    type V = FieldView;

    open spec fn view(&self) -> FieldView {
        FieldView { name: self.name@, value: self.value@, sensitive: self.sensitive }
    }
}

impl Clone for HeaderField {
    fn clone(&self) -> (copy: Self)
        ensures
            copy@ == self@,
    {
        HeaderField {
            name: to_vec(self.name.as_slice()),
            value: to_vec(self.value.as_slice()),
            sensitive: self.sensitive,
        }
    }
}

impl HeaderField {
    pub fn new(name: &[u8], value: &[u8]) -> (field: Self)
        ensures
            field@ == field_view(name@, value@),
    {
        HeaderField { name: to_vec(name), value: to_vec(value), sensitive: false }
    }

    /// The same name with another value, marked as this one is.
    pub fn with_value(&self, value: &[u8]) -> (field: Self)
        ensures
            field@ == (FieldView { name: self@.name, value: value@, sensitive: self@.sensitive }),
    {
        HeaderField {
            name: to_vec(self.name.as_slice()),
            value: to_vec(value),
            sensitive: self.sensitive,
        }
    }

    /// The same name and value, marked or not.
    pub fn with_sensitive(self, sensitive: bool) -> (field: Self)
        ensures
            field@ == (FieldView { name: self@.name, value: self@.value, sensitive }),
    {
        HeaderField { name: self.name, value: self.value, sensitive }
    }

    pub fn is_sensitive(&self) -> (sensitive: bool)
        ensures
            sensitive == self@.sensitive,
    {
        self.sensitive
    }

    /// The size of the field line as a table entry.
    ///
    /// See <https://www.rfc-editor.org/rfc/rfc9204.html#section-3.2.1>.
    pub fn mem_size(&self) -> (size: usize)
        requires
            self@.size() <= usize::MAX,
        ensures
            size == self@.size(),
    {
        self.name.len() + self.value.len() + ENTRY_OVERHEAD
    }

    /// The size of the field line as a table entry, where it is a number at all.
    pub fn checked_mem_size(&self) -> (size: Option<usize>)
        ensures
            size == if self@.size() <= usize::MAX {
                Some(self@.size() as usize)
            } else {
                None::<usize>
            },
    {
        match self.name.len().checked_add(self.value.len()) {
            Some(size) => size.checked_add(ENTRY_OVERHEAD),
            None => None,
        }
    }

    /// Whether name and value are the same.
    pub fn same_line(&self, other: &Self) -> (same: bool)
        ensures
            same == (self@.name == other@.name && self@.value == other@.value),
    {
        same_bytes(self.name.as_slice(), other.name.as_slice()) && same_bytes(
            self.value.as_slice(),
            other.value.as_slice(),
        )
    }

    pub fn into_inner(self) -> (parts: (Vec<u8>, Vec<u8>))
        ensures
            parts.0@ == self@.name,
            parts.1@ == self@.value,
    {
        (self.name, self.value)
    }
}

} // verus!
