//! Maps QPACK's growing insertion sequence onto positions in the retained
//! dynamic table window.
//!
//! Insertion numbers start at one, because Required Insert Count and Base are
//! counts: insertion number N has the absolute index N - 1. Relative and
//! post-base indices, and the positions in the window, start at zero.
//!
//! For example, after 21 insertions and 15 evictions, insertion numbers 16
//! through 21 occupy positions 0 through 5. Relative index 0 selects insertion
//! 21. With Base 17, relative index 0 selects insertion 17 and post-base index 0
//! selects insertion 18.
//!
//! See <https://www.rfc-editor.org/rfc/rfc9204.html#section-3.2.4>.
use vstd::prelude::*;

verus! {

pub type RelativeIndex = usize;

/// One-based insertion number, equal to the absolute index plus one.
pub type AbsoluteIndex = usize;

#[derive(Debug, Clone, Copy, PartialEq, Eq, Structural)]
pub enum Error {
    RelativeIndex(usize),
    PostbaseIndex(usize),
    Index(usize),
    AddressSpaceOverflow,
}

/// The window of insertions that are retained: those after the first `dropped`
/// of the `inserted` so far.
#[derive(Debug)]
pub struct VirtualAddressSpace {
    inserted: usize,
    dropped: usize,
    delta: usize,
}

impl Default for VirtualAddressSpace {
    fn default() -> (vas: Self)
        ensures
            vas.wf(),
            vas.inserted() == 0,
            vas.dropped() == 0,
    {
        VirtualAddressSpace { inserted: 0, dropped: 0, delta: 0 }
    }
}

impl VirtualAddressSpace {
    /// The counts agree.
    pub closed spec fn wf(&self) -> bool {
        self.dropped + self.delta == self.inserted
    }

    /// The number of insertions so far.
    pub closed spec fn inserted(&self) -> int {
        self.inserted as int
    }

    /// The number of insertions that are no longer retained.
    pub closed spec fn dropped(&self) -> int {
        self.dropped as int
    }

    /// Whether the insertion with this number is retained.
    pub open spec fn holds(&self, absolute: int) -> bool {
        self.dropped() < absolute <= self.inserted()
    }

    /// The position in the window of a retained insertion.
    pub open spec fn position(&self, absolute: int) -> int {
        absolute - self.dropped() - 1
    }

    /// Where the insertion is that is `index` before the latest.
    pub open spec fn relative_spec(&self, index: usize) -> Result<usize, Error> {
        if self.holds(self.inserted() - index) {
            Ok(self.position(self.inserted() - index) as usize)
        } else {
            Err(Error::RelativeIndex(index))
        }
    }

    /// Where the insertion is that is `index` before number `base`.
    pub open spec fn relative_base_spec(&self, base: usize, index: usize) -> Result<usize, Error> {
        if self.dropped() < self.inserted() && self.dropped() < base - index {
            Ok(self.position(base - index) as usize)
        } else {
            Err(Error::RelativeIndex(index))
        }
    }

    /// Where the insertion is that is `index` after number `base` plus one.
    pub open spec fn post_base_spec(&self, base: usize, index: usize) -> Result<usize, Error> {
        if self.holds(base + index + 1) {
            Ok(self.position(base + index + 1) as usize)
        } else {
            Err(Error::PostbaseIndex(index))
        }
    }

    /// The number of the insertion at a position.
    pub open spec fn index_spec(&self, index: usize) -> Result<usize, Error> {
        if index < self.inserted() - self.dropped() {
            Ok((index + self.dropped() + 1) as usize)
        } else {
            Err(Error::Index(index))
        }
    }

    pub proof fn lemma_bounds(&self)
        requires
            self.wf(),
        ensures
            0 <= self.dropped() <= self.inserted() <= usize::MAX,
    {
    }

    /// An empty window after `inserted` insertions.
    pub fn with_insert_count(inserted: usize) -> (vas: Self)
        ensures
            vas.wf(),
            vas.inserted() == inserted,
            vas.dropped() == inserted,
    {
        VirtualAddressSpace { inserted, dropped: inserted, delta: 0 }
    }

    /// Whether one more insertion can be numbered.
    pub fn ensure_can_add(&self) -> (result: Result<(), Error>)
        ensures
            result == if self.inserted() < usize::MAX {
                Ok::<(), Error>(())
            } else {
                Err(Error::AddressSpaceOverflow)
            },
    {
        if self.inserted < usize::MAX {
            Ok(())
        } else {
            Err(Error::AddressSpaceOverflow)
        }
    }

    /// Counts an insertion, and returns its number.
    pub fn add(&mut self) -> (absolute: AbsoluteIndex)
        requires
            old(self).wf(),
            old(self).inserted() < usize::MAX,
        ensures
            final(self).wf(),
            absolute == old(self).inserted() + 1,
            final(self).inserted() == old(self).inserted() + 1,
            final(self).dropped() == old(self).dropped(),
    {
        *self = VirtualAddressSpace {
            inserted: self.inserted + 1,
            dropped: self.dropped,
            delta: self.delta + 1,
        };
        self.inserted
    }

    /// Counts the oldest retained insertion as dropped.
    pub fn drop(&mut self)
        requires
            old(self).wf(),
            old(self).dropped() < old(self).inserted(),
        ensures
            final(self).wf(),
            final(self).inserted() == old(self).inserted(),
            final(self).dropped() == old(self).dropped() + 1,
    {
        *self = VirtualAddressSpace {
            inserted: self.inserted,
            dropped: self.dropped + 1,
            delta: self.delta - 1,
        };
    }

    /// The position of the insertion that is `index` before the latest.
    pub fn relative(&self, index: RelativeIndex) -> (position: Result<usize, Error>)
        requires
            self.wf(),
        ensures
            position == self.relative_spec(index),
    {
        if self.inserted < index || self.delta == 0 || self.inserted - index <= self.dropped {
            Err(Error::RelativeIndex(index))
        } else {
            Ok(self.inserted - self.dropped - index - 1)
        }
    }

    /// Whether the insertion with this number was made and is no longer retained.
    pub fn evicted(&self, index: AbsoluteIndex) -> (evicted: bool)
        ensures
            evicted == (0 < index <= self.dropped()),
    {
        index != 0 && index <= self.dropped
    }

    /// The position of the insertion that is `index` before number `base`.
    ///
    /// Where the window is not empty, `base` may lie beyond the latest insertion.
    pub fn relative_base(&self, base: usize, index: RelativeIndex) -> (position: Result<
        usize,
        Error,
    >)
        requires
            self.wf(),
        ensures
            position == self.relative_base_spec(base, index),
    {
        if self.delta == 0 || index > base || base - index <= self.dropped {
            Err(Error::RelativeIndex(index))
        } else {
            Ok(base - self.dropped - index - 1)
        }
    }

    /// The position of the insertion that is `index` after number `base` plus one.
    pub fn post_base(&self, base: usize, index: RelativeIndex) -> (position: Result<usize, Error>)
        requires
            self.wf(),
            self.dropped() < self.inserted() ==> base + index <= usize::MAX,
        ensures
            position == self.post_base_spec(base, index),
    {
        if self.delta == 0 || base + index >= self.inserted || base + index < self.dropped {
            Err(Error::PostbaseIndex(index))
        } else {
            Ok(base + index - self.dropped)
        }
    }

    /// The number of the insertion at a position.
    pub fn index(&self, index: usize) -> (absolute: Result<usize, Error>)
        requires
            self.wf(),
        ensures
            absolute == self.index_spec(index),
    {
        if index >= self.delta {
            Err(Error::Index(index))
        } else {
            Ok(index + self.dropped + 1)
        }
    }

    /// The number of insertions that are retained.
    pub fn largest_ref(&self) -> (n: usize)
        requires
            self.wf(),
        ensures
            n == self.inserted() - self.dropped(),
    {
        self.inserted - self.dropped
    }

    pub fn total_inserted(&self) -> (n: usize)
        ensures
            n == self.inserted(),
    {
        self.inserted
    }
}

/// A retained insertion is found at one position, however it is named: by its distance from
/// the latest, by its distance from a base at or after it, or by its distance from a base
/// before it. Its number is found again from that position.
pub proof fn indexes_agree(vas: VirtualAddressSpace, absolute: usize, base: usize)
    requires
        vas.wf(),
        vas.holds(absolute as int),
    ensures
        ({
            let position = vas.position(absolute as int) as usize;
            &&& vas.relative_spec((vas.inserted() - absolute) as usize) == Ok::<usize, Error>(
                position,
            )
            &&& absolute <= base ==> vas.relative_base_spec(base, (base - absolute) as usize)
                == Ok::<usize, Error>(position)
            &&& base < absolute ==> vas.post_base_spec(base, (absolute - base - 1) as usize)
                == Ok::<usize, Error>(position)
            &&& vas.index_spec(position) == Ok::<usize, Error>(absolute)
        }),
{
    vas.lemma_bounds();
}

} // verus!
