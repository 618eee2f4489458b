//! Received bytes, kept in the chunks in which they came.
use std::collections::VecDeque;
use vstd::prelude::*;
use crate::buf::{put_slice, to_vec};

verus! {

/// A chunk, of which the first bytes have been taken.
pub struct Segment {
    bytes: Vec<u8>,
    start: usize,
}

impl View for Segment {
    type V = Seq<u8>;

    closed spec fn view(&self) -> Seq<u8> {
        self.bytes@.skip(self.start as int)
    }
}

impl Segment {
    pub closed spec fn wf(&self) -> bool {
        self.start <= self.bytes@.len()
    }

    fn new(bytes: Vec<u8>) -> (segment: Self)
        ensures
            segment.wf(),
            segment@ == bytes@,
    {
        Segment { bytes, start: 0 }
    }

    fn len(&self) -> (n: usize)
        requires
            self.wf(),
        ensures
            n == self@.len(),
    {
        self.bytes.len() - self.start
    }

    fn chunk(&self) -> (bytes: &[u8])
        requires
            self.wf(),
        ensures
            bytes@ == self@,
    {
        let bytes = vstd::slice::slice_subrange(self.bytes.as_slice(), self.start, self.bytes.len());
        assert(bytes@ =~= self@);
        bytes
    }

    /// The segment without its first `n` bytes.
    fn skip(self, n: usize) -> (segment: Self)
        requires
            self.wf(),
            n <= self@.len(),
        ensures
            segment.wf(),
            segment@ == self@.skip(n as int),
    {
        let start: usize = self.bytes.len() - (self.len() - n);
        Segment { bytes: self.bytes, start }
    }
}

/// What the bytes of chunks are together.
pub open spec fn joined(chunks: Seq<Seq<u8>>) -> Seq<u8>
    decreases chunks.len(),
{
    if chunks.len() == 0 {
        Seq::empty()
    } else {
        chunks[0] + joined(chunks.skip(1))
    }
}

/// Received chunks.
///
/// The view is the sequence of chunks, none of which is empty.
pub struct BufList {
    segments: VecDeque<Segment>,
}

impl View for BufList {
    type V = Seq<Seq<u8>>;

    closed spec fn view(&self) -> Seq<Seq<u8>> {
        self.segments@.map_values(|segment: Segment| segment@)
    }
}

impl BufList {
    pub closed spec fn wf(&self) -> bool {
        forall|i: int|
            0 <= i < self.segments@.len() ==> (#[trigger] self.segments@[i]).wf()
                && self.segments@[i]@.len() > 0
    }

    /// The bytes that are held.
    pub open spec fn bytes(&self) -> Seq<u8> {
        joined(self@)
    }

    pub fn new() -> (list: Self)
        ensures
            list.wf(),
            list@ == Seq::<Seq<u8>>::empty(),
            list.bytes() == Seq::<u8>::empty(),
    {
        let list = BufList { segments: VecDeque::new() };
        assert(list@ =~= Seq::<Seq<u8>>::empty());
        list
    }

    /// Appends a chunk; an empty one is dropped.
    pub fn push(&mut self, chunk: Vec<u8>)
        requires
            old(self).wf(),
        ensures
            final(self).wf(),
            final(self)@ == if chunk@.len() == 0 {
                old(self)@
            } else {
                old(self)@.push(chunk@)
            },
            final(self).bytes() == old(self).bytes() + chunk@,
    {
        if chunk.len() == 0 {
            assert(self.bytes() + chunk@ =~= self.bytes());
            return;
        }
        let ghost before = self@;
        let ghost data = chunk@;
        self.segments.push_back(Segment::new(chunk));
        proof {
            assert(self@ =~= before.push(data));
            lemma_joined_push(before, data);
        }
    }

    /// The number of bytes that are held, or the largest number where there are more.
    pub fn remaining(&self) -> (n: usize)
        requires
            self.wf(),
        ensures
            n == if self.bytes().len() <= usize::MAX {
                self.bytes().len() as int
            } else {
                usize::MAX as int
            },
    {
        let mut total: usize = 0;
        let mut i: usize = self.segments.len();
        assert(self@.skip(i as int) =~= Seq::<Seq<u8>>::empty());
        while i > 0
            invariant
                self.wf(),
                i <= self.segments@.len(),
                total == if joined(self@.skip(i as int)).len() <= usize::MAX {
                    joined(self@.skip(i as int)).len() as int
                } else {
                    usize::MAX as int
                },
            decreases i,
        {
            i = i - 1;
            assert(self@.skip(i as int).skip(1) =~= self@.skip(i + 1));
            assert(self@.skip(i as int)[0] == self.segments@[i as int]@);
            total = total.saturating_add(self.segments[i].len());
        }
        assert(self@.skip(0) =~= self@);
        total
    }

    pub fn has_remaining(&self) -> (more: bool)
        requires
            self.wf(),
        ensures
            more == (self.bytes().len() > 0),
            more == (self@.len() > 0),
    {
        proof {
            if self@.len() > 0 {
                assert(self@[0] == self.segments@[0]@);
            }
        }
        self.segments.len() > 0
    }

    /// The first chunk.
    pub fn chunk(&self) -> (bytes: &[u8])
        requires
            self.wf(),
        ensures
            bytes@ == if self@.len() == 0 {
                Seq::<u8>::empty()
            } else {
                self@[0]
            },
    {
        if self.segments.len() == 0 {
            let none: &[u8] = &[];
            assert(none@ =~= Seq::<u8>::empty());
            none
        } else {
            self.segments[0].chunk()
        }
    }

    /// Passes over the next `n` bytes.
    pub fn advance(&mut self, n: usize)
        requires
            old(self).wf(),
            n <= old(self).bytes().len(),
        ensures
            final(self).wf(),
            final(self).bytes() == old(self).bytes().skip(n as int),
            final(self)@ == skipped(old(self)@, n as nat),
    {
        let mut left: usize = n;
        let ghost goal = self.bytes().skip(n as int);
        let ghost chunks = skipped(self@, n as nat);
        while left > 0
            invariant
                self.wf(),
                left <= self.bytes().len(),
                self.bytes().skip(left as int) == goal,
                skipped(self@, left as nat) == chunks,
            decreases left,
        {
            let ghost before = self@;
            assert(before.len() > 0);
            assert(before[0] == self.segments@[0]@);
            let ghost segments = self.segments@;
            match self.segments.pop_front() {
                None => {
                    assert(false);
                },
                Some(segment) => {
                    assert(self@ =~= before.skip(1));
                    assert(forall|i: int|
                        0 <= i < self.segments@.len() ==> self.segments@[i] == segments[i + 1]);
                    let len: usize = segment.len();
                    if len <= left {
                        left = left - len;
                        assert(self.bytes().skip(left as int) =~= goal);
                    } else {
                        self.segments.push_front(segment.skip(left));
                        assert(self@ =~= seq![before[0].skip(left as int)] + before.skip(1));
                        assert(self@[0] == before[0].skip(left as int));
                        assert(self@.skip(1) =~= before.skip(1));
                        assert(joined(self@) =~= goal);
                        assert(self.bytes().skip(0) =~= goal);
                        left = 0;
                    }
                },
            }
        }
        assert(self.bytes().skip(0) =~= self.bytes());
    }

    /// Takes the first chunk, or its first `max_len` bytes where it is longer.
    pub fn take_chunk(&mut self, max_len: usize) -> (chunk: Option<Vec<u8>>)
        requires
            old(self).wf(),
            max_len > 0,
        ensures
            final(self).wf(),
            match chunk {
                None => old(self)@.len() == 0 && final(self)@ == old(self)@,
                Some(data) => {
                    &&& old(self)@.len() > 0
                    &&& data@.len() > 0
                    &&& data@ == chunk_taken(old(self)@, max_len)
                    &&& final(self)@ == skipped(old(self)@, data@.len())
                    &&& final(self).bytes() == old(self).bytes().skip(data@.len() as int)
                    &&& data@ == old(self).bytes().take(data@.len() as int)
                },
            },
    {
        if self.segments.len() == 0 {
            return None;
        }
        let front = self.segments[0].chunk();
        assert(front@ == self@[0]);
        assert(self.segments@[0]@.len() > 0);
        let n: usize = if front.len() < max_len {
            front.len()
        } else {
            max_len
        };
        let data = to_vec(vstd::slice::slice_subrange(front, 0, n));
        assert(data@ =~= chunk_taken(self@, max_len));
        assert(data@ =~= self.bytes().take(n as int));
        self.advance(n);
        Some(data)
    }

    /// Appends a copy of all the bytes.
    pub fn copy_all(&self, data: &mut Vec<u8>)
        requires
            self.wf(),
        ensures
            final(data)@ == old(data)@ + self.bytes(),
    {
        let ghost goal = data@ + self.bytes();
        let mut i: usize = 0;
        assert(self@.skip(0) =~= self@);
        while i < self.segments.len()
            invariant
                self.wf(),
                i <= self.segments@.len(),
                data@ + joined(self@.skip(i as int)) == goal,
            decreases self.segments@.len() - i,
        {
            let ghost before = data@;
            let ghost rest = self@.skip(i as int);
            assert(rest[0] == self.segments@[i as int]@);
            assert(rest.skip(1) =~= self@.skip(i + 1));
            put_slice(data, self.segments[i].chunk());
            i = i + 1;
            assert(data@ + joined(self@.skip(i as int)) =~= before + joined(rest));
        }
        assert(self@.skip(i as int) =~= Seq::<Seq<u8>>::empty());
        assert(data@ =~= goal);
    }

    /// A copy of the bytes from `start` on, at most `len` of them.
    pub fn copy(&self, start: usize, len: usize) -> (data: Vec<u8>)
        requires
            self.wf(),
            start <= self.bytes().len(),
        ensures
            data@ == if self.bytes().len() - start < len {
                self.bytes().skip(start as int)
            } else {
                self.bytes().subrange(start as int, start + len)
            },
    {
        let mut data: Vec<u8> = Vec::new();
        let mut skip: usize = start;
        let mut left: usize = len;
        let mut i: usize = 0;
        let ghost goal = front_bytes(self.bytes().skip(start as int), len as nat);
        assert(self@.skip(0) =~= self@);
        assert(data@ + goal =~= goal);
        while i < self.segments.len() && left > 0
            invariant
                self.wf(),
                i <= self.segments@.len(),
                skip <= joined(self@.skip(i as int)).len(),
                data@ + front_bytes(joined(self@.skip(i as int)).skip(skip as int), left as nat)
                    == goal,
            decreases self.segments@.len() - i,
        {
            let segment = &self.segments[i];
            let ghost rest = self@.skip(i as int);
            assert(rest[0] == segment@);
            assert(rest.skip(1) =~= self@.skip(i + 1));
            let ghost more = joined(rest.skip(1));
            let ghost before = data@;
            let n: usize = segment.len();
            if skip >= n {
                assert(joined(rest).skip(skip as int) =~= more.skip(skip - n));
                skip = skip - n;
            } else {
                let chunk = segment.chunk();
                let end: usize = if n - skip < left {
                    n
                } else {
                    skip + left
                };
                put_slice(&mut data, vstd::slice::slice_subrange(chunk, skip, end));
                let ghost part = chunk@.subrange(skip as int, end as int);
                assert(joined(rest).skip(skip as int) =~= chunk@.skip(skip as int) + more);
                left = left - (end - skip);
                assert(more.skip(0) =~= more);
                assert(part + front_bytes(more, left as nat) =~= front_bytes(
                    chunk@.skip(skip as int) + more,
                    (left + part.len()) as nat,
                ));
                assert(data@ + front_bytes(more, left as nat) =~= before + (part + front_bytes(
                    more,
                    left as nat,
                )));
                skip = 0;
            }
            i = i + 1;
        }
        proof {
            let rest = joined(self@.skip(i as int)).skip(skip as int);
            if i == self.segments@.len() {
                assert(self@.skip(i as int) =~= Seq::<Seq<u8>>::empty());
            }
            assert(front_bytes(rest, left as nat) =~= Seq::<u8>::empty());
            assert(data@ =~= goal);
        }
        data
    }
}

/// The first `n` bytes, or all where there are fewer.
pub open spec fn front_bytes(s: Seq<u8>, n: nat) -> Seq<u8> {
    if s.len() < n {
        s
    } else {
        s.take(n as int)
    }
}

/// The first chunk, or its first `max_len` bytes where it is longer.
pub open spec fn chunk_taken(chunks: Seq<Seq<u8>>, max_len: usize) -> Seq<u8> {
    front_bytes(chunks[0], max_len as nat)
}

/// Chunks without their first `n` bytes.
pub open spec fn skipped(chunks: Seq<Seq<u8>>, n: nat) -> Seq<Seq<u8>>
    decreases chunks.len(),
{
    if n == 0 || chunks.len() == 0 {
        chunks
    } else if chunks[0].len() <= n {
        skipped(chunks.skip(1), (n - chunks[0].len()) as nat)
    } else {
        seq![chunks[0].skip(n as int)] + chunks.skip(1)
    }
}

pub proof fn lemma_joined_push(chunks: Seq<Seq<u8>>, chunk: Seq<u8>)
    ensures
        joined(chunks.push(chunk)) == joined(chunks) + chunk,
    decreases chunks.len(),
{
    if chunks.len() == 0 {
        assert(chunks.push(chunk).skip(1) =~= chunks);
        assert(joined(chunks.push(chunk)) =~= joined(chunks) + chunk);
    } else {
        lemma_joined_push(chunks.skip(1), chunk);
        assert(chunks.push(chunk).skip(1) =~= chunks.skip(1).push(chunk));
        assert(joined(chunks.push(chunk)) =~= joined(chunks) + chunk);
    }
}

/// Skipping bytes twice is skipping them at once.
pub proof fn lemma_skipped_twice(chunks: Seq<Seq<u8>>, a: nat, b: nat)
    ensures
        skipped(skipped(chunks, a), b) == skipped(chunks, a + b),
    decreases chunks.len(),
{
    if a == 0 || chunks.len() == 0 {
    } else if chunks[0].len() <= a {
        lemma_skipped_twice(chunks.skip(1), (a - chunks[0].len()) as nat, b);
    } else {
        let first = skipped(chunks, a);
        assert(first.skip(1) =~= chunks.skip(1));
        assert(first[0] == chunks[0].skip(a as int));
        if b > 0 && chunks[0].len() > a + b {
            assert(first[0].skip(b as int) =~= chunks[0].skip((a + b) as int));
        }
    }
}

/// What is left of chunks holds the bytes that are left.
pub proof fn lemma_skipped_joined(chunks: Seq<Seq<u8>>, n: nat)
    requires
        n <= joined(chunks).len(),
    ensures
        joined(skipped(chunks, n)) == joined(chunks).skip(n as int),
    decreases chunks.len(),
{
    if n == 0 || chunks.len() == 0 {
        assert(joined(chunks).skip(0) =~= joined(chunks));
    } else if chunks[0].len() <= n {
        let rest = (n - chunks[0].len()) as nat;
        lemma_skipped_joined(chunks.skip(1), rest);
        assert(joined(chunks).skip(n as int) =~= joined(chunks.skip(1)).skip(rest as int));
    } else {
        let left = skipped(chunks, n);
        assert(left.skip(1) =~= chunks.skip(1));
        assert(left[0] == chunks[0].skip(n as int));
        assert(joined(left) =~= joined(chunks).skip(n as int));
    }
}

} // verus!
