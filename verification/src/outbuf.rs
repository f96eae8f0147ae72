//! A bounded in-process byte buffer: the model of the output pipe between
//! the decode worker and the caller.
//!
//! The decode worker appends output payloads; the caller drains them. The
//! buffer accepts at most its capacity: a write takes only what fits, so
//! a writer facing a reader that never drains comes to a standstill
//! instead of buffering without bound.

use vstd::prelude::*;

verus! {

/// A byte queue that never holds more than the capacity it was made with.
pub struct BoundedBuf {
    data: Vec<u8>,
    cap: usize,
}

impl BoundedBuf {
    /// The bytes waiting to be read, oldest first.
    pub closed spec fn contents(&self) -> Seq<u8> {
        self.data@
    }

    /// The capacity the buffer was made with.
    pub closed spec fn capacity(&self) -> nat {
        self.cap as nat
    }

    /// The buffer never exceeds its capacity.
    pub closed spec fn wf(&self) -> bool {
        self.data@.len() <= self.cap
    }

    /// An empty buffer of the given capacity.
    pub fn new(cap: usize) -> (r: BoundedBuf)
        ensures
            r.wf(),
            r.capacity() == cap as nat,
            r.contents() == Seq::<u8>::empty(),
    {
        let r = BoundedBuf { data: Vec::new(), cap };
        assert(r.contents() =~= Seq::<u8>::empty());
        r
    }

    /// How many more bytes the buffer can take.
    pub fn free(&self) -> (r: usize)
        requires
            self.wf(),
        ensures
            r as nat == self.capacity() - self.contents().len(),
    {
        self.cap - self.data.len()
    }

    /// Append as much of `bytes` as fits: its longest prefix that keeps
    /// the buffer within capacity. The rest is the writer's to offer
    /// again once the reader has drained something; a full buffer takes
    /// nothing.
    pub fn write(&mut self, bytes: &[u8]) -> (accepted: usize)
        requires
            old(self).wf(),
        ensures
            final(self).wf(),
            final(self).capacity() == old(self).capacity(),
            accepted as nat == vstd::math::min(
                bytes@.len() as int,
                old(self).capacity() - old(self).contents().len(),
            ) as nat,
            final(self).contents() == old(self).contents() + bytes@.subrange(0, accepted as int),
    {
        let room = self.cap - self.data.len();
        let accepted: usize = if bytes.len() < room {
            bytes.len()
        } else {
            room
        };
        let prefix = vstd::slice::slice_subrange(bytes, 0, accepted);
        crate::codec::push_bytes(&mut self.data, prefix);
        accepted
    }

    /// Remove and return up to `n` bytes from the front.
    pub fn read(&mut self, n: usize) -> (r: Vec<u8>)
        requires
            old(self).wf(),
        ensures
            final(self).wf(),
            final(self).capacity() == old(self).capacity(),
            r@ == old(self).contents().take(vstd::math::min(
                n as int,
                old(self).contents().len() as int,
            )),
            final(self).contents() == old(self).contents().skip(vstd::math::min(
                n as int,
                old(self).contents().len() as int,
            )),
    {
        let take: usize = if n < self.data.len() {
            n
        } else {
            self.data.len()
        };
        let head = vstd::slice::slice_subrange(self.data.as_slice(), 0, take);
        let mut r: Vec<u8> = Vec::new();
        crate::codec::push_bytes(&mut r, head);
        let rest = vstd::slice::slice_subrange(self.data.as_slice(), take, self.data.len());
        let mut keep: Vec<u8> = Vec::new();
        crate::codec::push_bytes(&mut keep, rest);
        self.data = keep;
        proof {
            assert(r@ =~= old(self).contents().take(take as int));
            assert(self.contents() =~= old(self).contents().skip(take as int));
        }
        r
    }
}

/// Backpressure: however many writes are offered, a buffer whose reader
/// never drains it holds at most its capacity, and once it is full every
/// further write is refused whole.
pub proof fn lemma_backpressure(buf: BoundedBuf, bytes: Seq<u8>)
    requires
        buf.wf(),
    ensures
        buf.contents().len() <= buf.capacity(),
        buf.contents().len() == buf.capacity() ==> vstd::math::min(
            bytes.len() as int,
            buf.capacity() - buf.contents().len(),
        ) == 0,
{
}

} // verus!
