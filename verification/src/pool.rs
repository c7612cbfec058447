use vstd::prelude::*;

use crate::frame::FrameBuffer;

verus! {

/// A bounded store of spare byte buffers that frames are cut from.
#[derive(Debug)]
pub struct FramePool {
    buffers: Vec<Vec<u8>>,
    capacity: usize,
}

impl FramePool {
    /// The pool keeps at most `capacity` spare buffers, each of them empty.
    pub closed spec fn wf(&self) -> bool {
        &&& self.buffers@.len() <= self.capacity
        &&& forall|i: int| 0 <= i < self.buffers@.len() ==> #[trigger] self.buffers@[i]@.len() == 0
    }

    /// How many spare buffers the pool may keep.
    pub closed spec fn spec_capacity(&self) -> nat {
        self.capacity as nat
    }

    /// How many spare buffers the pool holds now.
    pub closed spec fn spec_available(&self) -> nat {
        self.buffers@.len()
    }

    /// An empty pool that keeps at most `capacity` spare buffers.
    pub fn new(capacity: usize) -> (pool: Self)
        ensures
            pool.wf(),
            pool.spec_capacity() == capacity,
            pool.spec_available() == 0,
    {
        FramePool { buffers: Vec::with_capacity(capacity), capacity }
    }

    /// A buffer of `len` zero bytes, reusing a spare buffer when one is held.
    pub fn acquire(&mut self, len: usize) -> (buffer: FrameBuffer)
        requires
            old(self).wf(),
        ensures
            final(self).wf(),
            final(self).spec_capacity() == old(self).spec_capacity(),
            final(self).spec_available() == if old(self).spec_available() > 0 {
                old(self).spec_available() - 1
            } else {
                0
            },
            buffer@.len() == len,
            forall|i: int| 0 <= i < len ==> #[trigger] buffer@[i] == 0,
    {
        let mut data = match self.buffers.pop() {
            Some(data) => data,
            None => Vec::new(),
        };
        assert(data@.len() == 0);
        data.resize(len, 0);
        FrameBuffer::new(data)
    }

    /// Takes a buffer back as a spare, unless the pool is full.
    pub fn recycle(&mut self, buffer: FrameBuffer)
        requires
            old(self).wf(),
        ensures
            final(self).wf(),
            final(self).spec_capacity() == old(self).spec_capacity(),
            final(self).spec_available() == if old(self).spec_available() < old(self).spec_capacity() {
                old(self).spec_available() + 1
            } else {
                old(self).spec_available()
            },
    {
        if self.buffers.len() < self.capacity {
            let mut data = buffer.into_vec();
            data.clear();
            self.buffers.push(data);
        }
    }

    /// How many spare buffers the pool holds now.
    pub fn available(&self) -> (count: usize)
        ensures
            count == self.spec_available(),
    {
        self.buffers.len()
    }
}

} // verus!
