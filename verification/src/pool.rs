//! Recyclable byte buffers for the datagram path.
//!
//! Buffers move by value between the socket loop, the server core and the
//! application; this free list lets the embedding program reuse them instead
//! of allocating per packet.  The number of live buffers is bounded by the
//! number held out at once: every `acquire` is matched by a later `release`.

use vstd::prelude::*;

use crate::client::MAX_UDP_PAYLOAD_SIZE;

verus! {

/// A free list of byte buffers, each with room for one UDP payload.
pub struct BufferPool {
    free: Vec<Vec<u8>>,
}

impl BufferPool {
    /// How many buffers are pooled and idle.
    pub closed spec fn spec_idle(self) -> nat {
        self.free@.len()
    }

    pub fn new() -> (p: BufferPool)
        ensures
            p.spec_idle() == 0,
    {
        BufferPool { free: Vec::new() }
    }

    /// Take a buffer out of the pool, or make a fresh one when none is
    /// idle.  The buffer comes back empty.
    pub fn acquire(&mut self) -> (b: Vec<u8>)
        ensures
            b@ == Seq::<u8>::empty(),
            old(self).spec_idle() > 0 ==> final(self).spec_idle() == old(self).spec_idle() - 1,
            old(self).spec_idle() == 0 ==> final(self).spec_idle() == 0,
    {
        match self.free.pop() {
            Some(mut b) => {
                b.clear();
                b
            },
            None => Vec::with_capacity(MAX_UDP_PAYLOAD_SIZE),
        }
    }

    /// Return a buffer to the pool; its contents are discarded.
    pub fn release(&mut self, b: Vec<u8>)
        ensures
            final(self).spec_idle() == old(self).spec_idle() + 1,
    {
        let mut b = b;
        b.clear();
        self.free.push(b);
    }

    pub fn idle_buffers(&self) -> (r: usize)
        ensures
            r == self.spec_idle(),
    {
        self.free.len()
    }
}

} // verus!
