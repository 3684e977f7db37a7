//! The raw byte splice of a tcp-mode connection: each direction moves
//! chunks through unmodified and tallies exactly the bytes it moved.

use vstd::prelude::*;

verus! {

/// One direction of a raw byte splice. The read and write ends live
/// outside the crate; every chunk read is handed through this
/// forwarder, which returns the bytes to write and keeps the tally.
pub struct ByteStreamForwarder {
    total: u64,
    moved: Ghost<Seq<u8>>,
}

impl ByteStreamForwarder {
    /// Every byte this direction has moved, in order.
    pub closed spec fn moved(self) -> Seq<u8> {
        self.moved@
    }

    /// The tally equals the bytes moved.
    pub closed spec fn wf(self) -> bool {
        self.total as nat == self.moved@.len()
    }

    /// A forwarder that has moved nothing.
    pub fn new() -> (r: ByteStreamForwarder)
        ensures
            r.wf(),
            r.moved() == Seq::<u8>::empty(),
    {
        ByteStreamForwarder { total: 0, moved: Ghost(Seq::empty()) }
    }

    /// Passes one chunk through: the bytes to write are exactly the
    /// bytes read, and the tally grows by exactly their number.
    pub fn on_chunk(&mut self, chunk: &[u8]) -> (out: Vec<u8>)
        requires
            old(self).wf(),
            old(self).moved().len() + chunk@.len() <= u64::MAX,
        ensures
            final(self).wf(),
            out@ == chunk@,
            final(self).moved() == old(self).moved() + chunk@,
    {
        proof {
            self.moved@ = self.moved@ + chunk@;
        }
        self.total = self.total + chunk.len() as u64;
        crate::text::clone_bytes(chunk)
    }

    /// How many bytes this direction has moved.
    pub fn total_bytes(&self) -> (r: u64)
        requires
            self.wf(),
        ensures
            r as nat == self.moved().len(),
    {
        self.total
    }
}

} // verus!
