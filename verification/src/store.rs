//! The image store: the process-wide holder of the current image.
//!
//! The store owns exactly one current buffer — the empty sentinel before a
//! first load.  It is replaced whole when a load or a shift commits, and
//! read by snapshot, so a long-running consumer works on its own copy and
//! never holds the store while it computes.  The store itself is
//! thread-agnostic; a caller that shares it across threads wraps it in its
//! own mutual exclusion, held only for the O(1) swap or clone.

use vstd::prelude::*;

use crate::buffer::PixelBuffer;

verus! {

/// Holds the one current image.
#[derive(Debug)]
pub struct ImageStore {
    pub current: PixelBuffer,
}

impl ImageStore {
    /// The store's invariant: the held buffer is well-formed.
    pub open spec fn wf(&self) -> bool {
        self.current.wf()
    }

    /// A fresh store holding the empty sentinel.
    pub fn new() -> (r: ImageStore)
        ensures
            r.wf(),
            r.current.width == 0,
            r.current.height == 0,
            r.current.pixels@ == Seq::<crate::buffer::Rgba>::empty(),
    {
        ImageStore { current: PixelBuffer::empty() }
    }

    /// Replaces the current image; the old one is dropped.
    pub fn replace(&mut self, buffer: PixelBuffer)
        requires
            buffer.wf(),
        ensures
            final(self).wf(),
            final(self).current == buffer,
    {
        self.current = buffer;
    }

    /// A copy of the current image for the caller to work on.
    pub fn snapshot(&self) -> (r: PixelBuffer)
        requires
            self.wf(),
        ensures
            r.wf(),
            r.width == self.current.width,
            r.height == self.current.height,
            r.pixels@ == self.current.pixels@,
    {
        self.current.clone()
    }
}

} // verus!
