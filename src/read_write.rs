use vstd::prelude::*;

verus! {

/// A read half and a write half used together as one bidirectional stream.
pub struct AsyncReadWrite<R, W> {
    pub inner_read: R,
    pub inner_write: W,
}

impl<R, W> AsyncReadWrite<R, W> {
    pub fn new(read: R, write: W) -> (r: Self)
        ensures
            r.inner_read == read,
            r.inner_write == write,
    {
        Self { inner_read: read, inner_write: write }
    }
}

} // verus!
