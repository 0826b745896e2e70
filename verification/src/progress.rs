//! A pairing of a reader with a progress callback.  The catalog itself never
//! performs I/O: the reading side that drives the callback lives with the
//! code that owns the input streams, and hands the library plain buffers.

use vstd::prelude::*;

verus! {

/// A reader together with the callback that observes how many bytes each
/// read delivered.
pub struct Progress<R, F> {
    pub inner: R,
    pub progress_fn: F,
}

impl<R, F> Progress<R, F> {
    /// Pairs the reader with its callback, changing neither.
    pub fn new(inner: R, progress_fn: F) -> (r: Progress<R, F>)
        ensures
            r.inner == inner,
            r.progress_fn == progress_fn,
    {
        Progress { inner, progress_fn }
    }
}

} // verus!
