//! The per-thread identity tag woven into generated identifiers.

use vstd::prelude::*;

verus! {

/// Draws a fresh 4-byte thread tag.
///
/// Relies on `rand::thread_rng` and `rand::Rng::gen::<u32>`: the value
/// is random, so nothing is promised of it — identifiers must stay
/// unpredictable across processes. Each call draws anew; the per-thread
/// stability of the tag comes from [`ThreadContext`], which draws it
/// once and then carries it unchanged.
#[verifier::external_body]
pub fn gettid() -> u32 {
    <rand::rngs::ThreadRng as rand::Rng>::gen::<u32>(&mut rand::thread_rng())
}

/// The identity context of a worker thread: the 4-byte tag woven into
/// every identifier the thread generates. A thread creates its context
/// once and passes it through call contexts, so the tag is stable for
/// the thread's lifetime by construction — identifiers generated by one
/// thread all carry the same tag, and an identifier's worker placement
/// survives retries.
#[derive(Clone, Copy, Debug)]
pub struct ThreadContext {
    tag: u32,
}

impl ThreadContext {
    /// The tag this context carries; fixed when the context is created.
    pub closed spec fn tag_spec(&self) -> u32 {
        self.tag
    }

    /// Creates the context for the current thread, drawing its tag
    /// once. The tag is random, so nothing is promised of its value.
    pub fn new() -> Self {
        ThreadContext { tag: gettid() }
    }

    /// Reads the tag: every call on the same context returns the same
    /// value.
    pub fn tag(&self) -> (r: u32)
        ensures
            r == self.tag_spec(),
    {
        self.tag
    }
}

} // verus!
