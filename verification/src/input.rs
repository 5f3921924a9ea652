pub mod stdin;
pub mod string;

pub use stdin::StdinInput;
pub use string::StringInput;

use vstd::prelude::*;

verus! {

/// A pluggable source of input bytes for the execution engine.
///
/// A source is modelled by the bytes it has queued up and by its fallback:
/// the byte it serves forever once the queue is exhausted, if that byte is
/// fixed.  A buffered source has a fixed fallback; an interactive source has
/// none, because what it serves next comes from the outside world.
pub trait Input: Sized {
    /// The bytes this source will serve next, in order.
    spec fn queued(&self) -> Seq<u8>;

    /// The byte served on every call once the queue is exhausted, or `None`
    /// when exhaustion blocks on the outside world instead.
    spec fn fallback(&self) -> Option<u8>;

    /// Serve one byte.  While the queue is nonempty, its front byte is
    /// served and removed.  On an exhausted queue a source with a fixed
    /// fallback serves that byte and stays exhausted; of any other source
    /// nothing is promised beyond its fallback staying unfixed.
    fn read(&mut self) -> (r: u8)
        ensures
            old(self).queued().len() > 0 ==> {
                &&& r == old(self).queued()[0]
                &&& final(self).queued() == old(self).queued().subrange(
                    1,
                    old(self).queued().len() as int,
                )
                &&& final(self).fallback() == old(self).fallback()
            },
            old(self).queued().len() == 0 && old(self).fallback() is Some ==> {
                &&& r == old(self).fallback()->0
                &&& final(self).queued() == old(self).queued()
                &&& final(self).fallback() == old(self).fallback()
            },
            old(self).fallback() is None ==> final(self).fallback() is None,
    ;
}

} // verus!
