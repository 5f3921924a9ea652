use std::collections::VecDeque;

use vstd::prelude::*;
use vstd::string::StrSliceExecFns;
use vstd::string::StringSliceAdditionalSpecFns;

use crate::input::Input;

verus! {

/// A finite, buffered input source over a fixed byte sequence.
///
/// Each read pops the front byte; once the queue is empty, every further
/// read serves a newline (`0x0A`), modelling end of input as an infinite
/// trailing newline stream rather than an error.
pub struct StringInput {
    data: VecDeque<u8>,
}

impl StringInput {
    /// A source over the bytes of `data`.
    pub fn new(data: &str) -> (r: Self)
        ensures
            r.queued() == data.spec_bytes(),
            r.fallback() == Some(0x0Au8),
    {
        let bytes: Vec<u8> = data.as_bytes_vec();
        let mut queue: VecDeque<u8> = VecDeque::new();
        let mut i: usize = 0;
        while i < bytes.len()
            invariant
                i <= bytes.len(),
                queue@ == bytes@.take(i as int),
            decreases bytes.len() - i,
        {
            queue.push_back(bytes[i]);
            proof {
                assert(bytes@.take(i as int + 1) =~= bytes@.take(i as int).push(bytes@[i as int]));
            }
            i = i + 1;
        }
        proof {
            assert(bytes@.take(bytes@.len() as int) =~= bytes@);
        }
        StringInput { data: queue }
    }
}

impl Input for StringInput {
    closed spec fn queued(&self) -> Seq<u8> {
        self.data@
    }

    closed spec fn fallback(&self) -> Option<u8> {
        Some(0x0Au8)
    }

    fn read(&mut self) -> (r: u8) {
        if self.data.len() == 0 {
            0x0A
        } else {
            let front = self.data.pop_front();
            match front {
                Some(byte) => byte,
                None => 0x0A,
            }
        }
    }
}

} // verus!
