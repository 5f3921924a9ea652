use std::collections::VecDeque;
use std::io::BufRead;

use vstd::prelude::*;

use crate::input::Input;

verus! {

/// An interactive, line-buffered input source over the console.
///
/// When its queue is empty, a read blocks to acquire one line of text,
/// appends every byte of that line (newline included) to the queue, and then
/// serves one byte.  Should the console itself be exhausted, the source
/// degrades to serving a newline (`0x0A`), so that a read never fails.
pub struct StdinInput {
    data: VecDeque<u8>,
}

/// Relies on `std::io::Stdin::read_line` to block for one line of console
/// input and hand its bytes back; nothing can be promised of what the
/// outside world types, so nothing is stated of the result.
#[verifier::external_body]
fn read_line_bytes() -> (r: Vec<u8>) {
    let mut line = String::new();
    let _ = std::io::stdin().lock().read_line(&mut line);
    line.into_bytes()
}

impl StdinInput {
    /// A source with nothing queued yet.
    pub fn new() -> (r: Self)
        ensures
            r.queued() == Seq::<u8>::empty(),
            r.fallback() is None,
    {
        StdinInput { data: VecDeque::new() }
    }

    /// Serve one acquired line: its front byte is returned and the rest,
    /// newline included, is queued up in order for the reads that follow.
    /// An empty line (the console itself was exhausted) degrades to a
    /// newline and leaves the queue empty.
    pub fn serve_line(&mut self, line: Vec<u8>) -> (r: u8)
        requires
            old(self).queued().len() == 0,
        ensures
            line@.len() > 0 ==> r == line@[0] && final(self).queued() == line@.skip(1),
            line@.len() == 0 ==> r == 0x0A && final(self).queued().len() == 0,
    {
        let mut i: usize = 0;
        proof {
            assert(self.data@ =~= line@.take(0));
        }
        while i < line.len()
            invariant
                i <= line@.len(),
                self.data@ == line@.take(i as int),
            decreases line@.len() - i,
        {
            self.data.push_back(line[i]);
            proof {
                assert(line@.take(i as int + 1) =~= line@.take(i as int).push(line@[i as int]));
            }
            i = i + 1;
        }
        proof {
            assert(line@.take(line@.len() as int) =~= line@);
        }
        if self.data.len() == 0 {
            0x0A
        } else {
            let front = self.data.pop_front();
            proof {
                assert(self.data@ =~= line@.skip(1));
            }
            match front {
                Some(byte) => byte,
                None => 0x0A,
            }
        }
    }
}

impl Input for StdinInput {
    closed spec fn queued(&self) -> Seq<u8> {
        self.data@
    }

    closed spec fn fallback(&self) -> Option<u8> {
        None
    }

    fn read(&mut self) -> (r: u8) {
        if self.data.len() == 0 {
            let line = read_line_bytes();
            self.serve_line(line)
        } else {
            let front = self.data.pop_front();
            match front {
                Some(byte) => byte,
                None => 0x0A,
            }
        }
    }
}

} // verus!
