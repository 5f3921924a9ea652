use vstd::prelude::*;
use vstd::pervasive::VecAdditionalExecFns;

use crate::errors::RuntimeError;
use crate::input::Input;

verus! {

/// The mathematical view of an execution state: the tape, the two cursors,
/// the output gathered so far, and the model of the bound input source.
#[verifier::ext_equal]
pub ghost struct ExecModel {
    pub tape: Seq<u8>,
    pub dp: int,
    pub pc: int,
    pub out: Seq<u8>,
    pub inq: Seq<u8>,
    pub infb: Option<u8>,
}

/// The state every run and every reset starts from: one zeroed cell, both
/// cursors at zero, no output, and whatever input source the caller bound.
pub open spec fn fresh_model(inq: Seq<u8>, infb: Option<u8>) -> ExecModel {
    ExecModel { tape: seq![0u8], dp: 0, pc: 0, out: Seq::empty(), inq, infb }
}

/// The largest tape index a pointer move may reach.  A `Vec<u8>` can never
/// hold more than `isize::MAX` bytes, so indices beyond that bound are not
/// addressable on any run; a move past it is a runtime fault.
pub open spec fn dp_limit() -> int {
    usize::MAX as int / 2
}

/// The tape length after growing a tape of length `len` by doubling until
/// index `dp` is addressable.
pub open spec fn grow_len(len: int, dp: int) -> int
    decreases dp - len,
    when len >= 1
{
    if dp < len {
        len
    } else if dp < 2 * len {
        2 * len
    } else {
        grow_len(2 * len, dp)
    }
}

/// The tape after a pointer move to `dp`: unchanged while `dp` is already
/// addressable, and padded with zeroed cells up to the doubled length
/// otherwise.  Growth never touches what the tape already holds.
pub open spec fn grown(tape: Seq<u8>, dp: int) -> Seq<u8> {
    if dp < tape.len() {
        tape
    } else {
        tape + Seq::new((grow_len(tape.len() as int, dp) - tape.len()) as nat, |_i: int| 0u8)
    }
}

proof fn lemma_grow_len_at_least(len: int, dp: int)
    requires
        1 <= len,
    ensures
        grow_len(len, dp) >= len,
        dp >= len ==> grow_len(len, dp) > dp,
    decreases dp - len,
{
    if dp >= 2 * len {
        lemma_grow_len_at_least(2 * len, dp);
    }
}

/// Tape growth preserves data: however far the pointer moves, the grown
/// tape never shrinks, keeps every existing cell's value at its old index,
/// and makes the new position addressable.
pub proof fn lemma_grown_preserves_data(tape: Seq<u8>, dp: int)
    requires
        tape.len() >= 1,
    ensures
        grown(tape, dp).len() >= tape.len(),
        tape.is_prefix_of(grown(tape, dp)),
        forall|i: int| 0 <= i < tape.len() ==> grown(tape, dp)[i] == tape[i],
        0 <= dp ==> dp < grown(tape, dp).len(),
{
    if dp < tape.len() {
        assert(grown(tape, dp).take(tape.len() as int) =~= tape);
    } else {
        lemma_grow_len_at_least(tape.len() as int, dp);
        assert(grown(tape, dp).take(tape.len() as int) =~= tape);
    }
}

/// A cell update: the signed amount is taken modulo the cell width, and the
/// cell wraps.
pub open spec fn cell_wrap_add(cell: u8, d: int) -> u8 {
    (((cell as int) + d) % 256) as u8
}

/// What a `MovePointer(d)` instruction does to the model.
pub open spec fn move_step(m1: ExecModel, m2: ExecModel, d: int) -> bool {
    let nd = m1.dp + d;
    &&& 0 <= nd <= dp_limit()
    &&& m2 == ExecModel { dp: nd, pc: m1.pc + 1, tape: grown(m1.tape, nd), ..m1 }
}

/// A `MovePointer(d)` instruction faults: it would leave the addressable
/// range of the tape.
pub open spec fn move_fault(m1: ExecModel, d: int) -> bool {
    m1.dp + d < 0 || m1.dp + d > dp_limit()
}

/// What a `Read` instruction does to the model: the front queued byte moves
/// into the current cell; an exhausted source with a fixed fallback serves
/// that byte; of an exhausted interactive source, some byte arrives and the
/// queue becomes whatever is left of the acquired line.
pub open spec fn read_step(m1: ExecModel, m2: ExecModel) -> bool {
    if m1.inq.len() > 0 {
        m2 == ExecModel {
            tape: m1.tape.update(m1.dp, m1.inq[0]),
            inq: m1.inq.subrange(1, m1.inq.len() as int),
            pc: m1.pc + 1,
            ..m1
        }
    } else if m1.infb is Some {
        m2 == ExecModel { tape: m1.tape.update(m1.dp, m1.infb->0), pc: m1.pc + 1, ..m1 }
    } else {
        // Some byte arrives from the outside world and the queue becomes
        // whatever is left of the acquired line: neither is constrained.
        &&& m2.tape == m1.tape.update(m1.dp, m2.tape[m1.dp])
        &&& m2.dp == m1.dp
        &&& m2.pc == m1.pc + 1
        &&& m2.out == m1.out
        &&& m2.infb == m1.infb
    }
}

/// What a `Jump(k)` instruction does to the model: a positive offset falls
/// through on a nonzero cell, a negative offset falls through on a zero
/// cell, and otherwise control moves by the offset.
pub open spec fn jump_step(m1: ExecModel, m2: ExecModel, k: int) -> bool {
    let cell = m1.tape[m1.dp];
    if (k < 0 && cell == 0) || (k > 0 && cell != 0) {
        m2 == ExecModel { pc: m1.pc + 1, ..m1 }
    } else {
        m2 == ExecModel { pc: m1.pc + k, ..m1 }
    }
}

/// The mutable execution state: the growable tape, the data pointer, the
/// program counter, the output gathered so far, and the bound input source.
pub struct State<I: Input> {
    pub data: Vec<u8>,
    pub output: Vec<u8>,
    pub pc: usize,
    pub dp: usize,
    pub input: I,
}

impl<I: Input> State<I> {
    /// The mathematical view of this state.
    pub open spec fn model(&self) -> ExecModel {
        ExecModel {
            tape: self.data@,
            dp: self.dp as int,
            pc: self.pc as int,
            out: self.output@,
            inq: self.input.queued(),
            infb: self.input.fallback(),
        }
    }

    /// The tape holds at least one cell and the pointer addresses one of
    /// its cells.
    pub open spec fn wf(&self) -> bool {
        &&& self.data@.len() >= 1
        &&& (self.dp as int) < self.data@.len()
    }

    /// A fresh state bound to the given input source.
    pub fn new(input: I) -> (r: Self)
        ensures
            r.wf(),
            r.model() == fresh_model(input.queued(), input.fallback()),
    {
        let mut data: Vec<u8> = Vec::new();
        data.push(0);
        let r = State { data, output: Vec::new(), pc: 0, dp: 0, input };
        proof {
            assert(r.data@ =~= seq![0u8]);
            assert(r.model() =~= fresh_model(r.input.queued(), r.input.fallback()));
        }
        r
    }

    /// Replace everything but the input source with a fresh start: one
    /// zeroed cell, cursors at zero, output empty.  The input source is
    /// caller-owned and continues from wherever it left off.
    pub fn reset(&mut self)
        ensures
            final(self).wf(),
            final(self).model() == fresh_model(
                old(self).input.queued(),
                old(self).input.fallback(),
            ),
    {
        let mut data: Vec<u8> = Vec::new();
        data.push(0);
        self.data = data;
        self.output = Vec::new();
        self.pc = 0;
        self.dp = 0;
        proof {
            assert(self.data@ =~= seq![0u8]);
            assert(self.model() =~= fresh_model(old(self).input.queued(), old(self).input.fallback()));
        }
    }

    /// Move the data pointer, growing the tape by doubling when the new
    /// position lies beyond it.  A move out of the addressable range is
    /// reported as a fault and leaves the state untouched.
    pub(crate) fn op_add_to_dp(&mut self, parameter: isize) -> (r: Result<(), RuntimeError>)
        requires
            old(self).wf(),
            old(self).pc < usize::MAX,
        ensures
            final(self).wf(),
            r is Ok ==> move_step(old(self).model(), final(self).model(), parameter as int),
            r is Err ==> *final(self) == *old(self) && move_fault(
                old(self).model(),
                parameter as int,
            ) && r == Err::<(), RuntimeError>(RuntimeError::PointerOutOfRange),
    {
        let limit: usize = usize::MAX / 2;
        let nd: usize;
        if parameter >= 0 {
            let mag = parameter as usize;
            if self.dp > limit || mag > limit - self.dp {
                return Err(RuntimeError::PointerOutOfRange);
            }
            nd = self.dp + mag;
        } else {
            let mag = ((-(parameter + 1)) as usize) + 1;
            if mag > self.dp || self.dp - mag > limit {
                return Err(RuntimeError::PointerOutOfRange);
            }
            nd = self.dp - mag;
        }
        if nd >= self.data.len() {
            let mut target = self.data.len();
            while nd >= target
                invariant
                    1 <= target,
                    1 <= old(self).data@.len(),
                    nd <= usize::MAX / 2,
                    grow_len(old(self).data@.len() as int, nd as int) == grow_len(
                        target as int,
                        nd as int,
                    ),
                decreases usize::MAX - target,
            {
                target = target * 2;
            }
            proof {
                assert(grow_len(old(self).data@.len() as int, nd as int) == target as int);
            }
            while self.data.len() < target
                invariant
                    1 <= old(self).data@.len(),
                    old(self).data@.len() <= self.data@.len() <= target,
                    self.data@.take(old(self).data@.len() as int) == old(self).data@,
                    forall|i: int|
                        old(self).data@.len() <= i < self.data@.len() ==> self.data@[i] == 0u8,
                    self.output@ == old(self).output@,
                    self.pc == old(self).pc,
                    self.dp == old(self).dp,
                    self.input == old(self).input,
                decreases target - self.data@.len(),
            {
                self.data.push(0);
                proof {
                    assert(self.data@.take(old(self).data@.len() as int) =~= old(self).data@);
                }
            }
            proof {
                assert(self.data@ =~= grown(old(self).data@, nd as int));
            }
        }
        self.dp = nd;
        self.pc = self.pc + 1;
        proof {
            assert(self.model() =~= ExecModel {
                dp: nd as int,
                pc: old(self).model().pc + 1,
                tape: grown(old(self).model().tape, nd as int),
                ..old(self).model()
            });
        }
        Ok(())
    }

    /// Add to the current cell, wrapping at the cell width.
    pub(crate) fn op_add_to_data(&mut self, parameter: isize)
        requires
            old(self).wf(),
            old(self).pc < usize::MAX,
        ensures
            final(self).wf(),
            final(self).model() == (ExecModel {
                tape: old(self).model().tape.update(
                    old(self).model().dp,
                    cell_wrap_add(old(self).model().tape[old(self).model().dp], parameter as int),
                ),
                pc: old(self).model().pc + 1,
                ..old(self).model()
            }),
    {
        let cell = self.data[self.dp];
        #[verifier::truncate]
        let delta = parameter as u8;
        let updated = cell.wrapping_add(delta);
        proof {
            assert(updated == cell_wrap_add(cell, parameter as int)) by (bit_vector)
                requires
                    delta == parameter as u8 && updated == cell.wrapping_add(delta),
            ;
        }
        self.data.set(self.dp, updated);
        self.pc = self.pc + 1;
        proof {
            assert(self.model() =~= ExecModel {
                tape: old(self).model().tape.update(
                    old(self).model().dp,
                    cell_wrap_add(old(self).model().tape[old(self).model().dp], parameter as int),
                ),
                pc: old(self).model().pc + 1,
                ..old(self).model()
            });
        }
    }

    /// Set the current cell to zero.
    pub(crate) fn op_clear_cell(&mut self)
        requires
            old(self).wf(),
            old(self).pc < usize::MAX,
        ensures
            final(self).wf(),
            final(self).model() == (ExecModel {
                tape: old(self).model().tape.update(old(self).model().dp, 0u8),
                pc: old(self).model().pc + 1,
                ..old(self).model()
            }),
    {
        self.data.set(self.dp, 0);
        self.pc = self.pc + 1;
        proof {
            assert(self.model() =~= ExecModel {
                tape: old(self).model().tape.update(old(self).model().dp, 0u8),
                pc: old(self).model().pc + 1,
                ..old(self).model()
            });
        }
    }

    /// Append the current cell's byte to the output.
    pub(crate) fn op_print(&mut self)
        requires
            old(self).wf(),
            old(self).pc < usize::MAX,
        ensures
            final(self).wf(),
            final(self).model() == (ExecModel {
                out: old(self).model().out.push(old(self).model().tape[old(self).model().dp]),
                pc: old(self).model().pc + 1,
                ..old(self).model()
            }),
    {
        let cell = self.data[self.dp];
        self.output.push(cell);
        self.pc = self.pc + 1;
        proof {
            assert(self.model() =~= ExecModel {
                out: old(self).model().out.push(old(self).model().tape[old(self).model().dp]),
                pc: old(self).model().pc + 1,
                ..old(self).model()
            });
        }
    }

    /// Store the next input byte into the current cell.
    pub(crate) fn op_read(&mut self)
        requires
            old(self).wf(),
            old(self).pc < usize::MAX,
        ensures
            final(self).wf(),
            read_step(old(self).model(), final(self).model()),
    {
        let byte = self.input.read();
        self.data.set(self.dp, byte);
        self.pc = self.pc + 1;
        proof {
            let m1 = old(self).model();
            let m2 = self.model();
            if m1.inq.len() > 0 {
                assert(m2 =~= ExecModel {
                    tape: m1.tape.update(m1.dp, m1.inq[0]),
                    inq: m1.inq.subrange(1, m1.inq.len() as int),
                    pc: m1.pc + 1,
                    ..m1
                });
            } else if m1.infb is Some {
                assert(m2 =~= ExecModel {
                    tape: m1.tape.update(m1.dp, m1.infb->0),
                    pc: m1.pc + 1,
                    ..m1
                });
            } else {
                assert(m2.tape =~= m1.tape.update(m1.dp, byte));
                assert(m2.tape[m1.dp] == byte);
                assert(m2.tape =~= m1.tape.update(m1.dp, m2.tape[m1.dp]));
            }
        }
    }

    /// Conditionally transfer control by the given relative offset.
    pub(crate) fn op_jump(&mut self, parameter: isize)
        requires
            old(self).wf(),
            old(self).pc < usize::MAX,
            0 <= old(self).pc + (parameter as int) <= usize::MAX,
        ensures
            final(self).wf(),
            jump_step(old(self).model(), final(self).model(), parameter as int),
    {
        let cell = self.data[self.dp];
        if (parameter < 0 && cell == 0) || (parameter > 0 && cell != 0) {
            self.pc = self.pc + 1;
        } else {
            if parameter >= 0 {
                self.pc = self.pc + (parameter as usize);
            } else {
                let mag = ((-(parameter + 1)) as usize) + 1;
                self.pc = self.pc - mag;
            }
        }
        proof {
            let m1 = old(self).model();
            let m2 = self.model();
            let k = parameter as int;
            if (k < 0 && m1.tape[m1.dp] == 0) || (k > 0 && m1.tape[m1.dp] != 0) {
                assert(m2 =~= ExecModel { pc: m1.pc + 1, ..m1 });
            } else {
                assert(m2 =~= ExecModel { pc: m1.pc + k, ..m1 });
            }
        }
    }
}

} // verus!
