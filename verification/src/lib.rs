pub mod cpu;
pub mod errors;
pub mod input;

pub use errors::{CompileError, EncodingError, RuntimeError};

use vstd::prelude::*;
use vstd::string::StringSliceAdditionalSpecFns;

use crate::cpu::compiler::compile_spec;
use crate::cpu::instruction::Instruction;
use crate::cpu::interpreter::{lemma_multi_step_snoc, multi_step, step_fault};
use crate::cpu::state::{fresh_model, ExecModel};
use crate::cpu::{InterpreterCPU, CPU};
use crate::input::{Input, StringInput};

verus! {

/// A byte-for-byte copy of a byte vector.
fn copy_bytes(v: &Vec<u8>) -> (r: Vec<u8>)
    ensures
        r@ == v@,
{
    let mut r: Vec<u8> = Vec::new();
    let mut i: usize = 0;
    while i < v.len()
        invariant
            i <= v@.len(),
            r@ == v@.take(i as int),
        decreases v@.len() - i,
    {
        r.push(v[i]);
        proof {
            assert(v@.take(i as int + 1) =~= v@.take(i as int).push(v@[i as int]));
        }
        i = i + 1;
    }
    proof {
        assert(v@.take(v@.len() as int) =~= v@);
    }
    r
}

/// Relies on `String::from_utf8`: it succeeds exactly on the byte sequences
/// that are valid UTF-8 and yields their decoding, which `vstd`'s
/// `valid_utf8` and `decode_utf8` specify.
#[verifier::external_body]
fn utf8_to_string(bytes: Vec<u8>) -> (r: Option<String>)
    ensures
        r is Some <==> vstd::utf8::valid_utf8(bytes@),
        r matches Some(s) ==> s@ == vstd::utf8::decode_utf8(bytes@),
{
    match String::from_utf8(bytes) {
        Ok(s) => Some(s),
        Err(_) => None,
    }
}

/// The facade external callers drive: it owns one compiled program and one
/// execution state, bound to one input source, and offers load, run, reset
/// and output retrieval.
pub struct Emulator<I: Input> {
    cpu: InterpreterCPU<I>,
}

impl<I: Input> Emulator<I> {
    /// The compiled code currently loaded.
    pub closed spec fn code(&self) -> Seq<Instruction> {
        self.cpu.code()
    }

    /// The mathematical view of the execution state.
    pub closed spec fn model(&self) -> ExecModel {
        self.cpu.model()
    }

    /// The emulator's internal invariant; every constructor establishes it
    /// and every operation preserves it.
    pub closed spec fn wf(&self) -> bool {
        self.cpu.wf()
    }

    /// An emulator with no program loaded, bound to the given input source.
    pub fn with_input(input: I) -> (r: Self)
        ensures
            r.wf(),
            r.code() == Seq::<Instruction>::empty(),
            r.model() == fresh_model(input.queued(), input.fallback()),
    {
        Emulator { cpu: InterpreterCPU::with_input(input) }
    }

    /// Compile `program` and load the result, starting over from a fresh
    /// execution state; the bound input source is kept.  A rejected source
    /// leaves the emulator exactly as it was, program included.
    pub fn load_from_string(&mut self, program: &str) -> (r: Result<(), CompileError>)
        requires
            old(self).wf(),
            program.spec_bytes().len() <= isize::MAX as int,
        ensures
            final(self).wf(),
            r is Ok <==> compile_spec(program.spec_bytes()) is Ok,
            r matches Ok(()) ==> {
                &&& compile_spec(program.spec_bytes()) == Ok::<Seq<Instruction>, CompileError>(
                    final(self).code(),
                )
                &&& final(self).model() == fresh_model(
                    old(self).model().inq,
                    old(self).model().infb,
                )
            },
            r matches Err(e) ==> {
                &&& compile_spec(program.spec_bytes()) == Err::<Seq<Instruction>, CompileError>(e)
                &&& *final(self) == *old(self)
            },
    {
        self.cpu.parse(program)
    }

    /// Whether the program counter has not yet run off the end of the
    /// loaded program, which is the only halt condition.
    pub fn running(&self) -> (r: bool)
        ensures
            r == (self.model().pc != self.code().len()),
    {
        self.cpu.is_running()
    }

    /// Drive the engine until the program halts.  Every state along the way
    /// is reachable from the starting state by the step relation; on `Ok`
    /// the program has halted.  A pointer move out of the addressable range
    /// stops the run with a fault, and a run of `u64::MAX` steps without
    /// halting is abandoned, a bound no real program reaches.
    pub fn run(&mut self) -> (r: Result<(), RuntimeError>)
        requires
            old(self).wf(),
        ensures
            final(self).wf(),
            final(self).code() == old(self).code(),
            (exists|n: nat|
                multi_step(final(self).code(), old(self).model(), final(self).model(), n) && (r
                    == Err::<(), RuntimeError>(RuntimeError::StepLimitExceeded) ==> n
                    == u64::MAX as nat)),
            r matches Ok(()) ==> final(self).model().pc == final(self).code().len(),
            r == Err::<(), RuntimeError>(RuntimeError::PointerOutOfRange) ==> step_fault(
                final(self).code(),
                final(self).model(),
            ),
            r == Err::<(), RuntimeError>(RuntimeError::StepLimitExceeded) ==> final(self).model().pc
                != final(self).code().len(),
    {
        let mut steps: u64 = 0;
        let ghost mut n: nat = 0;
        let mut running = self.cpu.is_running();
        proof {
            assert(multi_step(self.code(), old(self).model(), self.model(), 0));
        }
        while running && steps < u64::MAX
            invariant
                self.wf(),
                self.code() == old(self).code(),
                running == (self.model().pc != self.code().len()),
                multi_step(self.code(), old(self).model(), self.model(), n),
                n == steps as nat,
            decreases u64::MAX - steps,
        {
            let ghost previous = self.model();
            let stepped = self.cpu.step();
            match stepped {
                Ok(()) => {
                    proof {
                        lemma_multi_step_snoc(
                            self.code(),
                            old(self).model(),
                            previous,
                            self.model(),
                            n,
                        );
                        n = n + 1;
                    }
                    steps = steps + 1;
                    running = self.cpu.is_running();
                },
                Err(e) => {
                    return Err(e);
                },
            }
        }
        if running {
            Err(RuntimeError::StepLimitExceeded)
        } else {
            Ok(())
        }
    }

    /// Replace the bound input source outright; the program and the rest of
    /// the execution state stay as they are.
    pub fn set_input(&mut self, new_input: I)
        requires
            old(self).wf(),
        ensures
            final(self).wf(),
            final(self).code() == old(self).code(),
            final(self).model() == (ExecModel {
                inq: new_input.queued(),
                infb: new_input.fallback(),
                ..old(self).model()
            }),
    {
        self.cpu.set_input(new_input);
    }

    /// Replace the execution state with a fresh one: one zeroed cell, both
    /// cursors at zero, output empty.  The loaded program is kept, and the
    /// bound input source continues from wherever it left off.
    pub fn reset(&mut self)
        requires
            old(self).wf(),
        ensures
            final(self).wf(),
            final(self).code() == old(self).code(),
            final(self).model() == fresh_model(old(self).model().inq, old(self).model().infb),
    {
        self.cpu.reset();
    }

    /// The output gathered so far, as raw bytes.
    pub fn get_output(&self) -> (r: Vec<u8>)
        ensures
            r@ == self.model().out,
    {
        copy_bytes(&self.cpu.get_state().output)
    }

    /// The output gathered so far, as text.  Output that is not valid
    /// UTF-8 is reported as an encoding error rather than silently
    /// substituted.
    pub fn get_output_as_string(&self) -> (r: Result<String, EncodingError>)
        ensures
            r is Ok <==> vstd::utf8::valid_utf8(self.model().out),
            r matches Ok(s) ==> s@ == vstd::utf8::decode_utf8(self.model().out),
            r is Err ==> r == Err::<String, EncodingError>(EncodingError::InvalidUtf8),
    {
        let bytes = copy_bytes(&self.cpu.get_state().output);
        match utf8_to_string(bytes) {
            Some(s) => Ok(s),
            None => Err(EncodingError::InvalidUtf8),
        }
    }
}

impl Emulator<StringInput> {
    /// An emulator with no program loaded and an exhausted buffered input
    /// source: the default binding, under which a read serves newlines.
    pub fn new() -> (r: Self)
        ensures
            r.wf(),
            r.code() == Seq::<Instruction>::empty(),
            r.model().inq.len() == 0,
            r.model().infb == Some(0x0Au8),
            r.model() == fresh_model(r.model().inq, r.model().infb),
    {
        Emulator { cpu: InterpreterCPU::new() }
    }
}

} // verus!
