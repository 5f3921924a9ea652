pub mod compiler;
pub mod instruction;
pub mod interpreter;
pub mod state;

pub use interpreter::InterpreterCPU;
pub use state::State;

use vstd::prelude::*;
use vstd::string::StringSliceAdditionalSpecFns;

use crate::cpu::compiler::compile_spec;
use crate::cpu::instruction::Instruction;
use crate::cpu::interpreter::{step_fault, step_rel};
use crate::cpu::state::{fresh_model, ExecModel};
use crate::errors::{CompileError, RuntimeError};
use crate::input::Input;

verus! {

/// The capability set of an execution strategy: compile source text, hold
/// the resulting code, and drive an execution state one instruction at a
/// time.  A single instruction-walking interpreter implements it today; the
/// contracts leave room for another strategy without touching the facade.
pub trait CPU<I: Input>: Sized {
    /// The compiled code this strategy currently holds.
    spec fn code(&self) -> Seq<Instruction>;

    /// The mathematical view of its execution state.
    spec fn model(&self) -> ExecModel;

    /// The strategy's internal invariant.
    spec fn wf(&self) -> bool;

    /// Compile `source` and replace the held code with the result, starting
    /// over from a fresh execution state; the bound input source is kept.
    /// A rejected source leaves the strategy exactly as it was.
    fn parse(&mut self, source: &str) -> (r: Result<(), CompileError>)
        requires
            old(self).wf(),
            source.spec_bytes().len() <= isize::MAX as int,
        ensures
            final(self).wf(),
            r is Ok <==> compile_spec(source.spec_bytes()) is Ok,
            r matches Ok(()) ==> {
                &&& compile_spec(source.spec_bytes()) == Ok::<Seq<Instruction>, CompileError>(
                    final(self).code(),
                )
                &&& final(self).model() == fresh_model(
                    old(self).model().inq,
                    old(self).model().infb,
                )
            },
            r matches Err(e) ==> {
                &&& compile_spec(source.spec_bytes()) == Err::<Seq<Instruction>, CompileError>(e)
                &&& *final(self) == *old(self)
            },
    ;

    /// Whether the program counter has not yet run off the end of the code,
    /// which is the only halt condition.
    fn is_running(&self) -> (r: bool)
        ensures
            r == (self.model().pc != self.code().len()),
    ;

    /// Execute exactly one instruction, as `step_rel` says; a pointer move
    /// out of the addressable range is reported as a fault and changes
    /// nothing.
    fn step(&mut self) -> (r: Result<(), RuntimeError>)
        requires
            old(self).wf(),
            old(self).model().pc != old(self).code().len(),
        ensures
            final(self).wf(),
            final(self).code() == old(self).code(),
            r matches Ok(()) ==> step_rel(old(self).code(), old(self).model(), final(self).model()),
            r matches Err(e) ==> {
                &&& *final(self) == *old(self)
                &&& step_fault(old(self).code(), old(self).model())
                &&& e == RuntimeError::PointerOutOfRange
            },
    ;

    /// Borrow the execution state.
    fn get_state(&self) -> (r: &State<I>)
        ensures
            r.model() == self.model(),
    ;

    /// Replace the execution state wholesale.
    fn set_state(&mut self, state: State<I>)
        requires
            old(self).wf(),
            state.wf(),
            state.pc <= old(self).code().len(),
        ensures
            final(self).wf(),
            final(self).code() == old(self).code(),
            final(self).model() == state.model(),
    ;
}

} // verus!
