use vstd::prelude::*;

use crate::cpu::compiler::{compile, Program};
use crate::cpu::instruction::{is_open_placeholder, jump_ok, Instruction};
use crate::cpu::state::{
    cell_wrap_add, fresh_model, jump_step, move_fault, move_step, read_step, ExecModel, State,
};
use crate::cpu::CPU;
use crate::errors::{CompileError, RuntimeError};
use crate::input::Input;
use crate::input::StringInput;

verus! {

/// The execution state addresses a cell of a nonempty tape.
pub open spec fn valid_model(m: ExecModel) -> bool {
    &&& m.tape.len() >= 1
    &&& 0 <= m.dp < m.tape.len()
}

/// One instruction dispatched against the model, exactly as the dispatch
/// semantics say.  The relation is deterministic except for a `Read` on an
/// exhausted source with no fixed fallback, where the outside world picks
/// the byte.
pub open spec fn step_rel(code: Seq<Instruction>, m1: ExecModel, m2: ExecModel) -> bool {
    &&& valid_model(m1)
    &&& 0 <= m1.pc < code.len()
    &&& match code[m1.pc] {
        Instruction::MovePointer(d) => move_step(m1, m2, d as int),
        Instruction::AddToCell(d) => m2 == (ExecModel {
            tape: m1.tape.update(m1.dp, cell_wrap_add(m1.tape[m1.dp], d as int)),
            pc: m1.pc + 1,
            ..m1
        }),
        Instruction::ClearCell => m2 == (ExecModel {
            tape: m1.tape.update(m1.dp, 0u8),
            pc: m1.pc + 1,
            ..m1
        }),
        Instruction::Print => m2 == (ExecModel {
            out: m1.out.push(m1.tape[m1.dp]),
            pc: m1.pc + 1,
            ..m1
        }),
        Instruction::Read => read_step(m1, m2),
        Instruction::Jump(k) => jump_step(m1, m2, k as int),
    }
}

/// The one way a step can fail: a pointer move that would leave the
/// addressable range of the tape.
pub open spec fn step_fault(code: Seq<Instruction>, m: ExecModel) -> bool {
    &&& 0 <= m.pc < code.len()
    &&& code[m.pc] matches Instruction::MovePointer(d) && move_fault(m, d as int)
}

/// `m2` is reachable from `m1` in exactly `n` steps.
pub open spec fn multi_step(code: Seq<Instruction>, m1: ExecModel, m2: ExecModel, n: nat) -> bool
    decreases n,
{
    if n == 0 {
        m1 == m2
    } else {
        exists|mid: ExecModel|
            step_rel(code, m1, mid) && multi_step(code, mid, m2, (n - 1) as nat)
    }
}

/// A reachability chain extends by one step at its end.
pub proof fn lemma_multi_step_snoc(
    code: Seq<Instruction>,
    m1: ExecModel,
    m2: ExecModel,
    m3: ExecModel,
    n: nat,
)
    requires
        multi_step(code, m1, m2, n),
        step_rel(code, m2, m3),
    ensures
        multi_step(code, m1, m3, n + 1),
    decreases n,
{
    if n == 0 {
        assert(multi_step(code, m3, m3, 0));
    } else {
        let mid = choose|mid: ExecModel|
            step_rel(code, m1, mid) && multi_step(code, mid, m2, (n - 1) as nat);
        lemma_multi_step_snoc(code, mid, m2, m3, (n - 1) as nat);
    }
}

/// A step never unfixes a fixed fallback: the input source is only ever
/// popped.
pub proof fn lemma_step_keeps_fallback(code: Seq<Instruction>, m1: ExecModel, m2: ExecModel)
    requires
        step_rel(code, m1, m2),
        m1.infb is Some,
    ensures
        m2.infb == m1.infb,
{
}

/// Against an input source with a fixed fallback, the step relation is a
/// function: two steps from the same model agree.
pub proof fn lemma_step_deterministic(
    code: Seq<Instruction>,
    m: ExecModel,
    a: ExecModel,
    b: ExecModel,
)
    requires
        step_rel(code, m, a),
        step_rel(code, m, b),
        m.infb is Some,
    ensures
        a == b,
{
}

/// Determinism of whole runs: from one starting model with a fixed input
/// fallback, any two halted runs are the same run, output included.  The
/// only unfixed choice in the step relation is what an interactive source
/// serves, and a fixed fallback rules it out.
pub proof fn lemma_run_deterministic(
    code: Seq<Instruction>,
    m0: ExecModel,
    m1: ExecModel,
    m2: ExecModel,
    n1: nat,
    n2: nat,
)
    requires
        multi_step(code, m0, m1, n1),
        multi_step(code, m0, m2, n2),
        m1.pc == code.len(),
        m2.pc == code.len(),
        m0.infb is Some,
    ensures
        m1 == m2,
    decreases n1,
{
    if n1 == 0 {
        assert(m0 == m1);
        if n2 != 0 {
            let mid = choose|mid: ExecModel|
                step_rel(code, m0, mid) && multi_step(code, mid, m2, (n2 - 1) as nat);
            assert(false);
        }
    } else {
        let mid1 = choose|mid: ExecModel|
            step_rel(code, m0, mid) && multi_step(code, mid, m1, (n1 - 1) as nat);
        if n2 == 0 {
            assert(m0 == m2);
            assert(false);
        }
        let mid2 = choose|mid: ExecModel|
            step_rel(code, m0, mid) && multi_step(code, mid, m2, (n2 - 1) as nat);
        lemma_step_deterministic(code, m0, mid1, mid2);
        lemma_step_keeps_fallback(code, m0, mid1);
        lemma_run_deterministic(code, mid1, m1, m2, (n1 - 1) as nat, (n2 - 1) as nat);
    }
}

/// One pointer move leaves everything the tape already held in place: the
/// tape never shrinks, and every cell keeps its value at its old index —
/// the old tape is a prefix of the new one.
pub proof fn lemma_move_step_preserves_tape(m1: ExecModel, m2: ExecModel, d: int)
    requires
        move_step(m1, m2, d),
    ensures
        m1.tape.is_prefix_of(m2.tape),
        m2.tape.len() >= m1.tape.len(),
        forall|i: int| 0 <= i < m1.tape.len() ==> m2.tape[i] == m1.tape[i],
{
    let nd = m1.dp + d;
    if nd < m1.tape.len() {
        assert(m1.tape.is_prefix_of(m1.tape));
    } else {
        assert(m2.tape.take(m1.tape.len() as int) =~= m1.tape);
    }
    assert forall|i: int| 0 <= i < m1.tape.len() implies m2.tape[i] == m1.tape[i] by {
        assert(m2.tape.take(m1.tape.len() as int)[i] == m1.tape[i]);
    }
}

/// Tape growth preserves data: over a program made of pointer moves alone,
/// however many steps run, the tape never shrinks and every previously
/// written cell keeps its value at its old index — the old tape is a
/// prefix of the new one.
pub proof fn lemma_tape_growth_preserves_data(
    code: Seq<Instruction>,
    m1: ExecModel,
    m2: ExecModel,
    n: nat,
)
    requires
        multi_step(code, m1, m2, n),
        forall|j: int| 0 <= j < code.len() ==> code[j] is MovePointer,
    ensures
        m1.tape.is_prefix_of(m2.tape),
        m2.tape.len() >= m1.tape.len(),
        forall|i: int| 0 <= i < m1.tape.len() ==> m2.tape[i] == m1.tape[i],
    decreases n,
{
    if n == 0 {
        assert(m1.tape.take(m1.tape.len() as int) =~= m1.tape);
    } else {
        let mid = choose|mid: ExecModel|
            step_rel(code, m1, mid) && multi_step(code, mid, m2, (n - 1) as nat);
        assert(code[m1.pc] is MovePointer);
        lemma_move_step_preserves_tape(m1, mid, code[m1.pc]->MovePointer_0 as int);
        lemma_tape_growth_preserves_data(code, mid, m2, (n - 1) as nat);
        assert(m2.tape.take(m1.tape.len() as int) =~= m1.tape);
    }
    assert forall|i: int| 0 <= i < m1.tape.len() implies m2.tape[i] == m1.tape[i] by {
        assert(m2.tape.take(m1.tape.len() as int)[i] == m1.tape[i]);
    }
}

/// The instruction-walking interpreter: the one concrete execution
/// strategy.  It owns the compiled program and the execution state.
pub struct InterpreterCPU<I: Input> {
    program: Program,
    state: State<I>,
}

impl<I: Input> InterpreterCPU<I> {
    /// An interpreter with no program yet, bound to the given input source.
    pub fn with_input(input: I) -> (r: Self)
        ensures
            r.wf(),
            r.code() == Seq::<Instruction>::empty(),
            r.model() == fresh_model(input.queued(), input.fallback()),
    {
        InterpreterCPU { program: Program::empty(), state: State::new(input) }
    }

    /// The compiled program currently held.
    pub fn program(&self) -> (r: &Program)
        ensures
            r@ == self.code(),
    {
        &self.program
    }

    /// Replace the bound input source outright; the program and the rest
    /// of the execution state stay as they are.
    pub fn set_input(&mut self, input: I)
        requires
            old(self).wf(),
        ensures
            final(self).wf(),
            final(self).code() == old(self).code(),
            final(self).model() == (ExecModel {
                inq: input.queued(),
                infb: input.fallback(),
                ..old(self).model()
            }),
    {
        self.state.input = input;
        proof {
            assert(self.model() =~= ExecModel {
                inq: self.state.input.queued(),
                infb: self.state.input.fallback(),
                ..old(self).model()
            });
        }
    }

    /// Replace the execution state with a fresh one; the program is kept
    /// and the input source continues from wherever it left off.
    pub fn reset(&mut self)
        requires
            old(self).wf(),
        ensures
            final(self).wf(),
            final(self).code() == old(self).code(),
            final(self).model() == fresh_model(old(self).model().inq, old(self).model().infb),
    {
        self.state.reset();
    }
}

impl InterpreterCPU<StringInput> {
    /// An interpreter with no program and an exhausted buffered input
    /// source, the default binding.
    pub fn new() -> (r: Self)
        ensures
            r.wf(),
            r.code() == Seq::<Instruction>::empty(),
            r.model().inq.len() == 0,
            r.model().infb == Some(0x0Au8),
            r.model() == fresh_model(r.model().inq, r.model().infb),
    {
        let input = StringInput::new("");
        proof {
            reveal_strlit("");
            assert(""@.len() == 0);
            assert(vstd::utf8::encode_utf8(""@) =~= Seq::<u8>::empty());
        }
        InterpreterCPU::with_input(input)
    }
}

impl<I: Input> CPU<I> for InterpreterCPU<I> {
    closed spec fn code(&self) -> Seq<Instruction> {
        self.program@
    }

    closed spec fn model(&self) -> ExecModel {
        self.state.model()
    }

    closed spec fn wf(&self) -> bool {
        &&& self.state.wf()
        &&& self.program.wf()
        &&& self.state.pc <= self.program@.len()
    }

    fn parse(&mut self, source: &str) -> (r: Result<(), CompileError>) {
        match compile(source) {
            Ok(program) => {
                self.program = program;
                self.state.reset();
                Ok(())
            },
            Err(e) => Err(e),
        }
    }

    fn is_running(&self) -> (r: bool) {
        self.state.pc != self.program.len()
    }

    fn step(&mut self) -> (r: Result<(), RuntimeError>) {
        let pc = self.state.pc;
        let instruction = self.program.get(pc);
        match instruction {
            Instruction::MovePointer(d) => {
                let moved = self.state.op_add_to_dp(d);
                match moved {
                    Ok(()) => Ok(()),
                    Err(e) => Err(e),
                }
            },
            Instruction::AddToCell(d) => {
                self.state.op_add_to_data(d);
                Ok(())
            },
            Instruction::ClearCell => {
                self.state.op_clear_cell();
                Ok(())
            },
            Instruction::Print => {
                self.state.op_print();
                Ok(())
            },
            Instruction::Read => {
                self.state.op_read();
                Ok(())
            },
            Instruction::Jump(k) => {
                proof {
                    assert(jump_ok(self.program@, pc as int));
                    assert(!is_open_placeholder(self.program@[pc as int]));
                }
                self.state.op_jump(k);
                Ok(())
            },
        }
    }

    fn get_state(&self) -> (r: &State<I>) {
        &self.state
    }

    fn set_state(&mut self, state: State<I>) {
        self.state = state;
    }
}

} // verus!
