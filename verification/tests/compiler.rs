use bf::cpu::compiler::{compile, Program};
use bf::cpu::instruction::Instruction;
use bf::errors::CompileError;

fn code_of(source: &str) -> Vec<Instruction> {
    let program: Program = compile(source).expect("source should compile");
    program.instructions().clone()
}

#[test]
fn run_length_fusion_moves() {
    assert_eq!(code_of(">>>"), vec![Instruction::MovePointer(3)]);
}

#[test]
fn run_length_fusion_cancels() {
    assert_eq!(code_of("+-"), vec![]);
}

#[test]
fn run_length_fusion_adds() {
    assert_eq!(code_of("+++"), vec![Instruction::AddToCell(3)]);
    assert_eq!(code_of("--"), vec![Instruction::AddToCell(-2)]);
}

#[test]
fn run_length_fusion_mixed_cancellation() {
    assert_eq!(code_of(">>><<<"), vec![]);
    assert_eq!(code_of("+-+"), vec![Instruction::AddToCell(1)]);
}

#[test]
fn insignificant_bytes_are_ignored() {
    assert_eq!(code_of("a b\nc! #%"), vec![]);
    assert_eq!(code_of("+ comment +"), vec![Instruction::AddToCell(2)]);
}

#[test]
fn print_and_read_never_fuse() {
    assert_eq!(code_of(".."), vec![Instruction::Print, Instruction::Print]);
    assert_eq!(code_of(",,"), vec![Instruction::Read, Instruction::Read]);
}

#[test]
fn peephole_clear_cell_minus() {
    assert_eq!(code_of("[-]"), vec![Instruction::ClearCell]);
}

#[test]
fn peephole_clear_cell_plus() {
    assert_eq!(code_of("[+]"), vec![Instruction::ClearCell]);
}

#[test]
fn peephole_needs_single_step_body() {
    assert_eq!(
        code_of("[--]"),
        vec![
            Instruction::Jump(2),
            Instruction::AddToCell(-2),
            Instruction::Jump(-2)
        ]
    );
}

#[test]
fn empty_loop_is_elided() {
    assert_eq!(code_of("[]"), vec![]);
    assert_eq!(code_of("+[]+"), vec![Instruction::AddToCell(2)]);
}

#[test]
fn jump_offsets_are_symmetric() {
    let code = code_of("[.]");
    assert_eq!(
        code,
        vec![
            Instruction::Jump(2),
            Instruction::Print,
            Instruction::Jump(-2)
        ]
    );
    for (i, ins) in code.iter().enumerate() {
        if let Instruction::Jump(k) = ins {
            let partner = (i as isize + k) as usize;
            assert_eq!(code[partner], Instruction::Jump(-k));
        }
    }
}

#[test]
fn jump_offsets_are_symmetric_nested() {
    let code = code_of("+[>[.]<-]");
    for (i, ins) in code.iter().enumerate() {
        if let Instruction::Jump(k) = ins {
            assert_ne!(*k, 0);
            let partner = (i as isize + k) as usize;
            assert_eq!(code[partner], Instruction::Jump(-k));
        }
    }
}

#[test]
fn unmatched_open_is_rejected() {
    assert_eq!(compile("[").unwrap_err(), CompileError::UnmatchedOpen);
    assert_eq!(compile("+[->").unwrap_err(), CompileError::UnmatchedOpen);
    assert_eq!(compile("[[]").unwrap_err(), CompileError::UnmatchedOpen);
}

#[test]
fn unmatched_close_is_rejected() {
    assert_eq!(compile("]").unwrap_err(), CompileError::UnmatchedClose);
    assert_eq!(compile("][").unwrap_err(), CompileError::UnmatchedClose);
    assert_eq!(compile("+]-").unwrap_err(), CompileError::UnmatchedClose);
}

#[test]
fn close_before_open_is_unmatched_close() {
    // The first offending bracket decides the error: the close comes first.
    assert_eq!(compile("]]][[[").unwrap_err(), CompileError::UnmatchedClose);
}

#[test]
fn compilation_is_deterministic() {
    let source = "++++++++[>++++++++<-]>.";
    assert_eq!(code_of(source), code_of(source));
}

#[test]
fn compile_error_messages_are_nonempty() {
    assert!(!CompileError::UnmatchedOpen.message().is_empty());
    assert!(!CompileError::UnmatchedClose.message().is_empty());
}
