use bf::cpu::{InterpreterCPU, CPU};
use bf::errors::RuntimeError;
use bf::input::StringInput;

fn run_to_halt(cpu: &mut InterpreterCPU<StringInput>) {
    while cpu.is_running() {
        cpu.step().expect("step should not fault");
    }
}

#[test]
fn fresh_state_has_one_zeroed_cell() {
    let cpu = InterpreterCPU::new();
    let state = cpu.get_state();
    assert_eq!(state.data, vec![0u8]);
    assert_eq!(state.pc, 0);
    assert_eq!(state.dp, 0);
    assert!(state.output.is_empty());
}

#[test]
fn tape_growth_preserves_data() {
    let mut cpu = InterpreterCPU::new();
    // Write 5 to cell 0 and 3 to cell 1, then move far right to force
    // repeated doubling.
    cpu.parse("+++++>+++>>>>>>>>").expect("should compile");
    run_to_halt(&mut cpu);
    let state = cpu.get_state();
    assert_eq!(state.data[0], 5);
    assert_eq!(state.data[1], 3);
    assert_eq!(state.dp, 9);
    assert!(state.data.len() > 9);
    for i in 2..state.data.len() {
        assert_eq!(state.data[i], 0);
    }
}

#[test]
fn tape_grows_by_doubling() {
    let mut cpu = InterpreterCPU::new();
    cpu.parse(">>>>>").expect("should compile");
    run_to_halt(&mut cpu);
    // One cell doubled until index 5 is addressable: 1 -> 2 -> 4 -> 8.
    assert_eq!(cpu.get_state().data.len(), 8);
}

#[test]
fn cells_wrap_at_the_byte_width() {
    let mut cpu = InterpreterCPU::new();
    cpu.parse("-").expect("should compile");
    run_to_halt(&mut cpu);
    assert_eq!(cpu.get_state().data[0], 255);
}

#[test]
fn pointer_move_below_zero_faults() {
    let mut cpu = InterpreterCPU::new();
    cpu.parse("<").expect("should compile");
    assert!(cpu.is_running());
    assert_eq!(cpu.step().unwrap_err(), RuntimeError::PointerOutOfRange);
    // The fault leaves the state untouched and the engine still running.
    assert!(cpu.is_running());
    assert_eq!(cpu.get_state().pc, 0);
    assert_eq!(cpu.get_state().dp, 0);
}

#[test]
fn reset_gives_fresh_state_and_keeps_input() {
    let mut cpu = InterpreterCPU::with_input(StringInput::new("AB"));
    cpu.parse(",.").expect("should compile");
    run_to_halt(&mut cpu);
    assert_eq!(cpu.get_state().output, vec![b'A']);
    cpu.reset();
    let state = cpu.get_state();
    assert_eq!(state.data, vec![0u8]);
    assert_eq!(state.pc, 0);
    assert_eq!(state.dp, 0);
    assert!(state.output.is_empty());
    // The input source was not reset: it continues with the next byte.
    run_to_halt(&mut cpu);
    assert_eq!(cpu.get_state().output, vec![b'B']);
}

#[test]
fn parse_replaces_program_and_state() {
    let mut cpu = InterpreterCPU::new();
    cpu.parse("+.").expect("should compile");
    run_to_halt(&mut cpu);
    assert_eq!(cpu.get_state().output, vec![1u8]);
    cpu.parse("++.").expect("should compile");
    assert_eq!(cpu.get_state().output, vec![] as Vec<u8>);
    run_to_halt(&mut cpu);
    assert_eq!(cpu.get_state().output, vec![2u8]);
}

#[test]
fn rejected_parse_leaves_program_loaded() {
    let mut cpu = InterpreterCPU::new();
    cpu.parse("+.").expect("should compile");
    assert!(cpu.parse("[").is_err());
    run_to_halt(&mut cpu);
    assert_eq!(cpu.get_state().output, vec![1u8]);
}

#[test]
fn set_state_swaps_the_execution_state() {
    let mut cpu = InterpreterCPU::new();
    cpu.parse("+.").expect("should compile");
    run_to_halt(&mut cpu);
    assert!(!cpu.is_running());
    let fresh = bf::cpu::State::new(StringInput::new(""));
    cpu.set_state(fresh);
    assert!(cpu.is_running());
    run_to_halt(&mut cpu);
    assert_eq!(cpu.get_state().output, vec![1u8]);
}
