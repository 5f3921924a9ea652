use bf::errors::{CompileError, EncodingError, RuntimeError};
use bf::input::StringInput;
use bf::Emulator;

#[test]
fn end_to_end_at_sign() {
    let mut emulator = Emulator::new();
    emulator
        .load_from_string("++++++++[>++++++++<-]>.")
        .expect("should compile");
    emulator.run().expect("should halt");
    assert_eq!(emulator.get_output(), vec![64u8]);
    assert_eq!(emulator.get_output_as_string().unwrap(), "@");
}

#[test]
fn end_to_end_single_increment() {
    let mut emulator = Emulator::new();
    emulator.load_from_string("+.").expect("should compile");
    emulator.run().expect("should halt");
    assert_eq!(emulator.get_output(), vec![1u8]);
}

#[test]
fn end_to_end_echo_buffered_input() {
    let mut emulator = Emulator::new();
    emulator.set_input(StringInput::new("A"));
    emulator.load_from_string(",.").expect("should compile");
    emulator.run().expect("should halt");
    assert_eq!(emulator.get_output(), b"A".to_vec());
}

#[test]
fn end_to_end_exhausted_input_serves_newline() {
    let mut emulator = Emulator::new();
    emulator.set_input(StringInput::new(""));
    emulator.load_from_string(",.").expect("should compile");
    emulator.run().expect("should halt");
    assert_eq!(emulator.get_output(), vec![0x0Au8]);
}

#[test]
fn runs_are_deterministic() {
    let source = "+++[>+++<-]>.";
    let mut first = Emulator::new();
    first.load_from_string(source).expect("should compile");
    first.run().expect("should halt");
    let mut second = Emulator::new();
    second.load_from_string(source).expect("should compile");
    second.run().expect("should halt");
    assert_eq!(first.get_output(), second.get_output());
    assert_eq!(first.get_output(), vec![9u8]);
}

#[test]
fn reset_clears_everything_but_program_and_input() {
    let mut emulator = Emulator::new();
    emulator.set_input(StringInput::new("XY"));
    emulator.load_from_string(",.").expect("should compile");
    emulator.run().expect("should halt");
    assert_eq!(emulator.get_output(), b"X".to_vec());
    emulator.reset();
    assert!(emulator.get_output().is_empty());
    assert!(emulator.running());
    // The program is retained and the input source continues where it
    // left off.
    emulator.run().expect("should halt");
    assert_eq!(emulator.get_output(), b"Y".to_vec());
}

#[test]
fn load_error_keeps_the_emulator_as_it_was() {
    let mut emulator = Emulator::new();
    emulator.load_from_string("+.").expect("should compile");
    assert_eq!(
        emulator.load_from_string("]").unwrap_err(),
        CompileError::UnmatchedClose
    );
    emulator.run().expect("should halt");
    assert_eq!(emulator.get_output(), vec![1u8]);
}

#[test]
fn invalid_utf8_output_is_an_encoding_error() {
    let mut emulator = Emulator::new();
    emulator.load_from_string("-.").expect("should compile");
    emulator.run().expect("should halt");
    assert_eq!(emulator.get_output(), vec![255u8]);
    assert_eq!(
        emulator.get_output_as_string().unwrap_err(),
        EncodingError::InvalidUtf8
    );
}

#[test]
fn pointer_underflow_surfaces_as_runtime_error() {
    let mut emulator = Emulator::new();
    emulator.load_from_string("+<.").expect("should compile");
    assert_eq!(
        emulator.run().unwrap_err(),
        RuntimeError::PointerOutOfRange
    );
    // The faulting run stops before the print.
    assert!(emulator.get_output().is_empty());
    assert!(emulator.running());
}

#[test]
fn empty_program_halts_immediately() {
    let mut emulator = Emulator::new();
    assert!(!emulator.running());
    emulator.run().expect("should halt");
    assert!(emulator.get_output().is_empty());
    assert_eq!(emulator.get_output_as_string().unwrap(), "");
}

#[test]
fn with_input_binds_the_given_source() {
    let mut emulator = Emulator::with_input(StringInput::new("hi"));
    emulator.load_from_string(",.,.").expect("should compile");
    emulator.run().expect("should halt");
    assert_eq!(emulator.get_output_as_string().unwrap(), "hi");
}

#[test]
fn runtime_error_messages_are_nonempty() {
    assert!(!RuntimeError::PointerOutOfRange.message().is_empty());
    assert!(!RuntimeError::StepLimitExceeded.message().is_empty());
    assert!(!EncodingError::InvalidUtf8.message().is_empty());
}
