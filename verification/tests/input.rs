use bf::input::{Input, StdinInput, StringInput};

#[test]
fn buffered_input_serves_its_bytes_in_order() {
    let mut input = StringInput::new("abc");
    assert_eq!(input.read(), b'a');
    assert_eq!(input.read(), b'b');
    assert_eq!(input.read(), b'c');
}

#[test]
fn exhausted_buffered_input_serves_newlines_forever() {
    let mut input = StringInput::new("x");
    assert_eq!(input.read(), b'x');
    assert_eq!(input.read(), 0x0A);
    assert_eq!(input.read(), 0x0A);
    assert_eq!(input.read(), 0x0A);
}

#[test]
fn empty_buffered_input_serves_newlines_immediately() {
    let mut input = StringInput::new("");
    assert_eq!(input.read(), 0x0A);
}

#[test]
fn buffered_input_takes_bytes_not_characters() {
    // A multi-byte character is served byte by byte.
    let mut input = StringInput::new("é");
    assert_eq!(input.read(), 0xC3);
    assert_eq!(input.read(), 0xA9);
    assert_eq!(input.read(), 0x0A);
}

#[test]
fn interactive_input_constructs_empty() {
    let _input = StdinInput::new();
}

#[test]
fn served_line_comes_front_first_newline_included() {
    let mut input = StdinInput::new();
    let first = input.serve_line(vec![b'h', b'i', 0x0A]);
    assert_eq!(first, b'h');
    // The rest of the line, newline included, is queued up in order.
    assert_eq!(input.read(), b'i');
    assert_eq!(input.read(), 0x0A);
}

#[test]
fn serving_an_empty_line_degrades_to_newline() {
    let mut input = StdinInput::new();
    assert_eq!(input.serve_line(vec![]), 0x0A);
    let follow_up = input.serve_line(vec![b'z']);
    assert_eq!(follow_up, b'z');
}
