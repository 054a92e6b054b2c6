use brainfuck_vm::indexed::{Indexed, LLOp, ToVec};
use brainfuck_vm::numbers::Counter;
use brainfuck_vm::operators::Add;

fn string(tape: &Indexed) -> Result<String, brainfuck_vm::indexed::InvalidCharError> {
    brainfuck_vm::indexed::Debug::string(tape)
}

#[test]
fn decodes_ascii() {
    let output = Indexed::from_values(0, &[72, 105, 33]);
    assert_eq!(output.to_string().unwrap(), "Hi!");
    assert_eq!(string(&output).unwrap(), "Hi!");
}

#[test]
fn decodes_empty_output() {
    let output = Indexed::new();
    assert_eq!(output.to_string().unwrap(), "");
}

#[test]
fn decodes_multi_byte_text() {
    // U+00E9 and U+20AC in UTF-8
    let output = Indexed::from_values(0, &[0xC3, 0xA9, 0xE2, 0x82, 0xAC]);
    let text = output.to_string().unwrap();
    assert_eq!(text, "\u{e9}\u{20ac}");
    assert_eq!(text.as_bytes(), [0xC3, 0xA9, 0xE2, 0x82, 0xAC]);
}

#[test]
fn keeps_bytes_in_order() {
    let values: Vec<usize> = (0..128).collect();
    let output = Indexed::from_values(0, &values);
    let text = output.to_string().unwrap();
    let expected: Vec<u8> = (0..128).collect();
    assert_eq!(text.as_bytes(), expected.as_slice());
}

#[test]
fn rejects_value_above_a_byte() {
    let output = Indexed::from_values(0, &[72, 256, 33]);
    assert!(output.to_string().is_err());
    assert!(string(&output).is_err());
    let output = Indexed::from_values(0, &[usize::MAX]);
    assert!(output.to_string().is_err());
}

#[test]
fn accepts_the_largest_ascii_value_and_rejects_lone_high_bytes() {
    let output = Indexed::from_values(0, &[127]);
    assert_eq!(output.to_string().unwrap(), "\u{7f}");
    let output = Indexed::from_values(0, &[255]);
    assert!(output.to_string().is_err());
    let output = Indexed::from_values(0, &[128]);
    assert!(output.to_string().is_err());
}

#[test]
fn rejects_malformed_utf8_as_a_whole() {
    // a leading byte without its continuation, after good text
    let output = Indexed::from_values(0, &[72, 105, 0xC3]);
    assert!(output.to_string().is_err());
    // an overlong encoding
    let output = Indexed::from_values(0, &[0xC0, 0x80]);
    assert!(output.to_string().is_err());
}

#[test]
fn rejects_value_past_machine_integers() {
    let mut output = Indexed::from_values(0, &[usize::MAX]);
    <Indexed as LLOp<Add>>::apply_at(&mut output, &Counter::zero());
    assert!(output.to_string().is_err());
}
