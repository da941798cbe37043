use brainfuck::AstNode;
use brainfuck::interp::Machine;
use brainfuck::interp::RuntimeError;
use brainfuck::interp::do_sequence;
use brainfuck::interp::interpret;
use brainfuck::parser::build_sequence;

fn line(s: &str) -> Vec<char> {
    s.chars().collect()
}

fn repeated_increments(n: usize) -> Vec<AstNode> {
    let mut prog = Vec::new();
    for _ in 0..n {
        prog.push(AstNode::Increment);
    }
    prog
}

#[test]
fn increment_wraps_from_255_to_0() {
    let prog = build_sequence("-+").unwrap();
    let m = interpret(1, &prog, Vec::new()).unwrap();
    assert_eq!(m.tape[0], 0);
}

#[test]
fn decrement_wraps_from_0_to_255() {
    let prog = build_sequence("-").unwrap();
    let m = interpret(1, &prog, Vec::new()).unwrap();
    assert_eq!(m.tape[0], 255);
}

#[test]
fn loop_drains_cell_to_zero() {
    let prog = build_sequence("+++[-]").unwrap();
    let m = interpret(1, &prog, Vec::new()).unwrap();
    assert_eq!(m.tape[0], 0);
}

#[test]
fn loop_rechecks_live_cursor_cell() {
    // Adds cell 0 into cell 1; each iteration re-reads the cell the cursor
    // then stands on.
    let prog = build_sequence("+>+<[->+<]").unwrap();
    let m = interpret(2, &prog, Vec::new()).unwrap();
    assert_eq!(m.tape[0], 0);
    assert_eq!(m.tape[1], 2);
    assert_eq!(m.cursor, 0);
}

#[test]
fn prints_capital_a() {
    let prog = build_sequence("++++++++[>++++++++<-]>+.").unwrap();
    let m = interpret(2048, &prog, Vec::new()).unwrap();
    assert_eq!(m.output, vec![65u8]);
}

#[test]
fn numeric_input_stores_parsed_value() {
    let prog = vec![AstNode::In];
    let m = interpret(1, &prog, vec![line("65")]).unwrap();
    assert_eq!(m.tape[0], 65);
}

#[test]
fn numeric_input_reduces_modulo_256() {
    let prog = vec![AstNode::In];
    let m = interpret(1, &prog, vec![line("321")]).unwrap();
    assert_eq!(m.tape[0], 65);
}

#[test]
fn numeric_input_rejects_non_digits() {
    let prog = vec![AstNode::In];
    let r = interpret(1, &prog, vec![line("6a")]);
    assert_eq!(r.unwrap_err(), RuntimeError::InvalidNumericInput);
}

#[test]
fn ascii_input_stores_first_character() {
    let prog = build_sequence(",").unwrap();
    let m = interpret(1, &prog, vec![line("65")]).unwrap();
    assert_eq!(m.tape[0], b'6');
}

#[test]
fn input_exhausted_without_a_line() {
    let prog = build_sequence(",").unwrap();
    let r = interpret(1, &prog, Vec::new());
    assert_eq!(r.unwrap_err(), RuntimeError::InputExhausted);
}

#[test]
fn ascii_input_rejects_empty_line() {
    let prog = build_sequence(",").unwrap();
    let r = interpret(1, &prog, vec![line("")]);
    assert_eq!(r.unwrap_err(), RuntimeError::EmptyInputLine);
}

#[test]
fn numeric_output_writes_decimal_digits() {
    let mut prog = repeated_increments(123);
    prog.push(AstNode::Out);
    let m = interpret(1, &prog, Vec::new()).unwrap();
    assert_eq!(m.output, b"123".to_vec());
}

#[test]
fn numeric_output_of_single_digit() {
    let mut prog = repeated_increments(7);
    prog.push(AstNode::Out);
    let m = interpret(1, &prog, Vec::new()).unwrap();
    assert_eq!(m.output, b"7".to_vec());
}

#[test]
fn ascii_output_skips_non_ascii_cell() {
    let mut prog = repeated_increments(200);
    prog.push(AstNode::AsciiOut);
    let m = interpret(1, &prog, Vec::new()).unwrap();
    assert_eq!(m.output, Vec::<u8>::new());
}

#[test]
fn moving_below_cell_zero_fails() {
    let prog = build_sequence("<").unwrap();
    let r = interpret(1, &prog, Vec::new());
    assert_eq!(r.unwrap_err(), RuntimeError::CursorUnderflow);
}

#[test]
fn touching_a_cell_past_the_tape_fails() {
    let prog = build_sequence(">+").unwrap();
    let r = interpret(1, &prog, Vec::new());
    assert_eq!(r.unwrap_err(), RuntimeError::OutOfBounds);
}

#[test]
fn moving_past_the_largest_index_fails() {
    let prog = build_sequence(">").unwrap();
    let mut m = Machine::new(1, Vec::new());
    m.cursor = usize::MAX;
    let r = do_sequence(&mut m, &prog, 1000);
    assert_eq!(r.unwrap_err(), RuntimeError::CursorOverflow);
}

#[test]
fn fuel_bounds_loop_iterations() {
    let prog = build_sequence("+[]").unwrap();
    let mut m = Machine::new(1, Vec::new());
    let r = do_sequence(&mut m, &prog, 5);
    assert_eq!(r.unwrap_err(), RuntimeError::StepLimit);
}

#[test]
fn empty_program_leaves_machine_fresh() {
    let prog = build_sequence("").unwrap();
    let m = interpret(3, &prog, Vec::new()).unwrap();
    assert_eq!(m.tape, vec![0u8, 0, 0]);
    assert_eq!(m.cursor, 0);
    assert_eq!(m.output, Vec::<u8>::new());
}
