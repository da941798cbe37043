use vstd::prelude::*;

use crate::ast::AstNode;
use crate::ast::LogicSequence;
use crate::ast::Node;
use crate::ast::node_view;
use crate::ast::nodes_view;

verus! {

/// A reason why a run stopped before the end of the program.
#[derive(Clone, Copy, Debug, PartialEq, Eq, Structural)]
pub enum RuntimeError {
    /// An instruction read or wrote the cell under the cursor while the
    /// cursor stood at or past the end of the tape.
    OutOfBounds,
    /// `Backward` was executed with the cursor already at cell 0.
    CursorUnderflow,
    /// `Forward` was executed with the cursor at the largest index the
    /// machine can represent.
    CursorOverflow,
    /// An input instruction ran after the last input line was consumed.
    InputExhausted,
    /// `In` read a line that is not a plain decimal number.
    InvalidNumericInput,
    /// `AsciiIn` read an empty line, which has no first character.
    EmptyInputLine,
    /// The step bound of the run was reached before the program ended.
    StepLimit,
}

/// Mathematical model of the machine: the tape, the cursor, the input lines
/// not yet consumed (`input` from index `in_pos` on), and the bytes written
/// so far.
#[verifier::ext_equal]
pub ghost struct MachineView {
    pub tape: Seq<u8>,
    pub cursor: nat,
    pub input: Seq<Seq<char>>,
    pub in_pos: nat,
    pub output: Seq<u8>,
}

/// The machine a run acts on. The tape length is fixed for the whole run;
/// console input is modelled as a sequence of lines (without their newlines)
/// and console output as the sequence of bytes written.
#[derive(Debug)]
pub struct Machine {
    pub tape: Vec<u8>,
    pub cursor: usize,
    pub input: Vec<Vec<char>>,
    pub in_pos: usize,
    pub output: Vec<u8>,
}

impl View for Machine {
    type V = MachineView;

    open spec fn view(&self) -> MachineView {
        MachineView {
            tape: self.tape@,
            cursor: self.cursor as nat,
            input: self.input.deep_view(),
            in_pos: self.in_pos as nat,
            output: self.output@,
        }
    }
}

/// The machine a run starts from: `size` zeroed cells, cursor on cell 0, no
/// input consumed, nothing written.
pub open spec fn init_machine(size: nat, input: Seq<Seq<char>>) -> MachineView {
    MachineView {
        tape: Seq::new(size, |i: int| 0u8),
        cursor: 0,
        input: input,
        in_pos: 0,
        output: Seq::empty(),
    }
}

/// What a run of an instruction or a sequence ends in: a machine state, or a
/// runtime error.
pub ghost enum RunOutcome {
    Done(MachineView),
    Fail(RuntimeError),
}

/// Whether the cursor stands on a cell of the tape.
pub open spec fn cursor_ok(m: MachineView) -> bool {
    m.cursor < m.tape.len()
}

/// The cell under the cursor.
pub open spec fn cell(m: MachineView) -> u8 {
    m.tape[m.cursor as int]
}

/// The machine with the cell under the cursor replaced by `v`.
pub open spec fn with_cell(m: MachineView, v: u8) -> MachineView {
    MachineView { tape: m.tape.update(m.cursor as int, v), ..m }
}

/// Whether `c` is a decimal digit.
pub open spec fn is_digit_char(c: char) -> bool {
    48 <= c as u32 <= 57
}

/// The value of the decimal digit `c`.
pub open spec fn digit_val(c: char) -> nat {
    (c as u32 - 48) as nat
}

/// Whether a line is a plain decimal number: nonempty and all digits.
pub open spec fn is_numeric_line(s: Seq<char>) -> bool {
    s.len() > 0 && forall|i: int| 0 <= i < s.len() ==> is_digit_char(#[trigger] s[i])
}

/// The number a line of decimal digits denotes.
pub open spec fn numeric_line_value(s: Seq<char>) -> nat
    decreases s,
{
    if s.len() == 0 {
        0
    } else {
        numeric_line_value(s.drop_last()) * 10 + digit_val(s.last())
    }
}

/// The decimal digits of `v`, as the bytes `NumericOutput` writes.
pub open spec fn dec_bytes(v: u8) -> Seq<u8> {
    if v < 10 {
        seq![(48 + v) as u8]
    } else if v < 100 {
        seq![(48 + v / 10) as u8, (48 + v % 10) as u8]
    } else {
        seq![(48 + v / 100) as u8, (48 + (v / 10) % 10) as u8, (48 + v % 10) as u8]
    }
}

/// What executing one instruction does to the machine. `fuel` bounds how
/// often any loop may iterate; only a loop iteration consumes fuel.
///
/// The loop condition is re-read from the cell under the cursor at the start
/// of every iteration, so a body that moves the cursor makes later iterations
/// test other cells.
pub open spec fn run_node(n: Node, m: MachineView, fuel: nat) -> RunOutcome
    decreases fuel, 0nat, 0nat,
{
    match n {
        Node::Increment => if cursor_ok(m) {
            RunOutcome::Done(with_cell(m, ((cell(m) + 1) % 256) as u8))
        } else {
            RunOutcome::Fail(RuntimeError::OutOfBounds)
        },
        Node::Decrement => if cursor_ok(m) {
            RunOutcome::Done(with_cell(m, ((cell(m) + 255) % 256) as u8))
        } else {
            RunOutcome::Fail(RuntimeError::OutOfBounds)
        },
        Node::Forward => if m.cursor + 1 <= usize::MAX {
            RunOutcome::Done(MachineView { cursor: m.cursor + 1, ..m })
        } else {
            RunOutcome::Fail(RuntimeError::CursorOverflow)
        },
        Node::Backward => if m.cursor >= 1 {
            RunOutcome::Done(MachineView { cursor: (m.cursor - 1) as nat, ..m })
        } else {
            RunOutcome::Fail(RuntimeError::CursorUnderflow)
        },
        Node::In => if !cursor_ok(m) {
            RunOutcome::Fail(RuntimeError::OutOfBounds)
        } else if m.in_pos >= m.input.len() {
            RunOutcome::Fail(RuntimeError::InputExhausted)
        } else if is_numeric_line(m.input[m.in_pos as int]) {
            RunOutcome::Done(
                MachineView {
                    in_pos: m.in_pos + 1,
                    ..with_cell(
                        m,
                        (numeric_line_value(m.input[m.in_pos as int]) % 256) as u8,
                    )
                },
            )
        } else {
            RunOutcome::Fail(RuntimeError::InvalidNumericInput)
        },
        Node::AsciiIn => if !cursor_ok(m) {
            RunOutcome::Fail(RuntimeError::OutOfBounds)
        } else if m.in_pos >= m.input.len() {
            RunOutcome::Fail(RuntimeError::InputExhausted)
        } else if m.input[m.in_pos as int].len() == 0 {
            RunOutcome::Fail(RuntimeError::EmptyInputLine)
        } else {
            RunOutcome::Done(
                MachineView {
                    in_pos: m.in_pos + 1,
                    ..with_cell(m, (m.input[m.in_pos as int][0] as u32 % 256) as u8)
                },
            )
        },
        Node::Out => if cursor_ok(m) {
            RunOutcome::Done(MachineView { output: m.output + dec_bytes(cell(m)), ..m })
        } else {
            RunOutcome::Fail(RuntimeError::OutOfBounds)
        },
        Node::AsciiOut => if cursor_ok(m) {
            if cell(m) < 128 {
                RunOutcome::Done(MachineView { output: m.output.push(cell(m)), ..m })
            } else {
                RunOutcome::Done(m)
            }
        } else {
            RunOutcome::Fail(RuntimeError::OutOfBounds)
        },
        Node::Loop(body) => if !cursor_ok(m) {
            RunOutcome::Fail(RuntimeError::OutOfBounds)
        } else if cell(m) == 0 {
            RunOutcome::Done(m)
        } else if fuel == 0 {
            RunOutcome::Fail(RuntimeError::StepLimit)
        } else {
            match run_seq(body, m, (fuel - 1) as nat) {
                RunOutcome::Done(m1) => run_node(Node::Loop(body), m1, (fuel - 1) as nat),
                r => r,
            }
        },
    }
}

/// What executing a sequence of instructions does to the machine: each
/// instruction in order, stopping at the first failure.
pub open spec fn run_seq(s: Seq<Node>, m: MachineView, fuel: nat) -> RunOutcome
    decreases fuel, 1nat, s.len(),
{
    if s.len() == 0 {
        RunOutcome::Done(m)
    } else {
        match run_node(s[0], m, fuel) {
            RunOutcome::Done(m1) => run_seq(s.drop_first(), m1, fuel),
            r => r,
        }
    }
}

/// The model of a line of input is its character sequence.
proof fn lemma_line_model(v: Vec<char>)
    ensures
        v.deep_view() == v@,
{
    assert(v.deep_view() =~= v@);
}

/// Taking a digit step under `% 256` loses nothing: the reduced accumulator
/// leads to the same reduced value as the full one.
proof fn lemma_mod_step(x: int, d: int)
    requires
        x >= 0,
        0 <= d < 256,
    ensures
        ((x % 256) * 10 + d) % 256 == (x * 10 + d) % 256,
{
    vstd::arithmetic::div_mod::lemma_mul_mod_noop_left(x, 10, 256);
    vstd::arithmetic::div_mod::lemma_add_mod_noop((x % 256) * 10, d, 256);
    vstd::arithmetic::div_mod::lemma_add_mod_noop(x * 10, d, 256);
}

/// Reads a whole line as a decimal number reduced to the range of a cell, or
/// reports that the line is not a plain decimal number.
fn numeric_cell_value(line: &Vec<char>) -> (r: Option<u8>)
    ensures
        match r {
            Some(b) => is_numeric_line(line@) && b as nat == numeric_line_value(line@) % 256,
            None => !is_numeric_line(line@),
        },
{
    if line.len() == 0 {
        return None;
    }
    let mut acc: u16 = 0;
    let mut i: usize = 0;
    while i < line.len()
        invariant
            i <= line.len(),
            acc < 256,
            forall|j: int| 0 <= j < i ==> is_digit_char(#[trigger] line@[j]),
            acc as int == numeric_line_value(line@.subrange(0, i as int)) % 256,
        decreases line.len() - i,
    {
        let c = line[i];
        let code = c as u32;
        if code < 48 || code > 57 {
            return None;
        }
        let d: u16 = (code - 48) as u16;
        proof {
            let prefix = line@.subrange(0, i as int);
            let full = line@.subrange(0, i as int + 1);
            assert(full.drop_last() =~= prefix);
            assert(full.last() == line@[i as int]);
            lemma_mod_step(numeric_line_value(prefix) as int, digit_val(line@[i as int]) as int);
        }
        acc = (acc * 10 + d) % 256;
        i += 1;
    }
    proof {
        assert(line@.subrange(0, line@.len() as int) =~= line@);
    }
    Some(acc as u8)
}

impl Machine {
    /// A fresh machine: `stack_size` zeroed cells, cursor on cell 0, the
    /// given input lines, nothing written yet.
    pub fn new(stack_size: usize, input: Vec<Vec<char>>) -> (m: Machine)
        ensures
            m@ == init_machine(stack_size as nat, input.deep_view()),
    {
        let ghost input_model = input.deep_view();
        let mut tape: Vec<u8> = Vec::new();
        let mut i: usize = 0;
        while i < stack_size
            invariant
                i <= stack_size,
                tape@.len() == i,
                forall|j: int| 0 <= j < i ==> tape@[j] == 0u8,
            decreases stack_size - i,
        {
            tape.push(0);
            i += 1;
        }
        let m = Machine { tape, cursor: 0, input, in_pos: 0, output: Vec::new() };
        proof {
            assert(m@ =~= init_machine(stack_size as nat, input_model));
        }
        m
    }
}

/// Executes a sequence of instructions against the machine, with at most
/// `fuel` iterations of any one loop. On success the machine afterwards is
/// exactly what [`run_seq`] says of the sequence's model, and the run fails
/// with an error exactly when [`run_seq`] says it fails with that error.
#[verifier::loop_isolation(false)]
pub fn do_sequence(m: &mut Machine, sequence: &LogicSequence, fuel: u64) -> (r: Result<
    (),
    RuntimeError,
>)
    ensures
        match r {
            Ok(_) => run_seq(nodes_view(sequence@), old(m)@, fuel as nat) == RunOutcome::Done(
                final(m)@,
            ),
            Err(e) => run_seq(nodes_view(sequence@), old(m)@, fuel as nat) == RunOutcome::Fail(e),
        },
    decreases fuel,
{
    let ghost s0: Seq<Node> = nodes_view(sequence@);
    let ghost m0: MachineView = m@;
    proof {
        crate::ast::lemma_nodes_view_index(sequence@);
        assert(s0.skip(0) =~= s0);
    }
    let mut i: usize = 0;
    while i < sequence.len()
        invariant
            i <= sequence.len(),
            run_seq(s0, m0, fuel as nat) == run_seq(s0.skip(i as int), m@, fuel as nat),
        decreases sequence.len() - i,
    {
        let ghost t = s0.skip(i as int);
        let ghost m_pre = m@;
        let ghost nd = t[0];
        proof {
            assert(t[0] == node_view(sequence@[i as int]));
        }
        let node = &sequence[i];
        match node {
            AstNode::Increment => {
                if m.cursor >= m.tape.len() {
                    return Err(RuntimeError::OutOfBounds);
                }
                let v = m.tape[m.cursor];
                let nv: u8 = if v == 255 {
                    0
                } else {
                    v + 1
                };
                m.tape[m.cursor] = nv;
                proof {
                    assert(m@ =~= with_cell(m_pre, ((cell(m_pre) + 1) % 256) as u8));
                }
            },
            AstNode::Decrement => {
                if m.cursor >= m.tape.len() {
                    return Err(RuntimeError::OutOfBounds);
                }
                let v = m.tape[m.cursor];
                let nv: u8 = if v == 0 {
                    255
                } else {
                    v - 1
                };
                m.tape[m.cursor] = nv;
                proof {
                    assert(m@ =~= with_cell(m_pre, ((cell(m_pre) + 255) % 256) as u8));
                }
            },
            AstNode::Forward => {
                if m.cursor == usize::MAX {
                    return Err(RuntimeError::CursorOverflow);
                }
                m.cursor = m.cursor + 1;
                proof {
                    assert(m@ =~= MachineView { cursor: m_pre.cursor + 1, ..m_pre });
                }
            },
            AstNode::Backward => {
                if m.cursor == 0 {
                    return Err(RuntimeError::CursorUnderflow);
                }
                m.cursor = m.cursor - 1;
                proof {
                    assert(m@ =~= MachineView { cursor: (m_pre.cursor - 1) as nat, ..m_pre });
                }
            },
            AstNode::In => {
                if m.cursor >= m.tape.len() {
                    return Err(RuntimeError::OutOfBounds);
                }
                if m.in_pos >= m.input.len() {
                    return Err(RuntimeError::InputExhausted);
                }
                proof {
                    lemma_line_model(m.input@[m.in_pos as int]);
                }
                let vo = numeric_cell_value(&m.input[m.in_pos]);
                match vo {
                    None => {
                        return Err(RuntimeError::InvalidNumericInput);
                    },
                    Some(b) => {
                        m.tape[m.cursor] = b;
                        m.in_pos = m.in_pos + 1;
                        proof {
                            assert(m@ =~= MachineView {
                                in_pos: m_pre.in_pos + 1,
                                ..with_cell(
                                    m_pre,
                                    (numeric_line_value(m_pre.input[m_pre.in_pos as int])
                                        % 256) as u8,
                                )
                            });
                        }
                    },
                }
            },
            AstNode::AsciiIn => {
                if m.cursor >= m.tape.len() {
                    return Err(RuntimeError::OutOfBounds);
                }
                if m.in_pos >= m.input.len() {
                    return Err(RuntimeError::InputExhausted);
                }
                proof {
                    lemma_line_model(m.input@[m.in_pos as int]);
                }
                if m.input[m.in_pos].len() == 0 {
                    return Err(RuntimeError::EmptyInputLine);
                }
                let ch = m.input[m.in_pos][0];
                let b: u8 = ((ch as u32) % 256) as u8;
                m.tape[m.cursor] = b;
                m.in_pos = m.in_pos + 1;
                proof {
                    assert(m@ =~= MachineView {
                        in_pos: m_pre.in_pos + 1,
                        ..with_cell(
                            m_pre,
                            (m_pre.input[m_pre.in_pos as int][0] as u32 % 256) as u8,
                        )
                    });
                }
            },
            AstNode::Out => {
                if m.cursor >= m.tape.len() {
                    return Err(RuntimeError::OutOfBounds);
                }
                let v = m.tape[m.cursor];
                if v >= 100 {
                    m.output.push(48 + v / 100);
                    m.output.push(48 + (v / 10) % 10);
                    m.output.push(48 + v % 10);
                } else if v >= 10 {
                    m.output.push(48 + v / 10);
                    m.output.push(48 + v % 10);
                } else {
                    m.output.push(48 + v);
                }
                proof {
                    assert(m@.output =~= m_pre.output + dec_bytes(cell(m_pre)));
                    assert(m@ =~= MachineView {
                        output: m_pre.output + dec_bytes(cell(m_pre)),
                        ..m_pre
                    });
                }
            },
            AstNode::AsciiOut => {
                if m.cursor >= m.tape.len() {
                    return Err(RuntimeError::OutOfBounds);
                }
                let v = m.tape[m.cursor];
                if v < 128 {
                    m.output.push(v);
                    proof {
                        assert(m@ =~= MachineView {
                            output: m_pre.output.push(cell(m_pre)),
                            ..m_pre
                        });
                    }
                }
            },
            AstNode::Loop(body) => {
                proof {
                    assert(nd == Node::Loop(nodes_view(body@)));
                }
                let ghost m_entry = m@;
                let mut f_cur: u64 = fuel;
                let mut looping = true;
                while looping
                    invariant
                        f_cur <= fuel,
                        looping ==> run_node(nd, m_entry, fuel as nat) == run_node(
                            nd,
                            m@,
                            f_cur as nat,
                        ),
                        !looping ==> run_node(nd, m_entry, fuel as nat) == RunOutcome::Done(m@),
                    decreases f_cur, (if looping { 1nat } else { 0nat }),
                {
                    if m.cursor >= m.tape.len() {
                        return Err(RuntimeError::OutOfBounds);
                    }
                    let c = m.tape[m.cursor];
                    if c == 0 {
                        looping = false;
                        continue ;
                    }
                    if f_cur == 0 {
                        return Err(RuntimeError::StepLimit);
                    }
                    let ghost m_iter = m@;
                    let r = do_sequence(m, body, f_cur - 1);
                    match r {
                        Ok(_) => {
                            proof {
                                assert(run_node(nd, m_iter, f_cur as nat) == run_node(
                                    nd,
                                    m@,
                                    (f_cur - 1) as nat,
                                ));
                            }
                            f_cur = f_cur - 1;
                        },
                        Err(e) => {
                            return Err(e);
                        },
                    }
                }
            },
        }
        proof {
            assert(run_node(t[0], m_pre, fuel as nat) == RunOutcome::Done(m@));
            assert(run_seq(t, m_pre, fuel as nat) == run_seq(t.drop_first(), m@, fuel as nat));
            assert(t.drop_first() =~= s0.skip(i as int + 1));
        }
        i += 1;
    }
    proof {
        assert(s0.skip(sequence@.len() as int) =~= Seq::<Node>::empty());
    }
    Ok(())
}

/// Runs a program on a fresh tape of `stack_size` zeroed cells, with the
/// given input lines. Returns the machine as the program left it — output
/// bytes, final tape and cursor — or the error that stopped the run, exactly
/// as [`run_seq`] says of the program's model.
///
/// Every loop may iterate up to `u64::MAX` times; a run that would go on
/// longer — in practice, one that never ends — fails with
/// [`RuntimeError::StepLimit`] instead of running forever.
pub fn interpret(stack_size: usize, sequence: &LogicSequence, input: Vec<Vec<char>>) -> (r: Result<
    Machine,
    RuntimeError,
>)
    requires
        stack_size >= 1,
    ensures
        match r {
            Ok(m) => run_seq(
                nodes_view(sequence@),
                init_machine(stack_size as nat, input.deep_view()),
                u64::MAX as nat,
            ) == RunOutcome::Done(m@),
            Err(e) => run_seq(
                nodes_view(sequence@),
                init_machine(stack_size as nat, input.deep_view()),
                u64::MAX as nat,
            ) == RunOutcome::Fail(e),
        },
{
    let mut m = Machine::new(stack_size, input);
    match do_sequence(&mut m, sequence, u64::MAX) {
        Ok(_) => Ok(m),
        Err(e) => Err(e),
    }
}

} // verus!
