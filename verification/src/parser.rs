use vstd::prelude::*;

use crate::ast::AstNode;
use crate::ast::LogicSequence;
use crate::ast::Node;
use crate::ast::ParseError;
use crate::ast::ParseErrorType;
use crate::ast::ParseErrorView;
use crate::ast::node_view;
use crate::ast::nodes_view;

verus! {

/// Parser state: the stack of open instruction sequences (the bottom entry
/// is the top level, each further entry an unclosed loop body), and the
/// 1-based line and the column of the character read last.
#[verifier::ext_equal]
pub ghost struct PState {
    pub stack: Seq<Seq<Node>>,
    pub line: int,
    pub col: int,
}

/// The state every parse starts from: one empty top-level sequence, line 1,
/// no character read yet.
pub open spec fn init_pstate() -> PState {
    PState { stack: seq![Seq::empty()], line: 1, col: 0 }
}

/// The position after reading `c`: the column grows first, then a newline
/// moves to the next line and resets the column.
pub open spec fn advance_pos(st: PState, c: char) -> PState {
    if c == '\n' {
        PState { line: st.line + 1, col: 0, ..st }
    } else {
        PState { col: st.col + 1, ..st }
    }
}

/// `st` with `n` appended to the sequence on top of the stack.
pub open spec fn push_top(st: PState, n: Node) -> PState {
    PState {
        stack: st.stack.update(st.stack.len() - 1, st.stack.last().push(n)),
        ..st
    }
}

/// Closes the innermost open loop: the top sequence becomes the body of a
/// `Loop` instruction appended to the sequence below it.
pub open spec fn close_top(stack: Seq<Seq<Node>>) -> Seq<Seq<Node>> {
    let rest = stack.drop_last();
    rest.update(rest.len() - 1, rest.last().push(Node::Loop(stack.last())))
}

/// What reading one character does to the parser state. The six instruction
/// characters append an instruction to the innermost open sequence, `[`
/// opens a loop body, `]` closes the innermost one — or fails when none is
/// open — and every other character is a comment.
pub open spec fn p_char(st: PState, c: char) -> Result<PState, ParseErrorView> {
    let moved = advance_pos(st, c);
    if c == '+' {
        Ok(push_top(moved, Node::Increment))
    } else if c == '-' {
        Ok(push_top(moved, Node::Decrement))
    } else if c == '>' {
        Ok(push_top(moved, Node::Forward))
    } else if c == '<' {
        Ok(push_top(moved, Node::Backward))
    } else if c == ',' {
        Ok(push_top(moved, Node::AsciiIn))
    } else if c == '.' {
        Ok(push_top(moved, Node::AsciiOut))
    } else if c == '[' {
        Ok(PState { stack: moved.stack.push(Seq::empty()), ..moved })
    } else if c == ']' {
        if st.stack.len() <= 1 {
            Err(
                ParseErrorView {
                    line: st.line,
                    col: st.col + 1,
                    near: ']',
                    err_type: ParseErrorType::TrailingLoopEnd,
                },
            )
        } else {
            Ok(PState { stack: close_top(moved.stack), ..moved })
        }
    } else {
        Ok(moved)
    }
}

/// Reads the characters of `s` in order, starting from `st`, stopping at the
/// first failure.
pub open spec fn p_run(s: Seq<char>, st: PState) -> Result<PState, ParseErrorView>
    decreases s.len(),
{
    if s.len() == 0 {
        Ok(st)
    } else {
        match p_char(st, s[0]) {
            Ok(st1) => p_run(s.drop_first(), st1),
            Err(e) => Err(e),
        }
    }
}

/// What parsing a whole source text yields: the innermost sequence still
/// open at the end of the text, or the first failure. When every `[` was
/// closed, exactly the top-level sequence is still open; an unclosed `[`
/// leaves its body as the innermost open sequence, and the enclosing levels
/// are silently dropped.
pub open spec fn parse_spec(s: Seq<char>) -> Result<Seq<Node>, ParseErrorView> {
    match p_run(s, init_pstate()) {
        Ok(st) => Ok(st.stack.last()),
        Err(e) => Err(e),
    }
}

/// The models of a stack of open executable sequences.
pub open spec fn stacks_view(s: Seq<LogicSequence>) -> Seq<Seq<Node>> {
    Seq::new(s.len(), |i: int| nodes_view(s[i]@))
}

/// Parses source text into a program: a single left-to-right pass over the
/// characters, building nested loop bodies on an explicit stack of open
/// sequences. Returns exactly what [`parse_spec`] says of the text: the
/// program, or a `TrailingLoopEnd` failure at the position of a `]` that has
/// no open `[` to close.
#[verifier::loop_isolation(false)]
pub fn build_sequence(logic: &str) -> (r: Result<LogicSequence, ParseError>)
    requires
        logic@.len() < usize::MAX,
    ensures
        match r {
            Ok(v) => parse_spec(logic@) == Ok::<Seq<Node>, ParseErrorView>(nodes_view(v@)),
            Err(e) => parse_spec(logic@) == Err::<Seq<Node>, ParseErrorView>(e@),
        },
{
    let n = logic.unicode_len();
    let mut stack: Vec<LogicSequence> = Vec::new();
    stack.push(Vec::new());
    let mut line: usize = 1;
    let mut col: usize = 0;
    let mut i: usize = 0;
    proof {
        assert(logic@.skip(0) =~= logic@);
        assert(stacks_view(stack@) =~= init_pstate().stack);
    }
    while i < n
        invariant
            i <= n,
            n == logic@.len(),
            stack@.len() >= 1,
            col <= i,
            line <= i + 1,
            p_run(logic@, init_pstate()) == p_run(
                logic@.skip(i as int),
                PState { stack: stacks_view(stack@), line: line as int, col: col as int },
            ),
        decreases n - i,
    {
        let ghost st_pre = PState {
            stack: stacks_view(stack@),
            line: line as int,
            col: col as int,
        };
        let ghost rest = logic@.skip(i as int);
        let c = logic.get_char(i);
        proof {
            assert(rest[0] == logic@[i as int]);
            assert(rest.drop_first() =~= logic@.skip(i as int + 1));
        }
        col = col + 1;
        if c == '\n' {
            line = line + 1;
            col = 0;
        }
        match c {
            '+' => {
                push_instruction(&mut stack, AstNode::Increment);
            },
            '-' => {
                push_instruction(&mut stack, AstNode::Decrement);
            },
            '>' => {
                push_instruction(&mut stack, AstNode::Forward);
            },
            '<' => {
                push_instruction(&mut stack, AstNode::Backward);
            },
            ',' => {
                push_instruction(&mut stack, AstNode::AsciiIn);
            },
            '.' => {
                push_instruction(&mut stack, AstNode::AsciiOut);
            },
            '[' => {
                stack.push(Vec::new());
                proof {
                    assert(stacks_view(stack@) =~~= st_pre.stack.push(Seq::empty()));
                }
            },
            ']' => {
                if stack.len() <= 1 {
                    proof {
                        assert(p_run(rest, st_pre) == p_run(logic@, init_pstate()));
                    }
                    return Err(
                        ParseError { line, col, near: c, err_type: ParseErrorType::TrailingLoopEnd },
                    );
                }
                let body = stack.pop().unwrap();
                let mut below = stack.pop().unwrap();
                let ghost below0 = below@;
                below.push(AstNode::Loop(body));
                stack.push(below);
                proof {
                    crate::ast::lemma_nodes_view_push(below0, AstNode::Loop(body));
                    assert(stacks_view(stack@) =~~= close_top(st_pre.stack));
                }
            },
            _ => {
            },
        }
        proof {
            let st_post = PState {
                stack: stacks_view(stack@),
                line: line as int,
                col: col as int,
            };
            assert(p_char(st_pre, rest[0]) == Ok::<PState, ParseErrorView>(st_post));
            assert(p_run(rest, st_pre) == p_run(logic@.skip(i as int + 1), st_post));
        }
        i = i + 1;
    }
    proof {
        assert(logic@.skip(n as int) =~= Seq::<char>::empty());
    }
    let ghost stack_end = stack@;
    let result = stack.pop().unwrap();
    proof {
        assert(nodes_view(result@) == stacks_view(stack_end).last());
    }
    Ok(result)
}

/// Appends one instruction to the innermost open sequence.
fn push_instruction(stack: &mut Vec<LogicSequence>, node: AstNode)
    requires
        old(stack)@.len() >= 1,
    ensures
        final(stack)@.len() == old(stack)@.len(),
        stacks_view(final(stack)@) == stacks_view(old(stack)@).update(
            old(stack)@.len() - 1,
            stacks_view(old(stack)@).last().push(node_view(node)),
        ),
{
    let mut top = stack.pop().unwrap();
    let ghost top0 = top@;
    top.push(node);
    stack.push(top);
    proof {
        crate::ast::lemma_nodes_view_push(top0, node);
        assert(stacks_view(stack@) =~~= stacks_view(old(stack)@).update(
            old(stack)@.len() - 1,
            stacks_view(old(stack)@).last().push(node_view(node)),
        ));
    }
}

} // verus!
