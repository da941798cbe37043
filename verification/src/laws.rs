use vstd::prelude::*;
use vstd::math::max;
use vstd::math::min;

use crate::ast::Node;
use crate::ast::ParseErrorType;
use crate::ast::ParseErrorView;
use crate::ast::node_depth;
use crate::ast::seq_depth;
use crate::interp::MachineView;
use crate::interp::RunOutcome;
use crate::interp::cell;
use crate::interp::cursor_ok;
use crate::interp::run_node;
use crate::interp::with_cell;
use crate::parser::PState;
use crate::parser::init_pstate;
use crate::parser::p_char;
use crate::parser::p_run;
use crate::parser::parse_spec;

verus! {

/// How one character changes the count of open loops.
pub open spec fn delta(c: char) -> int {
    if c == '[' {
        1
    } else if c == ']' {
        -1
    } else {
        0
    }
}

/// The bracket balance of a text: its `[` count minus its `]` count.
pub open spec fn bal(s: Seq<char>) -> int
    decreases s.len(),
{
    if s.len() == 0 {
        0
    } else {
        delta(s[0]) + bal(s.drop_first())
    }
}

/// The smallest bracket balance over all prefixes of a text (at most 0,
/// since the empty prefix balances to 0).
pub open spec fn minbal(s: Seq<char>) -> int
    decreases s.len(),
{
    if s.len() == 0 {
        0
    } else {
        min(0, delta(s[0]) + minbal(s.drop_first()))
    }
}

/// The largest bracket balance over all prefixes of a text: its maximal
/// bracket-nesting depth (at least 0, from the empty prefix).
pub open spec fn maxbal(s: Seq<char>) -> int
    decreases s.len(),
{
    if s.len() == 0 {
        0
    } else {
        max(0, delta(s[0]) + maxbal(s.drop_first()))
    }
}

/// A text is well-bracketed when every `[` is matched by a later `]`: no
/// prefix closes more loops than it opened, and the whole text closes every
/// loop it opens.
pub open spec fn well_bracketed(s: Seq<char>) -> bool {
    minbal(s) >= 0 && bal(s) == 0
}

/// The gauge of a parser stack: over all its levels, the largest sum of the
/// level's index and the depth of the sequence it holds. Reading a character
/// keeps the gauge in step with the largest bracket nesting seen so far.
pub open spec fn gauge(stack: Seq<Seq<Node>>) -> int
    decreases stack.len(),
{
    if stack.len() == 0 {
        0
    } else {
        max(gauge(stack.drop_last()), stack.len() - 1 + seq_depth(stack.last()))
    }
}

/// Running the parser from a state with enough open levels to cover every
/// prefix's deficit succeeds; the result has one open level per unclosed
/// `[`, and its gauge records the deepest nesting reached.
proof fn lemma_run_balanced(s: Seq<char>, st: PState)
    requires
        st.stack.len() >= 1,
        st.stack.len() - 1 + minbal(s) >= 0,
    ensures
        p_run(s, st) is Ok,
        (p_run(s, st)->Ok_0).stack.len() == st.stack.len() + bal(s),
        gauge((p_run(s, st)->Ok_0).stack) == max(gauge(st.stack), st.stack.len() - 1 + maxbal(s)),
    decreases s.len(),
{
    let stack = st.stack;
    let len = stack.len() as int;
    assert(gauge(stack) >= len - 1 + seq_depth(stack.last()));
    if s.len() == 0 {
    } else {
        let c = s[0];
        let df = s.drop_first();
        let st1 = p_char(st, c)->Ok_0;
        if c == '[' {
            assert(st1.stack.drop_last() =~= stack);
            lemma_run_balanced(df, st1);
        } else if c == ']' {
            assert(minbal(df) <= 0);
            assert(len >= 2);
            let rest = stack.drop_last();
            let parent = rest.last();
            let body = stack.last();
            let grown = parent.push(Node::Loop(body));
            assert(grown.drop_last() =~= parent);
            assert(grown.last() == Node::Loop(body));
            assert(node_depth(Node::Loop(body)) == 1 + seq_depth(body));
            assert(seq_depth(grown) == max(seq_depth(parent) as int, 1 + seq_depth(body) as int));
            assert(st1.stack.drop_last() =~= rest.drop_last());
            assert(st1.stack.last() == grown);
            assert(gauge(st1.stack) == max(
                gauge(rest.drop_last()),
                len - 2 + seq_depth(grown),
            ));
            assert(gauge(rest) == max(gauge(rest.drop_last()), len - 2 + seq_depth(parent)));
            assert(gauge(st1.stack) == gauge(stack));
            lemma_run_balanced(df, st1);
        } else {
            let is_instr = c == '+' || c == '-' || c == '>' || c == '<' || c == ',' || c == '.';
            if is_instr {
                let top = stack.last();
                let node = if c == '+' {
                    Node::Increment
                } else if c == '-' {
                    Node::Decrement
                } else if c == '>' {
                    Node::Forward
                } else if c == '<' {
                    Node::Backward
                } else if c == ',' {
                    Node::AsciiIn
                } else {
                    Node::AsciiOut
                };
                let grown = top.push(node);
                assert(grown.drop_last() =~= top);
                assert(node_depth(node) == 0);
                assert(seq_depth(grown) == seq_depth(top));
                assert(st1.stack.drop_last() =~= stack.drop_last());
                assert(st1.stack.last() == grown);
                assert(gauge(st1.stack) == gauge(stack));
            } else {
                assert(st1.stack == stack);
            }
            lemma_run_balanced(df, st1);
        }
    }
}

/// Round-trip nesting: parsing a well-bracketed text succeeds, and the
/// nesting depth of the resulting program equals the maximal bracket-nesting
/// depth of the text.
pub proof fn lemma_round_trip_nesting(s: Seq<char>)
    requires
        well_bracketed(s),
    ensures
        parse_spec(s) is Ok,
        seq_depth(parse_spec(s)->Ok_0) == maxbal(s),
{
    let st = init_pstate();
    lemma_run_balanced(s, st);
    let stf = p_run(s, st)->Ok_0;
    assert(gauge(st.stack) == max(gauge(st.stack.drop_last()), seq_depth(st.stack.last()) as int));
    assert(st.stack.drop_last() =~= Seq::<Seq<Node>>::empty());
    assert(gauge(st.stack) == 0);
    assert(stf.stack.len() == 1);
    assert(gauge(stf.stack) == max(
        gauge(stf.stack.drop_last()),
        seq_depth(stf.stack.last()) as int,
    ));
    assert(stf.stack.drop_last() =~= Seq::<Seq<Node>>::empty());
    assert(maxbal(s) >= 0);
    assert(seq_depth(stf.stack.last()) == maxbal(s));
}

/// The index of the first `]` that closes more loops than stood open: the
/// first position where the running balance drops below `-d`.
pub open spec fn first_unmatched(s: Seq<char>, d: int) -> int
    decreases s.len(),
{
    if s.len() == 0 {
        -1
    } else if s[0] == ']' && d == 0 {
        0
    } else {
        let r = first_unmatched(s.drop_first(), d + delta(s[0]));
        if r == -1 {
            -1
        } else {
            1 + r
        }
    }
}

/// The line that reading `p` moves to, starting from line `l`.
pub open spec fn line_run(l: int, p: Seq<char>) -> int
    decreases p.len(),
{
    if p.len() == 0 {
        l
    } else {
        line_run(if p[0] == '\n' { l + 1 } else { l }, p.drop_first())
    }
}

/// The column that reading `p` moves to, starting from column `c`: one per
/// character since the last newline.
pub open spec fn col_run(c: int, p: Seq<char>) -> int
    decreases p.len(),
{
    if p.len() == 0 {
        c
    } else {
        col_run(if p[0] == '\n' { 0 } else { c + 1 }, p.drop_first())
    }
}

/// Running the parser from a state with too few open levels for some prefix
/// fails with `TrailingLoopEnd` at exactly the first `]` that finds no open
/// loop, with the line and column of that very character.
proof fn lemma_run_trailing(s: Seq<char>, st: PState)
    requires
        st.stack.len() >= 1,
        st.stack.len() - 1 + minbal(s) < 0,
    ensures
        ({
            let j = first_unmatched(s, st.stack.len() - 1);
            &&& 0 <= j < s.len()
            &&& s[j] == ']'
            &&& p_run(s, st) == Err::<PState, ParseErrorView>(
                ParseErrorView {
                    line: line_run(st.line, s.subrange(0, j)),
                    col: col_run(st.col, s.subrange(0, j)) + 1,
                    near: ']',
                    err_type: ParseErrorType::TrailingLoopEnd,
                },
            )
        }),
    decreases s.len(),
{
    let len = st.stack.len() as int;
    assert(s.len() > 0);
    let c = s[0];
    let df = s.drop_first();
    if c == ']' && len == 1 {
        assert(s.subrange(0, 0) =~= Seq::<char>::empty());
    } else {
        assert(minbal(s) == min(0, delta(c) + minbal(df)));
        assert(len - 1 + delta(c) + minbal(df) < 0);
        let st1 = p_char(st, c)->Ok_0;
        assert(st1.stack.len() == len + delta(c));
        lemma_run_trailing(df, st1);
        let j1 = first_unmatched(df, len - 1 + delta(c));
        let j = first_unmatched(s, len - 1);
        assert(j == 1 + j1);
        assert(s.subrange(0, j)[0] == c);
        assert(s.subrange(0, j).drop_first() =~= df.subrange(0, j1));
        assert(st1.line == (if c == '\n' { st.line + 1 } else { st.line }));
        assert(st1.col == (if c == '\n' { 0int } else { st.col + 1 }));
        assert(line_run(st.line, s.subrange(0, j)) == line_run(st1.line, df.subrange(0, j1)));
        assert(col_run(st.col, s.subrange(0, j)) == col_run(st1.col, df.subrange(0, j1)));
    }
}

/// Trailing-end detection: a text in which some prefix closes more loops
/// than it opened fails to parse, with `TrailingLoopEnd` at exactly the
/// first `]` that finds no open loop — at that character's 1-based line and
/// its column counted from the last newline.
pub proof fn lemma_trailing_end(s: Seq<char>)
    requires
        minbal(s) < 0,
    ensures
        ({
            let j = first_unmatched(s, 0);
            &&& 0 <= j < s.len()
            &&& s[j] == ']'
            &&& parse_spec(s) == Err::<Seq<Node>, ParseErrorView>(
                ParseErrorView {
                    line: line_run(1, s.subrange(0, j)),
                    col: col_run(0, s.subrange(0, j)) + 1,
                    near: ']',
                    err_type: ParseErrorType::TrailingLoopEnd,
                },
            )
        }),
{
    lemma_run_trailing(s, init_pstate());
}

/// Parsing succeeds exactly when no prefix of the text closes more loops
/// than it opened.
pub proof fn lemma_parse_ok_iff(s: Seq<char>)
    ensures
        parse_spec(s) is Ok <==> minbal(s) >= 0,
{
    if minbal(s) >= 0 {
        lemma_run_balanced(s, init_pstate());
    } else {
        lemma_run_trailing(s, init_pstate());
    }
}

/// Whether `c` is one of the eight characters of the grammar.
pub open spec fn is_grammar_char(c: char) -> bool {
    c == '+' || c == '-' || c == '>' || c == '<' || c == ',' || c == '.' || c == '[' || c == ']'
}

/// Whether the parse succeeds, and which instructions it yields, depend only
/// on the stack of the starting state, never on its position counters.
proof fn lemma_p_run_stack_only(s: Seq<char>, st1: PState, st2: PState)
    requires
        st1.stack == st2.stack,
    ensures
        p_run(s, st1) is Ok <==> p_run(s, st2) is Ok,
        p_run(s, st1) is Ok ==> (p_run(s, st1)->Ok_0).stack == (p_run(s, st2)->Ok_0).stack,
    decreases s.len(),
{
    if s.len() > 0 {
        let c = s[0];
        if p_char(st1, c) is Ok {
            lemma_p_run_stack_only(s.drop_first(), p_char(st1, c)->Ok_0, p_char(st2, c)->Ok_0);
        }
    }
}

/// Removing the comment character at `i` neither changes whether the parse
/// succeeds nor, on success, the resulting stack.
proof fn lemma_remove_comment_run(s: Seq<char>, i: int, st1: PState, st2: PState)
    requires
        0 <= i < s.len(),
        !is_grammar_char(s[i]),
        st1.stack == st2.stack,
    ensures
        p_run(s, st1) is Ok <==> p_run(s.remove(i), st2) is Ok,
        p_run(s, st1) is Ok ==> (p_run(s, st1)->Ok_0).stack == (p_run(
            s.remove(i),
            st2,
        )->Ok_0).stack,
    decreases i,
{
    if i == 0 {
        assert(s.remove(0) =~= s.drop_first());
        let st1a = p_char(st1, s[0])->Ok_0;
        assert(st1a.stack == st2.stack);
        lemma_p_run_stack_only(s.drop_first(), st1a, st2);
    } else {
        let c = s[0];
        assert(s.remove(i)[0] == c);
        if p_char(st1, c) is Ok {
            let st1a = p_char(st1, c)->Ok_0;
            let st2a = p_char(st2, c)->Ok_0;
            assert(st1a.stack == st2a.stack);
            assert(s.remove(i).drop_first() =~= s.drop_first().remove(i - 1));
            assert(s.drop_first()[i - 1] == s[i]);
            lemma_remove_comment_run(s.drop_first(), i - 1, st1a, st2a);
        }
    }
}

/// Comment transparency: a character outside the eight grammar characters is
/// a no-op — removing it neither changes whether the text parses nor, on
/// success, the program it parses to.
pub proof fn lemma_comment_transparent(s: Seq<char>, i: int)
    requires
        0 <= i < s.len(),
        !is_grammar_char(s[i]),
    ensures
        parse_spec(s) is Ok <==> parse_spec(s.remove(i)) is Ok,
        parse_spec(s) is Ok ==> parse_spec(s.remove(i)) == parse_spec(s),
{
    lemma_remove_comment_run(s, i, init_pstate(), init_pstate());
}

/// Arithmetic wraparound, upward: on a cell holding 255, one `Increment`
/// leaves 0 in that cell and changes nothing else.
pub proof fn lemma_increment_wraps(m: MachineView, fuel: nat)
    requires
        cursor_ok(m),
        cell(m) == 255,
    ensures
        run_node(Node::Increment, m, fuel) == RunOutcome::Done(with_cell(m, 0u8)),
{
}

/// Arithmetic wraparound, downward: on a cell holding 0, one `Decrement`
/// leaves 255 in that cell and changes nothing else.
pub proof fn lemma_decrement_wraps(m: MachineView, fuel: nat)
    requires
        cursor_ok(m),
        cell(m) == 0,
    ensures
        run_node(Node::Decrement, m, fuel) == RunOutcome::Done(with_cell(m, 255u8)),
{
}

} // verus!
