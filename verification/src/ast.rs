use vstd::prelude::*;

verus! {

/// One instruction of the language. `Loop` is the only recursive variant: it
/// owns the ordered sequence of instructions that forms its body.
///
/// The grammar knows the numeric variants `In` and `Out`, but no source
/// character maps to them (see [`crate::parser::build_sequence`]); a program
/// holding them can still be built by hand and run.
#[derive(Debug)]
pub enum AstNode {
    Increment,
    Decrement,
    Forward,
    Backward,
    In,
    Out,
    AsciiIn,
    AsciiOut,
    Loop(LogicSequence),
}

/// An ordered sequence of instructions: a whole program, or the body of one
/// loop.
pub type LogicSequence = Vec<AstNode>;

/// Mathematical model of one instruction; a loop body is modelled as a
/// sequence of instruction models.
pub ghost enum Node {
    Increment,
    Decrement,
    Forward,
    Backward,
    In,
    Out,
    AsciiIn,
    AsciiOut,
    Loop(Seq<Node>),
}

/// The model of an executable instruction: structurally identical, with loop
/// bodies mapped elementwise.
pub open spec fn node_view(n: AstNode) -> Node
    decreases n,
{
    match n {
        AstNode::Increment => Node::Increment,
        AstNode::Decrement => Node::Decrement,
        AstNode::Forward => Node::Forward,
        AstNode::Backward => Node::Backward,
        AstNode::In => Node::In,
        AstNode::Out => Node::Out,
        AstNode::AsciiIn => Node::AsciiIn,
        AstNode::AsciiOut => Node::AsciiOut,
        AstNode::Loop(body) => Node::Loop(nodes_view(body@)),
    }
}

/// The model of an executable instruction sequence, elementwise.
pub open spec fn nodes_view(s: Seq<AstNode>) -> Seq<Node>
    decreases s,
{
    if s.len() == 0 {
        Seq::empty()
    } else {
        nodes_view(s.drop_last()).push(node_view(s.last()))
    }
}

impl DeepView for AstNode {
    type V = Node;

    open spec fn deep_view(&self) -> Node {
        node_view(*self)
    }
}

/// Nesting depth of one instruction model: loops are one level deeper than
/// the deepest instruction of their body, every other instruction is flat.
pub open spec fn node_depth(n: Node) -> nat
    decreases n,
{
    match n {
        Node::Loop(body) => 1 + seq_depth(body),
        _ => 0,
    }
}

/// Nesting depth of an instruction sequence model: the deepest of its
/// instructions, and 0 for the empty sequence.
pub open spec fn seq_depth(s: Seq<Node>) -> nat
    decreases s,
{
    if s.len() == 0 {
        0
    } else if node_depth(s.last()) >= seq_depth(s.drop_last()) {
        node_depth(s.last())
    } else {
        seq_depth(s.drop_last())
    }
}

/// The model of a sequence is as long as the sequence and holds the models
/// of its instructions, in order.
pub proof fn lemma_nodes_view_index(s: Seq<AstNode>)
    ensures
        nodes_view(s).len() == s.len(),
        forall|i: int| 0 <= i < s.len() ==> nodes_view(s)[i] == node_view(#[trigger] s[i]),
    decreases s.len(),
{
    if s.len() > 0 {
        lemma_nodes_view_index(s.drop_last());
        assert forall|i: int| 0 <= i < s.len() implies nodes_view(s)[i] == node_view(
            #[trigger] s[i],
        ) by {
            if i < s.len() - 1 {
                assert(s.drop_last()[i] == s[i]);
                assert(nodes_view(s)[i] == nodes_view(s.drop_last())[i]);
            } else {
                assert(s[i] == s.last());
            }
        }
    }
}

/// Appending an instruction appends its model.
pub proof fn lemma_nodes_view_push(s: Seq<AstNode>, n: AstNode)
    ensures
        nodes_view(s.push(n)) == nodes_view(s).push(node_view(n)),
{
    assert(s.push(n).drop_last() =~= s);
    assert(s.push(n).last() == n);
}

/// The kind of a parse failure.
#[derive(Clone, Copy, Debug, PartialEq, Eq, Structural)]
pub enum ParseErrorType {
    TrailingLoopEnd,
}

/// A parse failure: 1-based line, column counted from the last newline, the
/// offending character, and the kind of failure.
#[derive(Debug)]
pub struct ParseError {
    pub line: usize,
    pub col: usize,
    pub near: char,
    pub err_type: ParseErrorType,
}

/// Mathematical model of a parse failure, with unbounded position numbers.
pub ghost struct ParseErrorView {
    pub line: int,
    pub col: int,
    pub near: char,
    pub err_type: ParseErrorType,
}

impl View for ParseError {
    type V = ParseErrorView;

    open spec fn view(&self) -> ParseErrorView {
        ParseErrorView {
            line: self.line as int,
            col: self.col as int,
            near: self.near,
            err_type: self.err_type,
        }
    }
}

} // verus!
