use brainfuck::AstNode;
use brainfuck::ParseErrorType;
use brainfuck::parser::build_sequence;

#[test]
fn single_instruction() {
    let prog = build_sequence("+").unwrap();
    assert_eq!(prog.len(), 1);
    assert!(matches!(prog[0], AstNode::Increment));
}

#[test]
fn comments_are_transparent() {
    let prog = build_sequence("a+b").unwrap();
    assert_eq!(prog.len(), 1);
    assert!(matches!(prog[0], AstNode::Increment));
}

#[test]
fn all_wired_instructions() {
    let prog = build_sequence("+-><,.").unwrap();
    assert_eq!(prog.len(), 6);
    assert!(matches!(prog[0], AstNode::Increment));
    assert!(matches!(prog[1], AstNode::Decrement));
    assert!(matches!(prog[2], AstNode::Forward));
    assert!(matches!(prog[3], AstNode::Backward));
    assert!(matches!(prog[4], AstNode::AsciiIn));
    assert!(matches!(prog[5], AstNode::AsciiOut));
}

#[test]
fn nesting_depth_matches_brackets() {
    let prog = build_sequence("[[]]").unwrap();
    assert_eq!(prog.len(), 1);
    match &prog[0] {
        AstNode::Loop(body) => {
            assert_eq!(body.len(), 1);
            match &body[0] {
                AstNode::Loop(inner) => assert_eq!(inner.len(), 0),
                _ => panic!("expected a nested loop"),
            }
        }
        _ => panic!("expected a loop"),
    }
}

#[test]
fn loop_body_holds_instructions() {
    let prog = build_sequence("+[-]").unwrap();
    assert_eq!(prog.len(), 2);
    assert!(matches!(prog[0], AstNode::Increment));
    match &prog[1] {
        AstNode::Loop(body) => {
            assert_eq!(body.len(), 1);
            assert!(matches!(body[0], AstNode::Decrement));
        }
        _ => panic!("expected a loop"),
    }
}

#[test]
fn trailing_loop_end_at_first_character() {
    let err = build_sequence("]").unwrap_err();
    assert_eq!(err.line, 1);
    assert_eq!(err.col, 1);
    assert_eq!(err.near, ']');
    assert!(matches!(err.err_type, ParseErrorType::TrailingLoopEnd));
}

#[test]
fn trailing_loop_end_position_counts_lines() {
    let err = build_sequence("++\n+]").unwrap_err();
    assert_eq!(err.line, 2);
    assert_eq!(err.col, 2);
    assert_eq!(err.near, ']');
}

#[test]
fn trailing_loop_end_after_matched_pair() {
    let err = build_sequence("[]]").unwrap_err();
    assert_eq!(err.line, 1);
    assert_eq!(err.col, 3);
}

#[test]
fn unterminated_loop_keeps_innermost_sequence() {
    // An unclosed `[` is not an error: the innermost open sequence is
    // returned and the enclosing levels are dropped.
    let prog = build_sequence("+[-").unwrap();
    assert_eq!(prog.len(), 1);
    assert!(matches!(prog[0], AstNode::Decrement));
}

#[test]
fn error_renders_as_one_line_diagnostic() {
    let err = build_sequence("]").unwrap_err();
    assert_eq!(
        err.to_string(),
        "Parse error in line 1 at 1 (near ']'): Trailing Loop End."
    );
}

#[test]
fn error_rendering_includes_positions() {
    let err = build_sequence("\n\n  ]").unwrap_err();
    assert_eq!(err.line, 3);
    assert_eq!(err.col, 3);
    assert_eq!(
        err.to_string(),
        "Parse error in line 3 at 3 (near ']'): Trailing Loop End."
    );
}
