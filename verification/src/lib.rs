//! A verified interpreter for a small bracket-loop language: eight
//! single-character instructions act on a fixed-size byte tape through a
//! movable cursor.
//!
//! [`parser::build_sequence`] turns source text into a nested instruction
//! tree, and [`interp::interpret`] executes such a tree against a fresh tape,
//! with console input and output modelled as plain values.

pub mod ast;
pub mod interp;
pub mod laws;
pub mod parser;
pub mod render;

pub use ast::AstNode;
pub use ast::LogicSequence;
pub use ast::ParseError;
pub use ast::ParseErrorType;
