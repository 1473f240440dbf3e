//! A compiler for a small imperative language: a lexer, a parser that
//! builds a flat, parent-linked syntax tree, and a code generator that
//! lowers that tree to stack-machine assembly text.

pub mod token;
pub mod grammar;
pub mod parser;
pub mod lowering;
pub mod generation;
pub mod flat_tree;
pub mod char_reader;
