//! A toolkit for a minimalist eight-operator tape-machine language: a lexer
//! and bracket-matching parser that build an operator tree, a tree-walking
//! interpreter that evaluates the tree against a mutable memory tape, and a
//! code generator that lowers the same tree into equivalent imperative Rust
//! statements for embedding in a host program.

pub mod ast;
pub mod codegen;
pub mod laws;
pub mod machine;
pub mod parser;
pub mod script;
pub mod vm;
