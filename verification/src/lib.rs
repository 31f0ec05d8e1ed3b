//! A small compiler for an eight-symbol tape language.
//!
//! The pipeline has four stages: a lexer that turns source text into tokens
//! while checking bracket balance and static pointer underflow, a recursive
//! descent parser that builds a nested syntax tree, a peephole optimizer that
//! merges runs of identical operators, and a code generator that emits a
//! linear x86 assembly text program over a fixed 26-cell byte tape.
//!
//! The semantics module holds a bounded simulator for syntax trees, the
//! meaning against which the optimizer is held; the diagnostics module
//! computes the line, column and excerpt that a caller renders when the
//! lexer rejects a source.
pub mod asm_generator;
pub mod diagnostics;
pub mod grammar;
pub mod lexer;
pub mod parser;
pub mod semantics;
