//! A single-pass compiler and stack-based bytecode interpreter for a small
//! expression language (numeric, string, boolean and nil literals;
//! arithmetic, comparison, equality and unary operators; grouping).
//!
//! Tokens are compiled by a precedence-climbing parser directly into a flat
//! instruction stream with a constant pool (a [`vm::Chunk`]), which a stack
//! machine ([`vm::Vm`]) then executes to produce the values displayed at
//! each `Return` instruction.

pub mod compile;
pub mod disasm;
pub mod lex;
pub mod num;
pub mod value;
pub mod vm;
