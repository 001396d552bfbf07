//! A code generator for a small untyped language: it walks a syntax tree and
//! emits 32-bit ARM assembly, with the value of every expression left in `r0`,
//! one flat frame of locals per function, and fresh labels for control flow.
//!
//! `codegen::gen` states, node by node, which instructions a tree compiles
//! to; the generator is proved to emit exactly those. `laws` and `machine`
//! prove properties of that compilation scheme.

pub mod ast;
pub mod codegen;
pub mod env;
pub mod instr;
pub mod laws;
pub mod machine;
pub mod show;
