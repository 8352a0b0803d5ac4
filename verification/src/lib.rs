//! An execution engine for a minimal tape-based language with eight
//! instructions (`+ - > < . , [ ]`).
//!
//! The parser turns source text into a run-length-compressed intermediate
//! representation ([`ast::ASTNode`]), the interpreter runs that
//! representation against a 30,000-cell byte tape, and the compiler emits
//! x86-64 machine code for it, deferring large loop bodies behind a promise
//! table until first entry.

pub mod ast;
pub mod code_gen;
pub mod interp;
pub mod jit_target;
