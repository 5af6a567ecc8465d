//! A compiler and interpreter pipeline for a minimal eight-command language
//! operating on a linear tape of bytes.
//!
//! Source text is lexed into a stream of [`lexer::Command`]s, parsed into a
//! tree-shaped program ([`program::Instruction`]), rewritten by a fixed-point
//! peephole optimizer, and finally executed against a bounded byte tape or
//! translated to host-language source text. The [`vm`] module holds a
//! second, flat form of the pipeline: jump-linked instruction lists run by
//! a program-counter dispatch loop.

pub mod lexer;
pub mod program;
pub mod interpreter;
pub mod compiler;
pub mod vm;
