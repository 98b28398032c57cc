//! MF66 — the architecture-neutral core of an optimizing subroutine-threaded
//! Forth compiler for AArch64: instruction encoders, the token-IR optimizer and
//! its lowering to machine words, the colon compiler's control flow and token
//! planning, the outer interpreter's reading of source text, the class and
//! method bookkeeping, and the workspace's editor, syntax classifier and REPL.

pub mod abi;
pub mod asm_macros;
pub mod aenc;
pub mod text;
pub mod fsyntax;
pub mod editor;
pub mod opt;
pub mod stack_model;
pub mod lowering;
pub mod number;
pub mod keys;
pub mod colon;
pub mod vocab;
pub mod interp;
pub mod discipline;
pub mod workspace;
pub mod oop;
pub mod compile;
pub mod codearena;
pub mod script;
pub mod outer;
