//! A verified virtual machine for the eight-instruction, tape-based Brainfuck
//! language: a byte-to-instruction decoder, a fixed 30720-cell byte tape with
//! wrap-around arithmetic, counter-based bracket matching by linear scan, and
//! an interpreter whose result is pinned, instruction by instruction, to a
//! small-step semantics stated over mathematical sequences.

pub mod cmd;
pub mod interp;
pub mod machine;
pub mod tape;
