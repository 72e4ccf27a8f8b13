//! An interpreter for the eight-instruction byte-tape language: source text is
//! lexed into opcodes, opcodes are structured into a tree of instructions, and
//! the tree is run one step at a time by a machine over a fixed-size tape.
//!
//! Cell arithmetic does not wrap: incrementing a cell that holds 255, or
//! decrementing one that holds 0, is a fatal error. The data pointer may leave
//! the tape; only a later use of the cell under it is a fatal error.
pub mod opcode;
pub mod lexer;
pub mod structure;
pub mod machine;
