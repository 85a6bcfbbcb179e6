//! Canonicalizer for disassembler text output.
//!
//! Each input line is independently tokenized, classified, and rewritten into
//! a canonical `opcode / mnemonic / operands` form so that two listings of
//! semantically equivalent code diff cleanly: immediates are re-rendered in a
//! single hexadecimal style, common instruction aliases are folded into their
//! conventional spellings, and register-list shorthand is compacted.

pub mod canon;
pub mod chars;
pub mod line;
pub mod lists;
pub mod moves;
pub mod num;
pub mod text;
