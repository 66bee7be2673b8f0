//! A verified two-pass assembler for a 16-bit machine.
//!
//! Source text is tokenized into cleaned instruction lines, a first pass
//! binds label symbols to instruction addresses, and a second pass encodes
//! every executable instruction as a fixed-width binary string.

pub mod laws;
pub mod lex;
pub mod numeric;
pub mod parse;
pub mod symbols;
pub mod tables;
pub mod text;
