//! A two-pass assembler for a small fixed-width instruction set: 8-bit
//! registers, a 16-bit address space. Source programs are translated into a
//! flat binary image plus a symbol table mapping label names to resolved
//! addresses. Forward references are recorded as relocation entries during the
//! first pass and patched in a second pass once every label is known.

pub mod compiler;
pub mod errors;
pub mod filestack;
pub mod grammar;
pub mod laws;
pub mod model;
pub mod parser;
pub mod symbols;
pub mod text;
