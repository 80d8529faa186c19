//! Persistence of a bytecode constant pool: a tagged value model, a
//! big-endian binary codec for it, and a disassembler for function bodies.
pub mod be;
pub mod value;
pub mod codec;
pub mod laws;
pub mod text;
pub mod disasm;
pub mod display;
