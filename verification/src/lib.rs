//! A miniature ahead-of-time compiler: it lexes and parses a tiny
//! syscall-oriented language, lowers syscall invocations to a fixed
//! instruction vocabulary, resolves code offsets, encodes x86-64
//! instructions, and assembles a standalone ELF image byte for byte.

use vstd::prelude::*;

pub mod assemble;
pub mod bytes;
pub mod elf;
pub mod encode;
pub mod ir;
pub mod lexer;
pub mod offsets;
pub mod op;
pub mod parser;
pub mod pipeline;
pub mod program;
pub mod section;

verus! {

/// The errors a compilation can end with. Lexing, parsing and lowering
/// are otherwise lenient: malformed constructs are dropped silently.
#[derive(Clone, Copy, Debug, PartialEq, Eq)]
pub enum CompileError {
    /// An integer literal in the source does not fit in 64 bits.
    IntegerOverflow,
    /// A syscall id or argument value does not fit the one-byte
    /// instruction operand (the encodable range is 0 to 255).
    ValueOutOfRange,
    /// The program's code or data region cannot be addressed with
    /// the 32-bit offsets the fixed executable template uses.
    ImageTooLarge,
}

} // verus!
