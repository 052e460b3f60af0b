//! Decoder and functional emulator for a subset of the Intel 8086 instruction
//! set: a byte image is decoded into a NASM listing with synthesized jump
//! labels, and executed against a simulated processor with register/flag/IP
//! tracing and clock estimates.
//!
//! - `ast`: instructions and operands.
//! - `decoder`: opcode families, framing, labels and the ordered listing.
//! - `printer`: NASM text of instructions.
//! - `machine`: registers with byte/word aliasing, flags and memory.
//! - `emulator`: program table, instruction semantics, clocks, steps.
//! - `tracer`: trace lines, final-state report and the run loop.
//! - `text`: decimal, hexadecimal and binary rendering.

pub mod ast;
pub mod text;
pub mod decoder;
pub mod machine;
pub mod emulator;
pub mod printer;
pub mod tracer;
