//! A 32-bit register-machine emulator and the two-pass symbolic assembler
//! that targets it.
//!
//! The crate is split in three:
//! - [`isa`] defines the opcode catalogue, the 6-byte instruction encodings,
//!   and the decoder, together with proofs that encoding and decoding are
//!   inverse to each other;
//! - [`assembler`] compiles assembly text into the binary instruction stream,
//!   resolving labels over two passes;
//! - [`machine`] executes a loaded instruction stream one fetch-decode-execute
//!   cycle at a time against a flat byte-addressable memory and a register
//!   file of sixteen 32-bit registers.

pub mod isa;

pub mod assembler;

pub mod machine;

pub use machine::M0_32;

