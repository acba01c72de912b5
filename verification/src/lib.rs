//! Inspection of AArch64 ELF64 object files: endian-aware field decoding,
//! header and section-table parsing, and a partial instruction decoder that
//! renders machine words as an assembly-like listing.

pub mod decode_byte;
pub mod text;
pub mod disassemble;
pub mod hex;
