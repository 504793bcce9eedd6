//! Patching the symbol-version compatibility table of a compiled kernel
//! loadable module (an ELF relocatable object), so that the module can be
//! loaded against a kernel expecting different symbol checksums.
//!
//! The `__versions` section of such a module holds fixed 64-byte records,
//! each pairing a symbol name with the 64-bit checksum the module was built
//! against. This library locates that section, decodes it into an addressable
//! table, and computes the exact in-place byte mutations that rewrite chosen
//! checksums — either copying them from a reference module's table, or
//! writing one explicit value over the distinguished `module_layout` symbol —
//! without disturbing any other byte of the image.

pub mod codec;
pub mod elf;
pub mod patch;
pub mod records;
