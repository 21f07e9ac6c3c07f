//! Rebuilds the symbol table of a stripped shared object from an address map,
//! and places the new sections at the tail of the image without overlap.

pub mod address;
pub mod elf;
pub mod elf_types;
pub mod inspector_metadata;
pub mod symbols;
pub mod tables;
