//! The types of the elfkit crate that the library reads and builds.
//!
//! The file header, section headers, sections, their content and symbols are
//! plain data with public fields: they are declared with those fields
//! visible, so that the contracts can speak of the machine, the class,
//! offsets, sizes and symbol fields directly. The remaining types are carried
//! through unopened.

use vstd::prelude::*;

verus! {

#[verifier::external_type_specification]
pub struct ExSectionType(elfkit::types::SectionType);

#[verifier::external_type_specification]
#[verifier::external_body]
pub struct ExSectionFlags(elfkit::types::SectionFlags);

#[verifier::external_type_specification]
pub struct ExSectionHeader(elfkit::section::SectionHeader);

#[verifier::external_type_specification]
pub struct ExHeader(elfkit::header::Header);

#[verifier::external_type_specification]
pub struct ExClass(elfkit::types::Class);

#[verifier::external_type_specification]
pub struct ExMachine(elfkit::types::Machine);

#[verifier::external_type_specification]
#[verifier::external_body]
pub struct ExEndianness(elfkit::types::Endianness);

#[verifier::external_type_specification]
#[verifier::external_body]
pub struct ExAbi(elfkit::types::Abi);

#[verifier::external_type_specification]
#[verifier::external_body]
pub struct ExElfType(elfkit::types::ElfType);

#[verifier::external_type_specification]
#[verifier::external_body]
pub struct ExHeaderFlags(elfkit::types::HeaderFlags);

#[verifier::external_type_specification]
#[verifier::external_body]
pub struct ExSegmentHeader(elfkit::segment::SegmentHeader);

#[verifier::external_type_specification]
#[verifier::external_body]
pub struct ExRelocation(elfkit::relocation::Relocation);

#[verifier::external_type_specification]
#[verifier::external_body]
pub struct ExDynamic(elfkit::dynamic::Dynamic);

#[verifier::external_type_specification]
#[verifier::external_body]
pub struct ExStrtab(elfkit::strtab::Strtab);

#[verifier::external_type_specification]
#[verifier::external_body]
pub struct ExError(elfkit::error::Error);

#[verifier::external_type_specification]
pub struct ExSymbolSectionIndex(elfkit::symbol::SymbolSectionIndex);

#[verifier::external_type_specification]
pub struct ExSymbolType(elfkit::types::SymbolType);

#[verifier::external_type_specification]
pub struct ExSymbolBind(elfkit::types::SymbolBind);

#[verifier::external_type_specification]
pub struct ExSymbolVis(elfkit::types::SymbolVis);

#[verifier::external_type_specification]
pub struct ExSymbol(elfkit::symbol::Symbol);

#[verifier::external_type_specification]
pub struct ExSectionContent(elfkit::section::SectionContent);

#[verifier::external_type_specification]
pub struct ExSection(elfkit::section::Section);

#[verifier::external_type_specification]
pub struct ExElf(elfkit::elf::Elf);

} // verus!
