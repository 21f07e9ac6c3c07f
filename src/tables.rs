//! The two sections that carry synthesized symbols: a symbol table and the
//! string table its names go to, appended in that order at the tail of an
//! image.

use crate::elf::{
    append_section, append_section_with_padding, appended_at, content_size_matches, content_sizable,
    next_offset_spec, strtab_size, symbol_entry_size, AppendError, SHT_STRTAB, SHT_SYMTAB,
};
use elfkit::elf::Elf;
use elfkit::header::Header;
use elfkit::section::{Section, SectionContent, SectionHeader};
use elfkit::strtab::Strtab;
use elfkit::symbol::Symbol;
use elfkit::types::{SectionFlags, SectionType};
use vstd::prelude::*;

verus! {

pub assume_specification[ elfkit::section::Section::new ](
    name: Vec<u8>,
    shtype: SectionType,
    flags: SectionFlags,
    content: SectionContent,
    link: u32,
    info: u32,
) -> (r: Section)
    ensures
        r.name == name,
        r.header == (SectionHeader {
            name: 0,
            shtype: shtype,
            flags: flags,
            addr: 0,
            offset: 0,
            size: 0,
            link: link,
            info: info,
            addralign: 0,
            entsize: 0,
        }),
        r.content == content,
        r.addrlock == false,
;

pub assume_specification[ elfkit::types::SectionFlags::empty ]() -> SectionFlags;

/// Relies on elfkit's `Strtab::default`: a string table with no names yet,
/// whose data is empty.
#[verifier::external_body]
fn empty_strtab() -> (r: Strtab)
    ensures
        strtab_size(r) == 0,
{
    Strtab::default()
}

/// The bytes of the name `.symtab`.
pub open spec fn symtab_name() -> Seq<u8> {
    seq![0x2eu8, 0x73u8, 0x79u8, 0x6du8, 0x74u8, 0x61u8, 0x62u8]
}

/// The bytes of the name `.strtab`.
pub open spec fn strtab_name() -> Seq<u8> {
    seq![0x2eu8, 0x73u8, 0x74u8, 0x72u8, 0x74u8, 0x61u8, 0x62u8]
}

/// Why the symbol sections could not be added.
#[derive(Debug, Clone, Copy, PartialEq, Eq, Structural)]
pub enum SymbolTableError {
    /// The section count or the symbol count does not fit a 32-bit header field.
    TooManyEntries,
    /// A section's start offset does not fit in 64 bits.
    OffsetOverflow,
}

/// `s` is the symbol table section for `symbols`, whose names go to the
/// section at index `link`.
pub open spec fn is_symtab_section(s: Section, symbols: Seq<Symbol>, link: u32) -> bool {
    &&& s.name@ == symtab_name()
    &&& s.header.shtype.0 == SHT_SYMTAB
    &&& s.header.link == link
    &&& s.header.info == symbols.len()
    &&& s.header.addralign == 8
    &&& s.header.size == 0
    &&& (s.content matches SectionContent::Symbols(v) && v@ == symbols)
}

/// `s` is an empty string table section.
pub open spec fn is_strtab_section(s: Section) -> bool {
    &&& s.name@ == strtab_name()
    &&& s.header.shtype.0 == SHT_STRTAB
    &&& s.header.link == 0
    &&& s.header.info == 0
    &&& s.header.addralign == 1
    &&& s.header.size == 0
    &&& (s.content matches SectionContent::Strtab(t) && strtab_size(t) == 0)
}

/// `s` starts where a section appended after `prev` with `padding` starts,
/// in an image with file header `h`.
pub open spec fn starts_after(prev: Section, s: Section, h: Header, padding: u64) -> bool {
    exists|cs: nat|
        #![trigger content_size_matches(prev.content, h, cs)]
        content_size_matches(prev.content, h, cs) && s.header.offset == next_offset_spec(
            prev.header.offset,
            prev.header.size,
            cs,
            padding,
        )
}

/// Whether the two sections for `count` symbols overflow 64-bit offsets when
/// appended after the sections `secs` of an image with file header `h`: the
/// symbol table starts `padding` bytes past the end of the last section, and
/// the string table where the symbol entries end.
pub open spec fn tables_overflow(secs: Seq<Section>, h: Header, count: nat, padding: u64) -> bool {
    secs.len() > 0 && exists|cs: nat|
        #![trigger content_size_matches(secs.last().content, h, cs)]
        content_size_matches(secs.last().content, h, cs) && next_offset_spec(
            secs.last().header.offset,
            secs.last().header.size,
            cs,
            padding,
        ) + count * symbol_entry_size(h) > u64::MAX
}

/// Adds a symbol table holding `symbols` and the string table for their
/// names as the last two sections of `elf`. The symbol table links to the
/// string table, counts the symbols and is 8-byte aligned; the string table is
/// 1-byte aligned. The symbol table starts `padding` bytes past the end of the
/// section before it, which leaves room for the string table to grow when
/// the names are written into it; the string table starts where the symbol
/// entries end. On failure `elf` is left as it was.
pub fn add_symbol_tables(elf: &mut Elf, symbols: Vec<Symbol>, padding: u64) -> (r: Result<
    (),
    SymbolTableError,
>)
    requires
        old(elf).sections@.len() > 0 ==> content_sizable(
            old(elf).sections@.last().content,
            old(elf).header,
        ),
    ensures
        final(elf).header == old(elf).header,
        final(elf).segments == old(elf).segments,
        r is Err ==> final(elf).sections@ == old(elf).sections@,
        (r == Err::<(), SymbolTableError>(SymbolTableError::TooManyEntries)) <==> (old(
            elf,
        ).sections@.len() + 1 > u32::MAX || symbols@.len() > u32::MAX),
        r == Err::<(), SymbolTableError>(SymbolTableError::OffsetOverflow) ==> tables_overflow(
            old(elf).sections@,
            old(elf).header,
            symbols@.len(),
            padding,
        ),
        r is Ok ==> {
            let n = old(elf).sections@.len() as int;
            let secs = final(elf).sections@;
            &&& secs.len() == n + 2
            &&& secs.take(n) == old(elf).sections@
            &&& is_symtab_section(secs[n], symbols@, (n + 1) as u32)
            &&& is_strtab_section(secs[n + 1int])
            &&& n > 0 ==> starts_after(old(elf).sections@.last(), secs[n], old(elf).header, padding)
            &&& n == 0 ==> secs[n].header.offset == 0
            &&& secs[n + 1int].header.offset == secs[n].header.offset + symbols@.len()
                * symbol_entry_size(old(elf).header)
        },
{
    let n = elf.sections.len();
    if n >= u32::MAX as usize || symbols.len() > u32::MAX as usize {
        return Err(SymbolTableError::TooManyEntries);
    }
    let ghost secs0 = elf.sections@;
    let ghost syms = symbols@;
    let ghost h = elf.header;
    let count = symbols.len() as u32;
    let mut symtab = Section::new(
        vec![0x2eu8, 0x73u8, 0x79u8, 0x6du8, 0x74u8, 0x61u8, 0x62u8],
        SectionType(SHT_SYMTAB),
        SectionFlags::empty(),
        SectionContent::Symbols(symbols),
        n as u32 + 1,
        count,
    );
    symtab.header.addralign = 8;
    let mut strtab = Section::new(
        vec![0x2eu8, 0x73u8, 0x74u8, 0x72u8, 0x74u8, 0x61u8, 0x62u8],
        SectionType(SHT_STRTAB),
        SectionFlags::empty(),
        SectionContent::Strtab(empty_strtab()),
        0,
        0,
    );
    strtab.header.addralign = 1;
    assert(symtab.name@ =~= symtab_name());
    assert(strtab.name@ =~= strtab_name());
    let ghost symsize = syms.len() * symbol_entry_size(h);
    if append_section_with_padding(elf, symtab, padding).is_err() {
        proof {
            let cs = choose|cs: nat|
                #![trigger content_size_matches(secs0.last().content, h, cs)]
                content_size_matches(secs0.last().content, h, cs) && appended_at(
                    secs0,
                    elf.sections@,
                    symtab,
                    padding,
                    cs,
                    Err(AppendError::OffsetOverflow),
                );
            assert(content_size_matches(secs0.last().content, h, cs));
        }
        return Err(SymbolTableError::OffsetOverflow);
    }
    let ghost secs1 = elf.sections@;
    if append_section(elf, strtab).is_err() {
        let _ = elf.sections.pop();
        assert(elf.sections@ =~= secs0);
        proof {
            assert(n > 0) by {
                if n == 0 {
                    assert(secs1.last().header.offset == 0);
                    assert(symsize <= 0xffff_ffff * 24) by (nonlinear_arith)
                        requires
                            symsize == syms.len() * symbol_entry_size(h),
                            syms.len() <= 0xffff_ffff,
                            symbol_entry_size(h) <= 24,
                    ;
                }
            }
            let cs = choose|cs: nat|
                #![trigger content_size_matches(secs0.last().content, h, cs)]
                content_size_matches(secs0.last().content, h, cs) && appended_at(
                    secs0,
                    secs1,
                    symtab,
                    padding,
                    cs,
                    Ok(()),
                );
            assert(content_size_matches(secs0.last().content, h, cs));
        }
        return Err(SymbolTableError::OffsetOverflow);
    }
    let ghost secs2 = elf.sections@;
    assert(secs2.take(n as int) =~= secs0);
    assert(secs2[n as int] == secs1[n as int]);
    Ok(())
}

} // verus!
