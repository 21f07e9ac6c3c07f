//! Loading section content, and appending new sections at the tail of an
//! image so that no appended section overlaps the one before it.

use elfkit::elf::Elf;
use elfkit::header::Header;
use elfkit::section::{Section, SectionContent, SectionHeader};
use elfkit::strtab::Strtab;
use elfkit::types::SectionType;
use vstd::prelude::*;

verus! {

/// Section type: inactive header, or content kept as opaque raw bytes.
pub const SHT_NULL: u32 = 0;

/// Section type: symbol table.
pub const SHT_SYMTAB: u32 = 2;

/// Section type: string table.
pub const SHT_STRTAB: u32 = 3;

/// Section type: relocation entries with explicit addends.
pub const SHT_RELA: u32 = 4;

/// Section type: dynamic linking information.
pub const SHT_DYNAMIC: u32 = 6;

/// Section type: occupies no bytes in the file.
pub const SHT_NOBITS: u32 = 8;

/// Section type: dynamic symbol table.
pub const SHT_DYNSYM: u32 = 11;

/// Why loading the sections of an image stopped.
#[derive(Debug, Clone, Copy, PartialEq, Eq, Structural)]
pub enum LoadError {
    /// The section at this index could not be read or decoded.
    Section { index: usize },
}

/// Why a section could not be appended.
#[derive(Debug, Clone, Copy, PartialEq, Eq, Structural)]
pub enum AppendError {
    /// The computed start offset does not fit in 64 bits.
    OffsetOverflow,
}

/// Whether the codec decodes relocation-with-addend sections for the
/// machine that `h` names: it does for x86-64 alone.
pub open spec fn decodes_rela(h: Header) -> bool {
    h.machine is X86_64
}

/// The type under which a section of declared type `t` is loaded and written
/// back, in an image with file header `h`. Where the codec cannot decode
/// relocation-with-addend sections for the image's machine, those are kept as
/// raw bytes.
pub open spec fn loaded_type(t: u32, h: Header) -> u32 {
    if t == SHT_RELA && !decodes_rela(h) {
        SHT_NULL
    } else {
        t
    }
}

/// Types whose content the codec decodes into structured values.
pub open spec fn is_structured_type(t: u32) -> bool {
    t == SHT_STRTAB || t == SHT_RELA || t == SHT_SYMTAB || t == SHT_DYNSYM || t == SHT_DYNAMIC
}

/// Types whose content is kept as the raw bytes of the file.
pub open spec fn is_raw_type(t: u32) -> bool {
    !is_structured_type(t) && t != SHT_NOBITS
}

/// The content is of the kind the codec decodes a structured type `t` into.
pub open spec fn decoded_kind(t: u32, c: SectionContent) -> bool {
    if t == SHT_STRTAB {
        c is Strtab
    } else if t == SHT_RELA {
        c is Relocations
    } else if t == SHT_DYNAMIC {
        c is Dynamic
    } else {
        c is Symbols
    }
}

/// The header with its type replaced by the type it is loaded under.
pub open spec fn reclassified(s: SectionHeader, h: Header) -> SectionHeader {
    SectionHeader { shtype: SectionType(loaded_type(s.shtype.0, h)), ..s }
}

/// The two headers agree in every field but the type.
pub open spec fn same_but_type(a: SectionHeader, b: SectionHeader) -> bool {
    b == SectionHeader { shtype: b.shtype, ..a }
}

/// Whether the byte range that the header declares can be read from `data`:
/// an empty range always can, wherever it starts.
pub open spec fn range_in(h: SectionHeader, data: Seq<u8>) -> bool {
    h.size == 0 || h.offset + h.size <= data.len()
}

/// The byte range that the header declares.
pub open spec fn section_bytes(h: SectionHeader, data: Seq<u8>) -> Seq<u8> {
    if h.size == 0 {
        Seq::empty()
    } else {
        data.subrange(h.offset as int, h.offset + h.size)
    }
}

/// The content is raw bytes, and these are `bytes`.
pub open spec fn holds_raw_bytes(c: SectionContent, bytes: Seq<u8>) -> bool {
    match c {
        SectionContent::Raw(v) => v@ == bytes,
        _ => false,
    }
}

/// The section's content still has to be read from the file.
pub open spec fn needs_read(s: Section, h: Header) -> bool {
    s.content is Unloaded && loaded_type(s.header.shtype.0, h) != SHT_NOBITS
}

/// `new` is what loading `old` from the file bytes `data`, in an image with
/// file header `h`, leaves: the header reclassified; content read as raw
/// bytes wherever the loaded type is raw, and decoded wherever it is
/// structured; and the declared range within the file wherever it was read.
pub open spec fn loaded_from(old: Section, new: Section, data: Seq<u8>, h: Header) -> bool {
    &&& new.header == reclassified(old.header, h)
    &&& new.name == old.name
    &&& new.addrlock == old.addrlock
    &&& !(new.content is Unloaded)
    &&& !(old.content is Unloaded) ==> new.content == old.content
    &&& (old.content is Unloaded && new.header.shtype.0 == SHT_NOBITS) ==> new.content is None
    &&& needs_read(old, h) ==> range_in(old.header, data)
    &&& (old.content is Unloaded && is_raw_type(new.header.shtype.0)) ==> holds_raw_bytes(
        new.content,
        section_bytes(old.header, data),
    )
    &&& (old.content is Unloaded && is_structured_type(new.header.shtype.0)) ==> decoded_kind(
        new.header.shtype.0,
        new.content,
    )
}

/// Loading `s` may fail only where its declared range runs past the end of
/// the file, or where the codec decodes structured content.
pub open spec fn load_may_fail(s: Section, data: Seq<u8>, h: Header) -> bool {
    &&& needs_read(s, h)
    &&& !range_in(s.header, data) || is_structured_type(loaded_type(s.header.shtype.0, h))
}

/// Relies on elfkit's `Section::from_reader`: content that is already loaded
/// stays as it is; `NOBITS` content becomes empty; any other type reads the
/// declared byte range, and keeps it as raw bytes unless the type is one the
/// codec decodes (string table, relocations, symbol tables, dynamic), which
/// on success leaves content of the decoded kind. The read first allocates a
/// buffer of the declared size, which panics for sizes past `isize::MAX`: the
/// range must lie within `data`.
#[verifier::external_body]
fn read_section_content(section: &mut Section, data: &[u8], header: &Header) -> (r: Result<
    (),
    elfkit::error::Error,
>)
    requires
        (old(section).content is Unloaded && old(section).header.shtype.0 != SHT_NOBITS)
            ==> range_in(old(section).header, data@),
    ensures
        final(section).header == old(section).header,
        final(section).name == old(section).name,
        final(section).addrlock == old(section).addrlock,
        !(old(section).content is Unloaded) ==> r is Ok && final(section).content == old(
            section,
        ).content,
        (old(section).content is Unloaded && old(section).header.shtype.0 == SHT_NOBITS) ==> r is Ok
            && final(section).content is None,
        (old(section).content is Unloaded && is_raw_type(old(section).header.shtype.0)) ==> r is Ok
            && holds_raw_bytes(final(section).content, section_bytes(old(section).header, data@)),
        (old(section).content is Unloaded && is_structured_type(old(section).header.shtype.0) && r is Ok)
            ==> decoded_kind(old(section).header.shtype.0, final(section).content),
{
    section.from_reader(std::io::Cursor::new(data), None, header)
}

/// Whether the codec decodes relocation-with-addend sections for the machine
/// that `h` names.
fn machine_decodes_rela(h: &Header) -> (r: bool)
    ensures
        r == decodes_rela(*h),
{
    match h.machine {
        elfkit::types::Machine::X86_64 => true,
        _ => false,
    }
}

/// Whether the byte range that `h` declares lies within `data`.
fn range_within(h: &SectionHeader, data: &[u8]) -> (r: bool)
    ensures
        r == range_in(*h, data@),
{
    h.size == 0 || (h.offset <= data.len() as u64 && h.size <= data.len() as u64 - h.offset)
}

/// Loads the content of every section of `elf` from the file bytes `data`.
///
/// Where the codec cannot decode relocation-with-addend sections for the
/// image's machine, such a section has its type changed to `SHT_NULL` first,
/// for good: it is then read, and written back, as opaque raw bytes. Loading
/// stops at the first section whose declared range runs past the end of
/// `data`, or whose structured content the codec rejects; the sections before
/// it are loaded, and the ones after it are left as they were.
pub fn load_all_sections(data: &[u8], elf: &mut Elf) -> (r: Result<(), LoadError>)
    ensures
        final(elf).header == old(elf).header,
        final(elf).segments == old(elf).segments,
        final(elf).sections@.len() == old(elf).sections@.len(),
        forall|i: int|
            0 <= i < old(elf).sections@.len() ==> same_but_type(
                #[trigger] old(elf).sections@[i].header,
                final(elf).sections@[i].header,
            ) && final(elf).sections@[i].name == old(elf).sections@[i].name,
        r is Ok ==> forall|i: int|
            0 <= i < old(elf).sections@.len() ==> loaded_from(
                #[trigger] old(elf).sections@[i],
                final(elf).sections@[i],
                data@,
                old(elf).header,
            ),
        r matches Err(LoadError::Section { index }) ==> index < old(elf).sections@.len()
            && load_may_fail(old(elf).sections@[index as int], data@, old(elf).header),
        r matches Err(LoadError::Section { index }) ==> forall|j: int|
            0 <= j < index ==> loaded_from(
                #[trigger] old(elf).sections@[j],
                final(elf).sections@[j],
                data@,
                old(elf).header,
            ),
        r matches Err(LoadError::Section { index }) ==> forall|j: int|
            index < j < old(elf).sections@.len() ==> #[trigger] final(elf).sections@[j] == old(
                elf,
            ).sections@[j],
{
    let ghost orig = elf.sections@;
    let keep_rela = machine_decodes_rela(&elf.header);
    let mut rest: Vec<Section> = Vec::new();
    core::mem::swap(&mut rest, &mut elf.sections);
    let mut done: Vec<Section> = Vec::new();
    let n = rest.len();
    let mut i: usize = 0;
    while i < n
        invariant
            i <= n,
            n == orig.len(),
            elf.header == old(elf).header,
            elf.segments == old(elf).segments,
            keep_rela == decodes_rela(old(elf).header),
            orig == old(elf).sections@,
            done@.len() == i,
            rest@ == orig.subrange(i as int, n as int),
            forall|j: int|
                0 <= j < i ==> loaded_from(#[trigger] orig[j], done@[j], data@, old(elf).header),
        decreases n - i,
    {
        let mut section = rest.remove(0);
        assert(section == orig[i as int]);
        if section.header.shtype.0 == SHT_RELA && !keep_rela {
            section.header.shtype = SectionType(SHT_NULL);
        }
        let unread = match section.content {
            SectionContent::Unloaded => true,
            _ => false,
        };
        let failed = if unread && section.header.shtype.0 != SHT_NOBITS && !range_within(
            &section.header,
            data,
        ) {
            true
        } else {
            read_section_content(&mut section, data, &elf.header).is_err()
        };
        if failed {
            let ghost pre = done@;
            let ghost rest_before = rest@;
            done.push(section);
            done.append(&mut rest);
            core::mem::swap(&mut done, &mut elf.sections);
            proof {
                assert forall|j: int| 0 <= j < n implies same_but_type(
                    #[trigger] orig[j].header,
                    elf.sections@[j].header,
                ) && elf.sections@[j].name == orig[j].name by {
                    if j > i {
                        assert(elf.sections@[j] == orig[j]);
                    }
                }
                assert forall|j: int| 0 <= j < i implies loaded_from(
                    #[trigger] orig[j],
                    elf.sections@[j],
                    data@,
                    old(elf).header,
                ) by {
                    assert(elf.sections@[j] == pre[j]);
                }
                assert forall|j: int| i < j < n implies #[trigger] elf.sections@[j] == orig[j] by {
                    assert(elf.sections@[j] == rest_before[j - i - 1]);
                }
            }
            return Err(LoadError::Section { index: i });
        }
        done.push(section);
        i = i + 1;
    }
    core::mem::swap(&mut done, &mut elf.sections);
    Ok(())
}

/// Where a section appended after one at `offset` begins: past the larger of
/// that section's declared size and its content size, plus `padding` bytes.
pub open spec fn next_offset_spec(offset: u64, declared_size: u64, content_size: nat, padding: u64) -> int {
    offset + (if declared_size >= content_size {
        declared_size as nat
    } else {
        content_size
    }) + padding
}

/// The size of one symbol entry in an image of class `h.ident_class`.
pub open spec fn symbol_entry_size(h: Header) -> nat {
    if h.ident_class is Class64 {
        24
    } else {
        16
    }
}

/// The size of one dynamic entry in an image of class `h.ident_class`.
pub open spec fn dynamic_entry_size(h: Header) -> nat {
    if h.ident_class is Class64 {
        16
    } else {
        8
    }
}

/// The byte size of a string table's data, which the codec keeps private.
pub uninterp spec fn strtab_size(t: Strtab) -> nat;

/// What the content size of a section is, in an image with file header `h`:
/// nothing for no content, the byte count for raw content, the size of the
/// data for a string table, and the entry count times the entry size for
/// symbols, dynamic entries and (on x86-64, 24 bytes an entry) relocations.
/// Content that was never loaded has no size.
pub open spec fn content_size_matches(c: SectionContent, h: Header, size: nat) -> bool {
    match c {
        SectionContent::None => size == 0,
        SectionContent::Raw(v) => size == v@.len(),
        SectionContent::Strtab(t) => size == strtab_size(t),
        SectionContent::Symbols(v) => size == v@.len() * symbol_entry_size(h),
        SectionContent::Dynamic(v) => size == v@.len() * dynamic_entry_size(h),
        SectionContent::Relocations(v) => size == v@.len() * 24,
        SectionContent::Unloaded => false,
    }
}

/// The content size of `c` can be computed in an image with file header `h`:
/// it was loaded, and it is no relocation list for a machine other than
/// x86-64, whose entry size the codec does not know.
pub open spec fn content_sizable(c: SectionContent, h: Header) -> bool {
    !(c is Unloaded) && !(c is Relocations && !decodes_rela(h))
}

/// The section with its start offset set to `offset`.
pub open spec fn placed(s: Section, offset: u64) -> Section {
    Section { header: SectionHeader { offset: offset, ..s.header }, ..s }
}

/// The start offset for a section appended after one at `last_offset` with
/// declared size `last_size` and content size `last_content_size`, or `None`
/// where it does not fit in 64 bits.
pub fn next_offset(last_offset: u64, last_size: u64, last_content_size: u64, padding: u64) -> (r:
    Option<u64>)
    ensures
        next_offset_spec(last_offset, last_size, last_content_size as nat, padding) <= u64::MAX
            ==> r == Some(next_offset_spec(last_offset, last_size, last_content_size as nat, padding) as u64),
        next_offset_spec(last_offset, last_size, last_content_size as nat, padding) > u64::MAX
            ==> r is None,
{
    let extent = if last_size >= last_content_size {
        last_size
    } else {
        last_content_size
    };
    match last_offset.checked_add(extent) {
        Some(end) => end.checked_add(padding),
        None => None,
    }
}

/// Relies on elfkit's `SectionContent::size`: the byte size the content takes
/// when written, as `content_size_matches` states it (for a string table,
/// the length of its data). It panics on content
/// that was never loaded, and on relocations for any machine but x86-64.
#[verifier::external_body]
fn content_size(content: &SectionContent, header: &Header) -> (r: usize)
    requires
        content_sizable(*content, *header),
    ensures
        content_size_matches(*content, *header, r as nat),
        *content matches SectionContent::Strtab(t) ==> r as nat == strtab_size(t),
{
    content.size(header)
}

/// Appends `section` as the last section of `elf`, with no padding after the
/// section before it.
pub fn append_section(elf: &mut Elf, section: Section) -> (r: Result<(), AppendError>)
    requires
        old(elf).sections@.len() > 0 ==> content_sizable(
            old(elf).sections@.last().content,
            old(elf).header,
        ),
    ensures
        final(elf).header == old(elf).header,
        final(elf).segments == old(elf).segments,
        old(elf).sections@.len() == 0 ==> r is Ok && final(elf).sections@ == old(
            elf,
        ).sections@.push(section),
        old(elf).sections@.len() > 0 ==> exists|cs: nat|
            #![trigger content_size_matches(old(elf).sections@.last().content, old(elf).header, cs)]
            content_size_matches(old(elf).sections@.last().content, old(elf).header, cs) && appended_at(
                old(elf).sections@,
                final(elf).sections@,
                section,
                0,
                cs,
                r,
            ),
{
    append_section_with_padding(elf, section, 0)
}

/// The outcome of appending `section` after `old_secs`, whose last section has
/// content size `cs`: placed past the end of that section plus `padding`, or
/// refused, leaving the list as it was, where that offset overflows.
pub open spec fn appended_at(
    old_secs: Seq<Section>,
    new_secs: Seq<Section>,
    section: Section,
    padding: u64,
    cs: nat,
    r: Result<(), AppendError>,
) -> bool {
    let last = old_secs.last();
    let off = next_offset_spec(last.header.offset, last.header.size, cs, padding);
    if off <= u64::MAX {
        r is Ok && new_secs == old_secs.push(placed(section, off as u64))
    } else {
        r == Err::<(), AppendError>(AppendError::OffsetOverflow) && new_secs == old_secs
    }
}

/// Appends `section` as the last section of `elf`. Where `elf` already has
/// sections, the new one starts `padding` bytes past the end of the last one,
/// whose end is its offset plus the larger of its declared size and its
/// content size; with no sections it keeps the offset it carries.
pub fn append_section_with_padding(elf: &mut Elf, section: Section, padding: u64) -> (r: Result<
    (),
    AppendError,
>)
    requires
        old(elf).sections@.len() > 0 ==> content_sizable(
            old(elf).sections@.last().content,
            old(elf).header,
        ),
    ensures
        final(elf).header == old(elf).header,
        final(elf).segments == old(elf).segments,
        old(elf).sections@.len() == 0 ==> r is Ok && final(elf).sections@ == old(
            elf,
        ).sections@.push(section),
        old(elf).sections@.len() > 0 ==> exists|cs: nat|
            #![trigger content_size_matches(old(elf).sections@.last().content, old(elf).header, cs)]
            content_size_matches(old(elf).sections@.last().content, old(elf).header, cs) && appended_at(
                old(elf).sections@,
                final(elf).sections@,
                section,
                padding,
                cs,
                r,
            ),
{
    let mut section = section;
    let n = elf.sections.len();
    if n == 0 {
        elf.sections.push(section);
        return Ok(());
    }
    let last = &elf.sections[n - 1];
    let cs = content_size(&last.content, &elf.header);
    assert(content_size_matches(old(elf).sections@.last().content, old(elf).header, cs as nat));
    match next_offset(last.header.offset, last.header.size, cs as u64, padding) {
        Some(off) => {
            let ghost before = section;
            section.header.offset = off;
            assert(section == placed(before, off));
            elf.sections.push(section);
            Ok(())
        },
        None => Err(AppendError::OffsetOverflow),
    }
}

/// An appended section starts exactly `padding` bytes past the end of the
/// section before it, where that end counts the larger of the declared size
/// and the content size; so it never starts before that end, and starts
/// strictly after it when `padding` is positive.
pub proof fn lemma_append_offset(offset: u64, declared_size: u64, content_size: nat, padding: u64)
    ensures
        next_offset_spec(offset, declared_size, content_size, padding) == offset + (if declared_size
            >= content_size {
            declared_size as nat
        } else {
            content_size
        }) + padding,
        next_offset_spec(offset, declared_size, content_size, padding) >= offset + declared_size,
        next_offset_spec(offset, declared_size, content_size, padding) >= offset + content_size,
        padding > 0 ==> next_offset_spec(offset, declared_size, content_size, padding) > offset
            + declared_size,
        padding > 0 ==> next_offset_spec(offset, declared_size, content_size, padding) > offset
            + content_size,
{
}

/// A run of sections laid out one after another, each after the one before it
/// at `next_offset_spec` with that section's padding.
pub open spec fn chained(
    offsets: Seq<u64>,
    sizes: Seq<u64>,
    contents: Seq<nat>,
    paddings: Seq<u64>,
) -> bool {
    &&& sizes.len() == offsets.len() && contents.len() == offsets.len() && paddings.len()
        == offsets.len()
    &&& forall|i: int|
        0 <= i < offsets.len() - 1 ==> offsets[i + 1] == next_offset_spec(
            #[trigger] offsets[i],
            sizes[i],
            contents[i],
            paddings[i],
        )
}

/// The end of section `i` once its content has grown by `growth` bytes.
pub open spec fn grown_end(offsets: Seq<u64>, sizes: Seq<u64>, contents: Seq<nat>, growth: Seq<nat>, i: int) -> int {
    next_offset_spec(offsets[i], sizes[i], contents[i], 0) + growth[i]
}

proof fn lemma_chained_monotone(
    offsets: Seq<u64>,
    sizes: Seq<u64>,
    contents: Seq<nat>,
    paddings: Seq<u64>,
    i: int,
    j: int,
)
    requires
        chained(offsets, sizes, contents, paddings),
        0 <= i <= j < offsets.len(),
    ensures
        offsets[i] <= offsets[j],
    decreases j - i,
{
    if i < j {
        lemma_chained_monotone(offsets, sizes, contents, paddings, i, j - 1);
        assert(offsets[j] == next_offset_spec(offsets[j - 1], sizes[j - 1], contents[j - 1], paddings[j - 1]));
    }
}

/// Sections appended one after another start at strictly increasing offsets,
/// provided each is non-empty or followed by padding; and where each padding
/// is at least the growth its section's content will still undergo, no
/// section, grown, reaches the start of any later one.
pub proof fn lemma_appended_offsets_disjoint(
    offsets: Seq<u64>,
    sizes: Seq<u64>,
    contents: Seq<nat>,
    paddings: Seq<u64>,
    growth: Seq<nat>,
)
    requires
        chained(offsets, sizes, contents, paddings),
        growth.len() == offsets.len(),
        forall|i: int| 0 <= i < offsets.len() ==> #[trigger] growth[i] <= paddings[i],
        forall|i: int|
            0 <= i < offsets.len() ==> next_offset_spec(
                #[trigger] offsets[i],
                sizes[i],
                contents[i],
                paddings[i],
            ) > offsets[i],
    ensures
        forall|i: int, j: int|
            0 <= i < j < offsets.len() ==> #[trigger] offsets[i] < #[trigger] offsets[j],
        forall|i: int, j: int|
            0 <= i < j < offsets.len() ==> #[trigger] grown_end(offsets, sizes, contents, growth, i)
                <= #[trigger] offsets[j],
{
    assert forall|i: int, j: int| 0 <= i < j < offsets.len() implies #[trigger] offsets[i]
        < #[trigger] offsets[j] && grown_end(offsets, sizes, contents, growth, i) <= offsets[j] by {
        lemma_chained_monotone(offsets, sizes, contents, paddings, i + 1, j);
        assert(offsets[i + 1] == next_offset_spec(offsets[i], sizes[i], contents[i], paddings[i]));
        assert(growth[i] <= paddings[i]);
        assert(next_offset_spec(offsets[i], sizes[i], contents[i], paddings[i]) > offsets[i]);
    }
}

fn bytes_equal(a: &Vec<u8>, b: &Vec<u8>) -> (r: bool)
    ensures
        r <==> a@ == b@,
{
    if a.len() != b.len() {
        return false;
    }
    let mut i: usize = 0;
    while i < a.len()
        invariant
            i <= a@.len(),
            a@.len() == b@.len(),
            forall|j: int| 0 <= j < i ==> a@[j] == b@[j],
        decreases a@.len() - i,
    {
        if a[i] != b[i] {
            return false;
        }
        i = i + 1;
    }
    assert(a@ =~= b@);
    true
}

/// The index of the first section of `elf` named `name`, where there is one
/// and the index fits a symbol's 16-bit section field.
pub fn find_section(elf: &Elf, name: &Vec<u8>) -> (r: Option<u16>)
    ensures
        r matches Some(i) ==> i < elf.sections@.len() && elf.sections@[i as int].name@ == name@
            && forall|j: int| 0 <= j < i ==> (#[trigger] elf.sections@[j]).name@ != name@,
        r is None ==> forall|j: int|
            0 <= j < elf.sections@.len() && j <= u16::MAX ==> (#[trigger] elf.sections@[j]).name@
                != name@,
{
    let mut i: usize = 0;
    while i < elf.sections.len() && i <= u16::MAX as usize
        invariant
            i <= elf.sections@.len(),
            i <= u16::MAX + 1,
            forall|j: int| 0 <= j < i ==> (#[trigger] elf.sections@[j]).name@ != name@,
        decreases elf.sections@.len() - i,
    {
        if bytes_equal(&elf.sections[i].name, name) {
            return Some(i as u16);
        }
        i = i + 1;
    }
    None
}


/// Step `k` of a run of appends: `states[k + 1]` is what a successful
/// append of `sections[k]` with `paddings[k]` left after `states[k]`, and the
/// section placed there starts past the start of the one before it.
pub open spec fn append_step(
    states: Seq<Seq<Section>>,
    sections: Seq<Section>,
    paddings: Seq<u64>,
    h: Header,
    k: int,
) -> bool {
    exists|cs: nat|
        #![trigger content_size_matches(states[k].last().content, h, cs)]
        content_size_matches(states[k].last().content, h, cs) && appended_at(
            states[k],
            states[k + 1],
            sections[k],
            paddings[k],
            cs,
            Ok(()),
        ) && next_offset_spec(
            states[k].last().header.offset,
            states[k].last().header.size,
            cs,
            paddings[k],
        ) > states[k].last().header.offset
}

/// A run of appends: `states[0]` is a non-empty section list, and each next
/// state is the outcome of a successful append onto the one before.
pub open spec fn append_run(
    states: Seq<Seq<Section>>,
    sections: Seq<Section>,
    paddings: Seq<u64>,
    h: Header,
) -> bool {
    &&& states.len() == sections.len() + 1
    &&& paddings.len() == sections.len()
    &&& states[0].len() > 0
    &&& forall|k: int| 0 <= k < sections.len() ==> #[trigger] append_step(states, sections, paddings, h, k)
}

proof fn lemma_append_run_prefix(
    states: Seq<Seq<Section>>,
    sections: Seq<Section>,
    paddings: Seq<u64>,
    h: Header,
    m: int,
)
    requires
        append_run(states, sections, paddings, h),
        0 <= m <= sections.len(),
    ensures
        states[m].len() == states[0].len() + m,
        forall|i: int, j: int|
            states[0].len() - 1 <= i < j < states[m].len() ==> #[trigger] states[m][i].header.offset
                < #[trigger] states[m][j].header.offset,
    decreases m,
{
    if m > 0 {
        let k = m - 1;
        lemma_append_run_prefix(states, sections, paddings, h, k);
        assert(append_step(states, sections, paddings, h, k));
        let cs = choose|cs: nat|
            #![trigger content_size_matches(states[k].last().content, h, cs)]
            content_size_matches(states[k].last().content, h, cs) && appended_at(
                states[k],
                states[k + 1],
                sections[k],
                paddings[k],
                cs,
                Ok(()),
            ) && next_offset_spec(
                states[k].last().header.offset,
                states[k].last().header.size,
                cs,
                paddings[k],
            ) > states[k].last().header.offset;
        let n = states[k].len() as int;
        assert forall|i: int, j: int|
            states[0].len() - 1 <= i < j < states[m].len() implies #[trigger] states[m][i].header.offset
                < #[trigger] states[m][j].header.offset by {
            assert(states[m][i] == states[k][i]);
            if j < n {
                assert(states[m][j] == states[k][j]);
            } else {
                if i < n - 1 {
                    assert(states[k][i].header.offset < states[k][n - 1].header.offset);
                }
            }
        }
    }
}

/// Sections placed by a run of successful appends, each of which moves past
/// the start of the section before it (a non-empty section or positive
/// padding), start at strictly increasing offsets: from the last section of
/// the initial list through every appended one.
pub proof fn lemma_append_run_increasing(
    states: Seq<Seq<Section>>,
    sections: Seq<Section>,
    paddings: Seq<u64>,
    h: Header,
)
    requires
        append_run(states, sections, paddings, h),
    ensures
        states.last().len() == states[0].len() + sections.len(),
        states.last().take(states[0].len() as int) == states[0],
        forall|i: int, j: int|
            states[0].len() - 1 <= i < j < states.last().len() ==> #[trigger] states.last()[i].header.offset
                < #[trigger] states.last()[j].header.offset,
{
    lemma_append_run_prefix(states, sections, paddings, h, sections.len() as int);
    lemma_append_run_take(states, sections, paddings, h, sections.len() as int);
}

proof fn lemma_append_run_take(
    states: Seq<Seq<Section>>,
    sections: Seq<Section>,
    paddings: Seq<u64>,
    h: Header,
    m: int,
)
    requires
        append_run(states, sections, paddings, h),
        0 <= m <= sections.len(),
    ensures
        states[m].take(states[0].len() as int) == states[0],
    decreases m,
{
    if m > 0 {
        lemma_append_run_take(states, sections, paddings, h, m - 1);
        lemma_append_run_prefix(states, sections, paddings, h, m - 1);
        let k = m - 1;
        assert(append_step(states, sections, paddings, h, k));
        assert(states[m].take(states[0].len() as int) =~= states[k].take(states[0].len() as int));
    } else {
        assert(states[0].take(states[0].len() as int) =~= states[0]);
    }
}


/// A relocation-with-addend section that still has to be read, in an image
/// whose machine the codec cannot decode such sections for, is loaded with
/// the type `SHT_NULL` and holds exactly its declared byte range of the file.
pub proof fn lemma_rela_kept_raw(old: Section, new: Section, data: Seq<u8>, h: Header)
    requires
        loaded_from(old, new, data, h),
        old.content is Unloaded,
        old.header.shtype.0 == SHT_RELA,
        !decodes_rela(h),
    ensures
        new.header.shtype.0 == SHT_NULL,
        range_in(old.header, data),
        holds_raw_bytes(new.content, section_bytes(old.header, data)),
{
}

/// A section's content has one size: the appended offset that depends on it
/// is fixed by the section alone.
pub proof fn lemma_content_size_unique(c: SectionContent, h: Header, a: nat, b: nat)
    requires
        content_size_matches(c, h, a),
        content_size_matches(c, h, b),
    ensures
        a == b,
{
}

} // verus!
