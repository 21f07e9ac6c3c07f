use elfkit::elf::Elf;
use elfkit::section::{Section, SectionContent};
use elfkit::types::{Machine, SectionFlags, SectionType};
use il2cpp_symbols::elf::{load_all_sections, LoadError, SHT_NULL, SHT_RELA};

fn unloaded(shtype: u32, offset: u64, size: u64) -> Section {
    let mut s = Section::new(
        b".s".to_vec(),
        SectionType(shtype),
        SectionFlags::empty(),
        SectionContent::Unloaded,
        0,
        0,
    );
    s.header.offset = offset;
    s.header.size = size;
    s
}

fn bytes() -> Vec<u8> {
    (0u8..32).collect()
}

#[test]
fn rela_section_is_kept_raw() {
    let mut elf = Elf::default();
    elf.header.machine = Machine::AARCH64;
    elf.sections = vec![unloaded(SHT_RELA, 4, 8)];
    assert_eq!(load_all_sections(&bytes(), &mut elf), Ok(()));
    assert_eq!(elf.sections[0].header.shtype, SectionType(SHT_NULL));
    assert_eq!(elf.sections[0].content.as_raw(), Some(&vec![4u8, 5, 6, 7, 8, 9, 10, 11]));
    assert_eq!(elf.sections[0].header.offset, 4);
    assert_eq!(elf.sections[0].header.size, 8);
}

#[test]
fn other_raw_sections_keep_their_type() {
    let mut elf = Elf::default();
    elf.sections = vec![unloaded(1, 0, 3), unloaded(8, 10, 100), unloaded(7, 30, 2)];
    assert_eq!(load_all_sections(&bytes(), &mut elf), Ok(()));
    assert_eq!(elf.sections[0].header.shtype, SectionType(1));
    assert_eq!(elf.sections[0].content.as_raw(), Some(&vec![0u8, 1, 2]));
    assert_eq!(elf.sections[1].header.shtype, SectionType(8));
    assert!(matches!(elf.sections[1].content, SectionContent::None));
    assert_eq!(elf.sections[2].content.as_raw(), Some(&vec![30u8, 31]));
}

#[test]
fn range_past_end_fails_at_its_index() {
    let mut elf = Elf::default();
    elf.sections = vec![unloaded(1, 0, 3), unloaded(SHT_RELA, 28, 8)];
    assert_eq!(
        load_all_sections(&bytes(), &mut elf),
        Err(LoadError::Section { index: 1 })
    );
    assert_eq!(elf.sections.len(), 2);
}

#[test]
fn loaded_content_is_left_alone() {
    let mut elf = Elf::default();
    let mut s = unloaded(1, 0, 3);
    s.content = SectionContent::Raw(vec![9, 9]);
    elf.sections = vec![s];
    assert_eq!(load_all_sections(&bytes(), &mut elf), Ok(()));
    assert_eq!(elf.sections[0].content.as_raw(), Some(&vec![9u8, 9]));
}

#[test]
fn empty_range_past_end_loads_empty() {
    let mut elf = Elf::default();
    elf.sections = vec![unloaded(1, 100, 0)];
    assert_eq!(load_all_sections(&bytes(), &mut elf), Ok(()));
    assert_eq!(elf.sections[0].content.as_raw(), Some(&vec![]));
}

#[test]
fn rela_section_is_decoded_on_x86_64() {
    let mut data = vec![0u8; 8];
    data.extend_from_slice(&0x1000u64.to_le_bytes());
    data.extend_from_slice(&((3u64 << 32) | 1).to_le_bytes());
    data.extend_from_slice(&8u64.to_le_bytes());
    let mut elf = Elf::default();
    elf.header.machine = Machine::X86_64;
    elf.sections = vec![unloaded(SHT_RELA, 8, 24)];
    assert_eq!(load_all_sections(&data, &mut elf), Ok(()));
    assert_eq!(elf.sections[0].header.shtype, SectionType(SHT_RELA));
    let relocs = elf.sections[0].content.as_relocations().unwrap();
    assert_eq!(relocs.len(), 1);
    assert_eq!(relocs[0].addr, 0x1000);
    assert_eq!(relocs[0].sym, 3);
}

#[test]
fn oversized_section_fails_without_reading() {
    let mut elf = Elf::default();
    elf.sections = vec![unloaded(1, 0, 3), unloaded(1, 0, u64::MAX), unloaded(1, 0, 1)];
    assert_eq!(
        load_all_sections(&bytes(), &mut elf),
        Err(LoadError::Section { index: 1 })
    );
    assert_eq!(elf.sections[1].header.size, u64::MAX);
    assert!(matches!(elf.sections[2].content, SectionContent::Unloaded));
}

#[test]
fn string_table_is_decoded() {
    let mut elf = Elf::default();
    elf.sections = vec![unloaded(3, 0, 4)];
    assert_eq!(load_all_sections(&bytes(), &mut elf), Ok(()));
    assert!(matches!(elf.sections[0].content, SectionContent::Strtab(_)));
}
