use elfkit::elf::Elf;
use elfkit::section::{Section, SectionContent};
use elfkit::types::{SectionFlags, SectionType};
use il2cpp_symbols::elf::{SHT_STRTAB, SHT_SYMTAB};
use il2cpp_symbols::inspector_metadata::{MDAddrMap, MDFunction, MDMethod};
use il2cpp_symbols::symbols::synthesize_symbols;
use il2cpp_symbols::tables::{add_symbol_tables, SymbolTableError};

fn raw_section(offset: u64, declared: u64, content: usize) -> Section {
    let mut s = Section::new(
        b".text".to_vec(),
        SectionType(1),
        SectionFlags::empty(),
        SectionContent::Raw(vec![0u8; content]),
        0,
        0,
    );
    s.header.offset = offset;
    s.header.size = declared;
    s
}

fn two_symbols() -> Vec<elfkit::symbol::Symbol> {
    let map = MDAddrMap {
        methods: vec![MDMethod {
            virtual_addr: "0x1000".to_string(),
            name: "A".to_string(),
            sig: "A()".to_string(),
            dot_net_sig: "void A()".to_string(),
        }],
        apis: vec![MDFunction {
            virtual_addr: "0x2000".to_string(),
            name: "B".to_string(),
            sig: "B()".to_string(),
        }],
        method_invokers: vec![],
    };
    synthesize_symbols(&map, 11).unwrap()
}

#[test]
fn symtab_then_strtab_at_tail() {
    let mut elf = Elf::default();
    elf.sections = vec![raw_section(0, 0, 0), raw_section(0x1000, 200, 300)];
    assert_eq!(add_symbol_tables(&mut elf, two_symbols(), 500), Ok(()));
    assert_eq!(elf.sections.len(), 4);
    let symtab = &elf.sections[2];
    assert_eq!(symtab.name, b".symtab".to_vec());
    assert_eq!(symtab.header.shtype, SectionType(SHT_SYMTAB));
    assert_eq!(symtab.header.offset, 0x1000 + 300 + 500);
    assert_eq!(symtab.header.link, 3);
    assert_eq!(symtab.header.info, 2);
    assert_eq!(symtab.header.addralign, 8);
    assert_eq!(symtab.content.as_symbols().map(|v| v.len()), Some(2));
    let strtab = &elf.sections[3];
    assert_eq!(strtab.name, b".strtab".to_vec());
    assert_eq!(strtab.header.shtype, SectionType(SHT_STRTAB));
    assert_eq!(strtab.header.addralign, 1);
    assert_eq!(strtab.header.link, 0);
    assert!(matches!(strtab.content, SectionContent::Strtab(_)));
    // two 64-bit symbol entries of 24 bytes each
    assert_eq!(strtab.header.offset, 0x1000 + 300 + 500 + 48);
}

#[test]
fn symbol_tables_refuse_overflowing_offset() {
    let mut elf = Elf::default();
    elf.sections = vec![raw_section(u64::MAX - 4, 10, 0)];
    assert_eq!(
        add_symbol_tables(&mut elf, two_symbols(), 0),
        Err(SymbolTableError::OffsetOverflow)
    );
}

#[test]
fn string_table_overflow_undoes_symbol_table() {
    let mut elf = Elf::default();
    elf.sections = vec![raw_section(u64::MAX - 40, 10, 0)];
    assert_eq!(
        add_symbol_tables(&mut elf, two_symbols(), 0),
        Err(SymbolTableError::OffsetOverflow)
    );
    assert_eq!(elf.sections.len(), 1);
    assert_eq!(elf.sections[0].header.offset, u64::MAX - 40);
}

#[test]
fn symbol_tables_on_empty_image() {
    let mut elf = Elf::default();
    assert_eq!(add_symbol_tables(&mut elf, two_symbols(), 500), Ok(()));
    assert_eq!(elf.sections.len(), 2);
    assert_eq!(elf.sections[0].header.offset, 0);
    assert_eq!(elf.sections[0].header.link, 1);
    assert_eq!(elf.sections[1].header.offset, 48);
}
