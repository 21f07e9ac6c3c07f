use elfkit::symbol::SymbolSectionIndex;
use elfkit::types::{SymbolBind, SymbolType, SymbolVis};
use il2cpp_symbols::address::AddressError;
use il2cpp_symbols::inspector_metadata::{MDAddrMap, MDFunction, MDMethod};
use il2cpp_symbols::symbols::synthesize_symbols;

fn method(addr: &str, sig: &str) -> MDMethod {
    MDMethod {
        virtual_addr: addr.to_string(),
        name: "Name".to_string(),
        sig: sig.to_string(),
        dot_net_sig: "void Name()".to_string(),
    }
}

fn function(addr: &str, sig: &str) -> MDFunction {
    MDFunction {
        virtual_addr: addr.to_string(),
        name: "Name".to_string(),
        sig: sig.to_string(),
    }
}

#[test]
fn two_record_round_trip() {
    let map = MDAddrMap {
        methods: vec![method("0x1000", "A()")],
        apis: vec![function("0x2000", "B()")],
        method_invokers: vec![],
    };
    let syms = synthesize_symbols(&map, 11).unwrap();
    assert_eq!(syms.len(), 2);
    assert_eq!(syms[0].value, 0x1000);
    assert_eq!(syms[0].name, b"A()".to_vec());
    assert_eq!(syms[1].value, 0x2000);
    assert_eq!(syms[1].name, b"B()".to_vec());
}

#[test]
fn symbols_are_functions_in_code_section() {
    let map = MDAddrMap {
        methods: vec![method("0x10", "void M(int)")],
        apis: vec![],
        method_invokers: vec![],
    };
    let syms = synthesize_symbols(&map, 11).unwrap();
    assert_eq!(syms[0].stype, SymbolType::FUNC);
    assert_eq!(syms[0].shndx, SymbolSectionIndex::Section(11));
    assert_eq!(syms[0].size, 0);
    assert_eq!(syms[0].bind, SymbolBind::LOCAL);
    assert_eq!(syms[0].vis, SymbolVis::DEFAULT);
}

#[test]
fn categories_keep_order_and_count() {
    let map = MDAddrMap {
        methods: vec![method("0x3", "m0"), method("0x1", "m1")],
        apis: vec![function("0x20", "a0")],
        method_invokers: vec![function("0x300", "i0"), function("0x100", "i1"), function("0x100", "i1")],
    };
    let syms = synthesize_symbols(&map, 7).unwrap();
    assert_eq!(syms.len(), 6);
    let values: Vec<u64> = syms.iter().map(|s| s.value).collect();
    assert_eq!(values, vec![0x3, 0x1, 0x20, 0x300, 0x100, 0x100]);
    let names: Vec<Vec<u8>> = syms.iter().map(|s| s.name.clone()).collect();
    assert_eq!(
        names,
        vec![
            b"m0".to_vec(),
            b"m1".to_vec(),
            b"a0".to_vec(),
            b"i0".to_vec(),
            b"i1".to_vec(),
            b"i1".to_vec()
        ]
    );
}

#[test]
fn names_keep_signature_bytes_exactly() {
    let sig = "System.Void Ns.Cls::Méthode(System.String, \"q\")";
    let map = MDAddrMap {
        methods: vec![],
        apis: vec![],
        method_invokers: vec![function("0xABC", sig)],
    };
    let syms = synthesize_symbols(&map, 1).unwrap();
    assert_eq!(syms[0].name, sig.as_bytes().to_vec());
    assert_eq!(syms[0].value, 0xabc);
}

#[test]
fn empty_map_gives_no_symbols() {
    let map = MDAddrMap { methods: vec![], apis: vec![], method_invokers: vec![] };
    assert_eq!(synthesize_symbols(&map, 11).unwrap().len(), 0);
}

#[test]
fn first_bad_address_is_reported() {
    let map = MDAddrMap {
        methods: vec![method("0x1", "ok"), method("0x1ffffffffffffffff", "big")],
        apis: vec![function("12", "noprefix")],
        method_invokers: vec![],
    };
    assert_eq!(synthesize_symbols(&map, 11).err(), Some(AddressError::Overflow));
    let map = MDAddrMap {
        methods: vec![method("0x1", "ok")],
        apis: vec![function("0x2", "ok")],
        method_invokers: vec![function("0xq", "bad")],
    };
    assert_eq!(synthesize_symbols(&map, 11).err(), Some(AddressError::InvalidDigit));
}
