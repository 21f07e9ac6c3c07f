//! Turning the records of an address map into function symbols.

use crate::address::{address_result, decode_address, AddressError};
use crate::inspector_metadata::{
    address_map_sources, function_sources, method_sources, MDAddrMap, MDFunction, MDMethod,
};
use elfkit::symbol::{Symbol, SymbolSectionIndex};
use elfkit::types::{SymbolBind, SymbolType, SymbolVis};
use vstd::prelude::*;
use vstd::utf8::encode_utf8;

verus! {

/// The address that `s` decodes to, where it decodes.
pub open spec fn decoded_address(s: Seq<char>) -> u64 {
    match address_result(s) {
        Ok(v) => v,
        Err(_) => 0,
    }
}

/// `sym` is the function symbol for the code at `addr` named by signature
/// `sig`, bound to section `code_section`, every other field at its default.
pub open spec fn is_function_symbol(sym: Symbol, addr: u64, sig: Seq<char>, code_section: u16) -> bool {
    &&& sym.name@ == encode_utf8(sig)
    &&& sym.value == addr
    &&& sym.stype == SymbolType::FUNC
    &&& sym.shndx == SymbolSectionIndex::Section(code_section)
    &&& sym.size == 0
    &&& sym.bind == SymbolBind::LOCAL
    &&& sym.vis == SymbolVis::DEFAULT
    &&& sym._name == 0
}

/// `syms` holds one function symbol per (address, signature) source, in order.
pub open spec fn symbols_for(
    syms: Seq<Symbol>,
    srcs: Seq<(Seq<char>, Seq<char>)>,
    code_section: u16,
) -> bool {
    &&& syms.len() == srcs.len()
    &&& forall|i: int|
        0 <= i < srcs.len() ==> is_function_symbol(
            #[trigger] syms[i],
            decoded_address(srcs[i].0),
            srcs[i].1,
            code_section,
        )
}

/// Every source address decodes.
pub open spec fn all_addresses_decode(srcs: Seq<(Seq<char>, Seq<char>)>) -> bool {
    forall|i: int| 0 <= i < srcs.len() ==> (#[trigger] address_result(srcs[i].0)) is Ok
}

/// `e` is the error of the first source address that does not decode.
pub open spec fn first_address_error(srcs: Seq<(Seq<char>, Seq<char>)>, e: AddressError) -> bool {
    exists|i: int|
        0 <= i < srcs.len() && address_result(#[trigger] srcs[i].0) == Err::<u64, AddressError>(e)
            && all_addresses_decode(srcs.take(i))
}

/// The function symbol for the code at address `addr` with signature `sig`.
fn function_symbol(addr: &String, sig: &String, code_section: u16) -> (r: Result<
    Symbol,
    AddressError,
>)
    ensures
        r is Ok <==> address_result(addr@) is Ok,
        r matches Err(e) ==> address_result(addr@) == Err::<u64, AddressError>(e),
        r matches Ok(sym) ==> is_function_symbol(sym, decoded_address(addr@), sig@, code_section),
{
    let value = decode_address(addr.as_str())?;
    Ok(
        Symbol {
            shndx: SymbolSectionIndex::Section(code_section),
            value: value,
            size: 0,
            name: sig.as_str().as_bytes_vec(),
            stype: SymbolType::FUNC,
            bind: SymbolBind::LOCAL,
            vis: SymbolVis::DEFAULT,
            _name: 0,
        },
    )
}

proof fn lemma_decode_concat(a: Seq<(Seq<char>, Seq<char>)>, b: Seq<(Seq<char>, Seq<char>)>)
    ensures
        all_addresses_decode(a + b) <==> all_addresses_decode(a) && all_addresses_decode(b),
{
    if all_addresses_decode(a + b) {
        assert forall|i: int| 0 <= i < a.len() implies (#[trigger] address_result(a[i].0)) is Ok by {
            assert((a + b)[i] == a[i]);
        }
        assert forall|i: int| 0 <= i < b.len() implies (#[trigger] address_result(b[i].0)) is Ok by {
            assert((a + b)[a.len() + i] == b[i]);
        }
    }
    if all_addresses_decode(a) && all_addresses_decode(b) {
        assert forall|i: int| 0 <= i < (a + b).len() implies (#[trigger] address_result(
            (a + b)[i].0,
        )) is Ok by {
            if i >= a.len() {
                assert((a + b)[i] == b[i - a.len()]);
            }
        }
    }
}

proof fn lemma_first_error_concat(
    a: Seq<(Seq<char>, Seq<char>)>,
    b: Seq<(Seq<char>, Seq<char>)>,
    e: AddressError,
)
    ensures
        first_address_error(a, e) ==> first_address_error(a + b, e),
        all_addresses_decode(a) && first_address_error(b, e) ==> first_address_error(a + b, e),
{
    if first_address_error(a, e) {
        let i = choose|i: int|
            0 <= i < a.len() && address_result(#[trigger] a[i].0) == Err::<u64, AddressError>(e)
                && all_addresses_decode(a.take(i));
        assert((a + b)[i] == a[i]);
        assert((a + b).take(i) =~= a.take(i));
    }
    if all_addresses_decode(a) && first_address_error(b, e) {
        let i = choose|i: int|
            0 <= i < b.len() && address_result(#[trigger] b[i].0) == Err::<u64, AddressError>(e)
                && all_addresses_decode(b.take(i));
        assert((a + b)[a.len() + i] == b[i]);
        assert((a + b).take(a.len() + i) =~= a + b.take(i));
        lemma_decode_concat(a, b.take(i));
    }
}

proof fn lemma_symbols_concat(
    x: Seq<Symbol>,
    y: Seq<Symbol>,
    a: Seq<(Seq<char>, Seq<char>)>,
    b: Seq<(Seq<char>, Seq<char>)>,
    code_section: u16,
)
    requires
        symbols_for(x, a, code_section),
        symbols_for(y, b, code_section),
    ensures
        symbols_for(x + y, a + b, code_section),
{
    assert forall|i: int| 0 <= i < (a + b).len() implies is_function_symbol(
        #[trigger] (x + y)[i],
        decoded_address((a + b)[i].0),
        (a + b)[i].1,
        code_section,
    ) by {
        if i < a.len() {
            assert((x + y)[i] == x[i]);
            assert((a + b)[i] == a[i]);
        } else {
            assert((x + y)[i] == y[i - a.len()]);
            assert((a + b)[i] == b[i - a.len()]);
        }
    }
}

/// One step of a loop that appends the symbol for source `i` to a list that
/// holds `n0` earlier symbols and then the symbols of the first `i` sources.
proof fn lemma_push_symbol(
    before: Seq<Symbol>,
    after: Seq<Symbol>,
    sym: Symbol,
    srcs: Seq<(Seq<char>, Seq<char>)>,
    n0: int,
    i: int,
    code_section: u16,
)
    requires
        0 <= n0,
        0 <= i < srcs.len(),
        before.len() == n0 + i,
        after == before.push(sym),
        all_addresses_decode(srcs.take(i)),
        symbols_for(before.skip(n0), srcs.take(i), code_section),
        address_result(srcs[i].0) is Ok,
        is_function_symbol(sym, decoded_address(srcs[i].0), srcs[i].1, code_section),
    ensures
        after.take(n0) == before.take(n0),
        all_addresses_decode(srcs.take(i + 1)),
        symbols_for(after.skip(n0), srcs.take(i + 1), code_section),
{
    assert(after.take(n0) =~= before.take(n0));
    lemma_symbols_concat(before.skip(n0), seq![sym], srcs.take(i), seq![srcs[i]], code_section);
    assert(before.skip(n0) + seq![sym] =~= after.skip(n0));
    assert(srcs.take(i) + seq![srcs[i]] =~= srcs.take(i + 1));
    assert forall|j: int| 0 <= j < srcs.take(i + 1).len() implies (#[trigger] address_result(
        srcs.take(i + 1)[j].0,
    )) is Ok by {
        if j < i {
            assert(srcs.take(i + 1)[j] == srcs.take(i)[j]);
        }
    }
}

/// Where all sources before `i` decode and source `i` does not, its error is
/// the first.
proof fn lemma_first_error_at(srcs: Seq<(Seq<char>, Seq<char>)>, i: int, e: AddressError)
    requires
        0 <= i < srcs.len(),
        all_addresses_decode(srcs.take(i)),
        address_result(srcs[i].0) == Err::<u64, AddressError>(e),
    ensures
        first_address_error(srcs, e),
        !all_addresses_decode(srcs),
{
}

/// Appends to `out` the symbols of the method definitions `recs`.
fn push_method_symbols(out: &mut Vec<Symbol>, recs: &Vec<MDMethod>, code_section: u16) -> (r:
    Result<(), AddressError>)
    ensures
        r is Ok <==> all_addresses_decode(method_sources(recs@)),
        r matches Err(e) ==> first_address_error(method_sources(recs@), e),
        r is Ok ==> final(out)@ == old(out)@ + final(out)@.skip(old(out)@.len() as int)
            && symbols_for(
            final(out)@.skip(old(out)@.len() as int),
            method_sources(recs@),
            code_section,
        ),
{
    let ghost srcs = method_sources(recs@);
    let ghost n0 = out@.len();
    let mut i: usize = 0;
    while i < recs.len()
        invariant
            i <= recs@.len(),
            srcs == method_sources(recs@),
            srcs.len() == recs@.len(),
            n0 == old(out)@.len(),
            out@.len() == n0 + i,
            out@.take(n0 as int) == old(out)@,
            all_addresses_decode(srcs.take(i as int)),
            symbols_for(out@.skip(n0 as int), srcs.take(i as int), code_section),
        decreases recs@.len() - i,
    {
        let rec = &recs[i];
        assert(srcs[i as int] == (rec.virtual_addr@, rec.sig@));
        match function_symbol(&rec.virtual_addr, &rec.sig, code_section) {
            Ok(sym) => {
                let ghost before = out@;
                out.push(sym);
                proof {
                    lemma_push_symbol(before, out@, sym, srcs, n0 as int, i as int, code_section);
                }
                i = i + 1;
            },
            Err(e) => {
                proof {
                    lemma_first_error_at(srcs, i as int, e);
                }
                return Err(e);
            },
        }
    }
    assert(srcs.take(i as int) =~= srcs);
    assert(out@ =~= old(out)@ + out@.skip(n0 as int));
    Ok(())
}

/// Appends to `out` the symbols of the functions `recs`.
fn push_function_symbols(out: &mut Vec<Symbol>, recs: &Vec<MDFunction>, code_section: u16) -> (r:
    Result<(), AddressError>)
    ensures
        r is Ok <==> all_addresses_decode(function_sources(recs@)),
        r matches Err(e) ==> first_address_error(function_sources(recs@), e),
        r is Ok ==> final(out)@ == old(out)@ + final(out)@.skip(old(out)@.len() as int)
            && symbols_for(
            final(out)@.skip(old(out)@.len() as int),
            function_sources(recs@),
            code_section,
        ),
{
    let ghost srcs = function_sources(recs@);
    let ghost n0 = out@.len();
    let mut i: usize = 0;
    while i < recs.len()
        invariant
            i <= recs@.len(),
            srcs == function_sources(recs@),
            srcs.len() == recs@.len(),
            n0 == old(out)@.len(),
            out@.len() == n0 + i,
            out@.take(n0 as int) == old(out)@,
            all_addresses_decode(srcs.take(i as int)),
            symbols_for(out@.skip(n0 as int), srcs.take(i as int), code_section),
        decreases recs@.len() - i,
    {
        let rec = &recs[i];
        assert(srcs[i as int] == (rec.virtual_addr@, rec.sig@));
        match function_symbol(&rec.virtual_addr, &rec.sig, code_section) {
            Ok(sym) => {
                let ghost before = out@;
                out.push(sym);
                proof {
                    lemma_push_symbol(before, out@, sym, srcs, n0 as int, i as int, code_section);
                }
                i = i + 1;
            },
            Err(e) => {
                proof {
                    lemma_first_error_at(srcs, i as int, e);
                }
                return Err(e);
            },
        }
    }
    assert(srcs.take(i as int) =~= srcs);
    assert(out@ =~= old(out)@ + out@.skip(n0 as int));
    Ok(())
}


/// The symbol list for the address map: one function symbol per record, bound
/// to section `code_section`, in the order method definitions, API entry
/// points, method invokers, each list in document order. Fails with the error
/// of the first record whose address does not decode.
///
/// `code_section` is the index of the section that holds the executable code
/// of the image.
pub fn synthesize_symbols(addr_map: &MDAddrMap, code_section: u16) -> (r: Result<
    Vec<Symbol>,
    AddressError,
>)
    ensures
        r is Ok <==> all_addresses_decode(address_map_sources(*addr_map)),
        r matches Err(e) ==> first_address_error(address_map_sources(*addr_map), e),
        r matches Ok(syms) ==> symbols_for(syms@, address_map_sources(*addr_map), code_section),
        r matches Ok(syms) ==> syms@.len() == addr_map.methods@.len() + addr_map.apis@.len()
            + addr_map.method_invokers@.len(),
{
    let ghost a = method_sources(addr_map.methods@);
    let ghost b = function_sources(addr_map.apis@);
    let ghost c = function_sources(addr_map.method_invokers@);
    proof {
        lemma_decode_concat(a, b);
        lemma_decode_concat(a + b, c);
    }
    let mut out: Vec<Symbol> = Vec::new();
    match push_method_symbols(&mut out, &addr_map.methods, code_section) {
        Ok(()) => {},
        Err(e) => {
            proof {
                lemma_first_error_concat(a, b, e);
                lemma_first_error_concat(a + b, c, e);
            }
            return Err(e);
        },
    }
    let ghost x = out@;
    assert(x.skip(0) =~= x);
    match push_function_symbols(&mut out, &addr_map.apis, code_section) {
        Ok(()) => {},
        Err(e) => {
            proof {
                lemma_first_error_concat(a, b, e);
                lemma_first_error_concat(a + b, c, e);
            }
            return Err(e);
        },
    }
    let ghost y = out@.skip(x.len() as int);
    proof {
        lemma_symbols_concat(x, y, a, b, code_section);
    }
    let ghost xy = out@;
    match push_function_symbols(&mut out, &addr_map.method_invokers, code_section) {
        Ok(()) => {},
        Err(e) => {
            proof {
                lemma_first_error_concat(a + b, c, e);
            }
            return Err(e);
        },
    }
    proof {
        lemma_symbols_concat(xy, out@.skip(xy.len() as int), a + b, c, code_section);
    }
    Ok(out)
}

/// Each synthesized symbol comes from one record, categories in the order
/// method definitions, API entry points, method invokers, and records in
/// their list order: the symbol's address is the record's decoded address and
/// its name is exactly the UTF-8 bytes of the record's signature.
pub proof fn lemma_symbol_sources(syms: Seq<Symbol>, m: MDAddrMap, code_section: u16)
    requires
        symbols_for(syms, address_map_sources(m), code_section),
    ensures
        syms.len() == m.methods@.len() + m.apis@.len() + m.method_invokers@.len(),
        forall|i: int|
            0 <= i < m.methods@.len() ==> {
                &&& (#[trigger] syms[i]).value == decoded_address(m.methods@[i].virtual_addr@)
                &&& syms[i].name@ == encode_utf8(m.methods@[i].sig@)
            },
        forall|i: int|
            0 <= i < m.apis@.len() ==> {
                &&& (#[trigger] syms[m.methods@.len() + i]).value == decoded_address(
                    m.apis@[i].virtual_addr@,
                )
                &&& syms[m.methods@.len() + i].name@ == encode_utf8(m.apis@[i].sig@)
            },
        forall|i: int|
            0 <= i < m.method_invokers@.len() ==> {
                &&& (#[trigger] syms[m.methods@.len() + m.apis@.len() + i]).value
                    == decoded_address(m.method_invokers@[i].virtual_addr@)
                &&& syms[m.methods@.len() + m.apis@.len() + i].name@ == encode_utf8(
                    m.method_invokers@[i].sig@,
                )
            },
{
    let a = method_sources(m.methods@);
    let b = function_sources(m.apis@);
    let c = function_sources(m.method_invokers@);
    let s = address_map_sources(m);
    assert forall|i: int| 0 <= i < m.methods@.len() implies {
        &&& (#[trigger] syms[i]).value == decoded_address(m.methods@[i].virtual_addr@)
        &&& syms[i].name@ == encode_utf8(m.methods@[i].sig@)
    } by {
        assert(s[i] == a[i]);
    }
    assert forall|i: int| 0 <= i < m.apis@.len() implies {
        &&& (#[trigger] syms[m.methods@.len() + i]).value == decoded_address(m.apis@[i].virtual_addr@)
        &&& syms[m.methods@.len() + i].name@ == encode_utf8(m.apis@[i].sig@)
    } by {
        assert(s[a.len() + i] == b[i]);
    }
    assert forall|i: int| 0 <= i < m.method_invokers@.len() implies {
        &&& (#[trigger] syms[m.methods@.len() + m.apis@.len() + i]).value == decoded_address(
            m.method_invokers@[i].virtual_addr@,
        )
        &&& syms[m.methods@.len() + m.apis@.len() + i].name@ == encode_utf8(m.method_invokers@[i].sig@)
    } by {
        assert(s[a.len() + b.len() + i] == c[i]);
    }
}

} // verus!
