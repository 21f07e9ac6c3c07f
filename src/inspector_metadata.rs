//! The records of the address map that a metadata dump lists: where each
//! method was placed in the binary, and under which signature.

use vstd::prelude::*;

verus! {

/// A whole metadata document.
#[derive(Debug)]
pub struct MDFile {
    pub addr_map: MDAddrMap,
}

/// The address map: three record lists, in document order.
#[derive(Debug)]
pub struct MDAddrMap {
    /// Method definitions.
    pub methods: Vec<MDMethod>,
    /// API entry points.
    pub apis: Vec<MDFunction>,
    /// Method invokers.
    pub method_invokers: Vec<MDFunction>,
}

/// A method definition.
#[derive(Debug)]
pub struct MDMethod {
    /// Virtual address, written `0x` and hex digits.
    pub virtual_addr: String,
    /// Display name; not unique.
    pub name: String,
    /// Signature; names the method uniquely.
    pub sig: String,
    /// Signature in the source language.
    pub dot_net_sig: String,
}

/// An API entry point or a method invoker.
#[derive(Debug)]
pub struct MDFunction {
    /// Virtual address, written `0x` and hex digits.
    pub virtual_addr: String,
    /// Display name; not unique.
    pub name: String,
    /// Signature; names the function uniquely.
    pub sig: String,
}

/// The (address, signature) pairs of method definitions, in order.
pub open spec fn method_sources(v: Seq<MDMethod>) -> Seq<(Seq<char>, Seq<char>)> {
    v.map_values(|m: MDMethod| (m.virtual_addr@, m.sig@))
}

/// The (address, signature) pairs of functions, in order.
pub open spec fn function_sources(v: Seq<MDFunction>) -> Seq<(Seq<char>, Seq<char>)> {
    v.map_values(|f: MDFunction| (f.virtual_addr@, f.sig@))
}

/// The (address, signature) pairs of all records of the map: method
/// definitions, then API entry points, then method invokers.
pub open spec fn address_map_sources(m: MDAddrMap) -> Seq<(Seq<char>, Seq<char>)> {
    method_sources(m.methods@) + function_sources(m.apis@) + function_sources(
        m.method_invokers@,
    )
}

} // verus!
