//! The insertion-ordered maps of the `indexmap` crate, as the templates and
//! options hold them. Each map is seen through the sequence of its entries,
//! in their order; the contracts below state what `indexmap` 1.9 documents of
//! the methods called.

use vstd::prelude::*;
use indexmap::IndexMap;
use crate::strmap::{has_key, index_insert, lookup};

verus! {

#[verifier::external_type_specification]
#[verifier::external_body]
#[verifier::reject_recursive_types(K)]
#[verifier::reject_recursive_types(V)]
#[verifier::reject_recursive_types(S)]
pub struct ExIndexMap<K, V, S>(IndexMap<K, V, S>);

/// The entries of a map from strings to strings, in their order.
pub uninterp spec fn str_entries(m: IndexMap<String, String>) -> Seq<(Seq<char>, Seq<char>)>;

/// The entries of a map from strings to maps from strings to strings, in their
/// order, each inner map by its entries.
pub uninterp spec fn block_entries(m: IndexMap<String, IndexMap<String, String>>) -> Seq<(Seq<char>, Seq<(Seq<char>, Seq<char>)>)>;

/// The entries of a map from names to breakpoints, in their order; a
/// breakpoint by its minimum and maximum widths.
pub uninterp spec fn breakpoint_entries(m: IndexMap<String, crate::template::Breakpoint>) -> Seq<(Seq<char>, (Option<Seq<char>>, Option<Seq<char>>))>;

/// `IndexMap::new`: an empty map.
#[verifier::external_body]
pub fn new_str_map() -> (m: IndexMap<String, String>)
    ensures
        str_entries(m) == Seq::<(Seq<char>, Seq<char>)>::empty(),
{
    IndexMap::new()
}

/// `IndexMap::len`: the number of entries.
#[verifier::external_body]
pub fn str_map_len(m: &IndexMap<String, String>) -> (n: usize)
    ensures
        n == str_entries(*m).len(),
{
    m.len()
}

/// `IndexMap::get_index`: the entry at position `i`, if there is one.
#[verifier::external_body]
pub fn str_map_entry(m: &IndexMap<String, String>, i: usize) -> (r: Option<(&String, &String)>)
    ensures
        r is Some <==> i < str_entries(*m).len(),
        r matches Some(e) ==> (e.0@, e.1@) == str_entries(*m)[i as int],
{
    m.get_index(i)
}

/// `IndexMap::get`: the value stored under `key`; keys are unique, so it is
/// that of the first entry with the key.
#[verifier::external_body]
pub fn str_map_get<'a>(m: &'a IndexMap<String, String>, key: &str) -> (r: Option<&'a String>)
    ensures
        r is Some <==> has_key(str_entries(*m), key@),
        r matches Some(v) ==> lookup(str_entries(*m), key@) == Some(v@),
{
    m.get(key)
}

/// `IndexMap::clone`: a map with the same entries in the same order.
#[verifier::external_body]
pub fn str_map_clone(m: &IndexMap<String, String>) -> (r: IndexMap<String, String>)
    ensures
        str_entries(r) == str_entries(*m),
{
    m.clone()
}

/// `IndexMap::new`: an empty map.
#[verifier::external_body]
pub fn new_block_map() -> (m: IndexMap<String, IndexMap<String, String>>)
    ensures
        block_entries(m) == Seq::<(Seq<char>, Seq<(Seq<char>, Seq<char>)>)>::empty(),
{
    IndexMap::new()
}

/// `IndexMap::len`: the number of entries.
#[verifier::external_body]
pub fn block_map_len(m: &IndexMap<String, IndexMap<String, String>>) -> (n: usize)
    ensures
        n == block_entries(*m).len(),
{
    m.len()
}

/// `IndexMap::get_index`: the entry at position `i`, if there is one.
#[verifier::external_body]
pub fn block_map_entry(m: &IndexMap<String, IndexMap<String, String>>, i: usize) -> (r: Option<(&String, &IndexMap<String, String>)>)
    ensures
        r is Some <==> i < block_entries(*m).len(),
        r matches Some(e) ==> (e.0@, str_entries(*e.1)) == block_entries(*m)[i as int],
{
    m.get_index(i)
}

/// `IndexMap::get`: the inner map stored under `key`; keys are unique, so it
/// is that of the first entry with the key.
#[verifier::external_body]
pub fn block_map_get<'a>(m: &'a IndexMap<String, IndexMap<String, String>>, key: &str) -> (r: Option<&'a IndexMap<String, String>>)
    ensures
        r is Some <==> has_key(block_entries(*m), key@),
        r matches Some(v) ==> lookup(block_entries(*m), key@) == Some(str_entries(*v)),
{
    m.get(key)
}

/// `IndexMap::insert`: the entry holding `key` keeps its place and takes
/// `value`; a new key goes last.
#[verifier::external_body]
pub fn block_map_insert(m: &mut IndexMap<String, IndexMap<String, String>>, key: String, value: IndexMap<String, String>)
    ensures
        block_entries(*final(m)) == index_insert(block_entries(*old(m)), key@, str_entries(value)),
{
    m.insert(key, value);
}

/// `IndexMap::new`: an empty map.
#[verifier::external_body]
pub fn new_breakpoint_map() -> (m: IndexMap<String, crate::template::Breakpoint>)
    ensures
        breakpoint_entries(m) == Seq::<(Seq<char>, (Option<Seq<char>>, Option<Seq<char>>))>::empty(),
{
    IndexMap::new()
}

/// `IndexMap::len`: the number of entries.
#[verifier::external_body]
pub fn breakpoint_map_len(m: &IndexMap<String, crate::template::Breakpoint>) -> (n: usize)
    ensures
        n == breakpoint_entries(*m).len(),
{
    m.len()
}

/// `IndexMap::get_index`: the entry at position `i`, if there is one.
#[verifier::external_body]
pub fn breakpoint_map_entry(m: &IndexMap<String, crate::template::Breakpoint>, i: usize) -> (r: Option<(&String, &crate::template::Breakpoint)>)
    ensures
        r is Some <==> i < breakpoint_entries(*m).len(),
        r matches Some(e) ==> (e.0@, (e.1.min_width.deep_view(), e.1.max_width.deep_view())) == breakpoint_entries(*m)[i as int],
{
    m.get_index(i)
}

} // verus!
