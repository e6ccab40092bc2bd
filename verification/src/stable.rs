use vstd::prelude::*;
use ic_stable_structures::VectorMemory;
use ic_stable_structures::btreemap::BTreeMap;

verus! {

// The record region: a stable B-tree map from 64-bit keys to encoded
// records. The map itself is outside code and opaque here; `stable_contents`
// names what it holds, and the wrappers below state what each operation does
// to that content, as the map's source shows.
//
// `stable_map_new` builds the map over a region created fresh for it, so its
// contract can truthfully say the map starts empty. Re-opening a region that
// already holds a map — what a host does to carry records across a process
// restart — is the host's wiring and outside these contracts: nothing here
// claims anything about inherited contents.

/// Holds the stable map. Opaque to the verifier: everything known about a
/// value of this type is said by the contracts of the functions below.
#[verifier::external_body]
pub struct StableByteMap {
    map: BTreeMap<u64, Vec<u8>, VectorMemory>,
}

/// The key-to-bytes mapping a stable map currently holds.
pub uninterp spec fn stable_contents(m: StableByteMap) -> Map<u64, Seq<u8>>;

/// The content of a map that holds no entries.
pub open spec fn empty_contents() -> Map<u64, Seq<u8>> {
    Map::empty()
}

/// Relies on ic_stable_structures::BTreeMap::new over a region created fresh
/// here (an empty in-process VectorMemory): a newly created map holds no
/// entries.
#[verifier::external_body]
pub fn stable_map_new() -> (m: StableByteMap)
    ensures
        stable_contents(m) == empty_contents(),
{
    StableByteMap { map: BTreeMap::new(VectorMemory::default()) }
}

/// Relies on ic_stable_structures::BTreeMap::get: point lookup of the value
/// stored at the key, if any.
#[verifier::external_body]
pub fn stable_map_get(m: &StableByteMap, key: u64) -> (r: Option<Vec<u8>>)
    ensures
        match r {
            Some(v) => stable_contents(*m).dom().contains(key) && v@ == stable_contents(*m)[key],
            None => !stable_contents(*m).dom().contains(key),
        },
{
    m.map.get(&key)
}

/// Relies on ic_stable_structures::BTreeMap::insert: stores the value at the
/// key, overwriting and returning the previous value if one was there.
#[verifier::external_body]
pub fn stable_map_insert(m: &mut StableByteMap, key: u64, value: Vec<u8>) -> (prev: Option<
    Vec<u8>,
>)
    ensures
        stable_contents(*final(m)) == stable_contents(*old(m)).insert(key, value@),
        match prev {
            Some(v) => stable_contents(*old(m)).dom().contains(key) && v@ == stable_contents(
                *old(m),
            )[key],
            None => !stable_contents(*old(m)).dom().contains(key),
        },
{
    m.map.insert(key, value)
}

/// Relies on ic_stable_structures::BTreeMap::len: the number of stored
/// entries, kept by the map itself rather than found by a scan.
#[verifier::external_body]
pub fn stable_map_len(m: &StableByteMap) -> (n: u64)
    ensures
        n as nat == stable_contents(*m).dom().len(),
{
    m.map.len()
}

} // verus!
