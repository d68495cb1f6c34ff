//! Outside containers and values the sanitizer keeps its state in, with the
//! contracts this library relies on.
use vstd::prelude::*;

use crate::metadata::AllocationMetadata;
use backtrace::Backtrace;
use rangemap::{RangeMap, RangeSet};
use std::ops::Range;

verus! {

#[verifier::external_type_specification]
#[verifier::external_body]
pub struct ExBacktrace(Backtrace);

#[verifier::external_type_specification]
#[verifier::external_body]
#[verifier::reject_recursive_types(K)]
#[verifier::reject_recursive_types(V)]
pub struct ExRangeMap<K, V>(RangeMap<K, V>);

#[verifier::external_type_specification]
#[verifier::external_body]
#[verifier::reject_recursive_types(T)]
pub struct ExRangeSet<T>(RangeSet<T>);

/// Relies on `backtrace::Backtrace::new`: captures and resolves the calling stack.
#[verifier::external_body]
pub fn capture_backtrace() -> Backtrace {
    Backtrace::new()
}

/// Relies on `backtrace::Backtrace::new_unresolved`: captures the calling
/// stack, leaving symbol names to be resolved when it is printed.
#[verifier::external_body]
pub fn capture_unresolved_backtrace() -> Backtrace {
    Backtrace::new_unresolved()
}

/// Relies on `Clone` for `backtrace::Backtrace`: an independent copy of the frames.
#[verifier::external_body]
pub fn clone_backtrace(b: &Backtrace) -> Backtrace {
    b.clone()
}

// ---------------------------------------------------------------------------
// Shadow bytes: a `RangeMap<usize, u8>` from shadow address to shadow byte.
// An address that no stored range covers holds zero.

/// Shadow bytes by shadow address.
pub type ShadowBytes = RangeMap<usize, u8>;

/// The shadow byte stored for each covered shadow address.
pub uninterp spec fn shadow_bytes_of(m: ShadowBytes) -> Map<usize, u8>;

/// Relies on `RangeMap::new`: an empty map.
#[verifier::external_body]
pub fn shadow_bytes_new() -> (r: ShadowBytes)
    ensures
        forall|a: usize| !(#[trigger] shadow_bytes_of(r).contains_key(a)),
{
    RangeMap::new()
}

/// Relies on `RangeMap::insert`: every key of `start..end` maps to `v`
/// afterwards, every other key keeps its value. It panics on an empty range.
#[verifier::external_body]
pub fn shadow_bytes_fill(m: &mut ShadowBytes, start: usize, end: usize, v: u8)
    requires
        start < end,
    ensures
        forall|a: usize|
            start <= a < end ==> #[trigger] shadow_bytes_of(*final(m)).contains_key(a)
                && shadow_bytes_of(*final(m))[a] == v,
        forall|a: usize|
            !(start <= a < end) ==> (#[trigger] shadow_bytes_of(*final(m)).contains_key(a)
                == shadow_bytes_of(*old(m)).contains_key(a)) && shadow_bytes_of(*final(m))[a]
                == shadow_bytes_of(*old(m))[a],
{
    m.insert(start..end, v)
}

/// Relies on `RangeMap::get`: the value of the range that covers `a`, if any.
#[verifier::external_body]
pub fn shadow_bytes_get(m: &ShadowBytes, a: usize) -> (r: Option<u8>)
    ensures
        shadow_bytes_of(*m).contains_key(a) ==> r == Some(shadow_bytes_of(*m)[a]),
        !shadow_bytes_of(*m).contains_key(a) ==> r is None,
{
    m.get(&a).copied()
}

// ---------------------------------------------------------------------------
// Maps keyed by address, held in hashbrown's `HashMap`. Its allocator
// parameter is bounded by a trait hashbrown does not export, so each map
// is kept in a struct of this library whose field Verus does not look into.

/// Allocation records by user address.
#[verifier::external_body]
pub struct MetadataMap {
    map: hashbrown::HashMap<usize, AllocationMetadata>,
}

/// The records of a `MetadataMap`.
pub uninterp spec fn metadata_entries(m: MetadataMap) -> Map<usize, AllocationMetadata>;

impl MetadataMap {
    /// Relies on `hashbrown::HashMap::new`: an empty map.
    #[verifier::external_body]
    pub fn new() -> (r: Self)
        ensures
            forall|k: usize| !(#[trigger] metadata_entries(r).contains_key(k)),
    {
        MetadataMap { map: hashbrown::HashMap::new() }
    }

    /// Relies on `hashbrown::HashMap::get`: the record stored under `k`, if any.
    #[verifier::external_body]
    pub fn get(&self, k: usize) -> (r: Option<&AllocationMetadata>)
        ensures
            metadata_entries(*self).contains_key(k) ==> r == Some(&metadata_entries(*self)[k]),
            !metadata_entries(*self).contains_key(k) ==> r is None,
    {
        self.map.get(&k)
    }

    /// Relies on `hashbrown::HashMap::insert`: `k` maps to `v` afterwards,
    /// replacing what it mapped to before.
    #[verifier::external_body]
    pub fn insert(&mut self, k: usize, v: AllocationMetadata)
        ensures
            metadata_entries(*final(self)) == metadata_entries(*old(self)).insert(k, v),
    {
        self.map.insert(k, v);
    }

    /// Relies on `hashbrown::HashMap::remove`: takes out and returns the
    /// record stored under `k`, if any.
    #[verifier::external_body]
    pub fn remove(&mut self, k: usize) -> (r: Option<AllocationMetadata>)
        ensures
            metadata_entries(*final(self)) == metadata_entries(*old(self)).remove(k),
            metadata_entries(*old(self)).contains_key(k) ==> r == Some(metadata_entries(*old(self))[k]),
            !metadata_entries(*old(self)).contains_key(k) ==> r is None,
    {
        self.map.remove(&k)
    }

    /// Relies on `hashbrown::HashMap::keys`: every key once, in an order the
    /// map's hasher decides.
    #[verifier::external_body]
    pub fn keys(&self) -> (r: Vec<usize>)
        ensures
            r@.no_duplicates(),
            forall|k: usize| #[trigger] r@.contains(k) <==> metadata_entries(*self).contains_key(k),
    {
        self.map.keys().copied().collect()
    }
}

/// Reusable allocation records, stacked by mapping size.
#[verifier::external_body]
pub struct BucketMap {
    map: hashbrown::HashMap<usize, Vec<AllocationMetadata>>,
}

/// The stacks of a `BucketMap`, bottom first.
pub uninterp spec fn bucket_entries(m: BucketMap) -> Map<usize, Seq<AllocationMetadata>>;

impl BucketMap {
    /// Relies on `hashbrown::HashMap::new`: an empty map.
    #[verifier::external_body]
    pub fn new() -> (r: Self)
        ensures
            forall|k: usize| !(#[trigger] bucket_entries(r).contains_key(k)),
    {
        BucketMap { map: hashbrown::HashMap::new() }
    }

    /// Relies on `hashbrown::HashMap::insert`: `k` maps to `v` afterwards,
    /// replacing what it mapped to before.
    #[verifier::external_body]
    pub fn insert(&mut self, k: usize, v: Vec<AllocationMetadata>)
        ensures
            bucket_entries(*final(self)) == bucket_entries(*old(self)).insert(k, v@),
    {
        self.map.insert(k, v);
    }

    /// Relies on `hashbrown::HashMap::get`: the height of the stack stored
    /// under `k`, if any.
    #[verifier::external_body]
    pub fn get_len(&self, k: usize) -> (r: Option<usize>)
        ensures
            bucket_entries(*self).contains_key(k) ==> r is Some && r.unwrap() as nat == bucket_entries(*self)[k].len(),
            !bucket_entries(*self).contains_key(k) ==> r is None,
    {
        self.map.get(&k).map(|v| v.len())
    }

    /// Relies on `hashbrown::HashMap::remove`: takes out and returns the
    /// stack stored under `k`, if any.
    #[verifier::external_body]
    pub fn remove(&mut self, k: usize) -> (r: Option<Vec<AllocationMetadata>>)
        ensures
            bucket_entries(*final(self)) == bucket_entries(*old(self)).remove(k),
            bucket_entries(*old(self)).contains_key(k) ==> r is Some && r.unwrap()@ == bucket_entries(*old(self))[k],
            !bucket_entries(*old(self)).contains_key(k) ==> r is None,
    {
        self.map.remove(&k)
    }
}

/// Addresses in relocated code by the addresses they were copied from.
#[verifier::external_body]
pub struct AddressMap {
    map: hashbrown::HashMap<usize, usize>,
}

/// The pairs of an `AddressMap`.
pub uninterp spec fn address_entries(m: AddressMap) -> Map<usize, usize>;

impl AddressMap {
    /// Relies on `hashbrown::HashMap::new`: an empty map.
    #[verifier::external_body]
    pub fn new() -> (r: Self)
        ensures
            forall|k: usize| !(#[trigger] address_entries(r).contains_key(k)),
    {
        AddressMap { map: hashbrown::HashMap::new() }
    }

    /// Relies on `hashbrown::HashMap::insert`: `k` maps to `v` afterwards.
    #[verifier::external_body]
    pub fn insert(&mut self, k: usize, v: usize)
        ensures
            address_entries(*final(self)) == address_entries(*old(self)).insert(k, v),
    {
        self.map.insert(k, v);
    }

    /// Relies on `hashbrown::HashMap::keys`: every key once, in an order the
    /// map's hasher decides.
    #[verifier::external_body]
    pub fn keys(&self) -> (r: Vec<usize>)
        ensures
            r@.no_duplicates(),
            forall|k: usize| #[trigger] r@.contains(k) <==> address_entries(*self).contains_key(k),
    {
        self.map.keys().copied().collect()
    }

    /// Relies on `hashbrown::HashMap::get`: the value stored under `k`, if any.
    #[verifier::external_body]
    pub fn get(&self, k: usize) -> (r: Option<usize>)
        ensures
            address_entries(*self).contains_key(k) ==> r == Some(address_entries(*self)[k]),
            !address_entries(*self).contains_key(k) ==> r is None,
    {
        self.map.get(&k).copied()
    }
}

// ---------------------------------------------------------------------------
// Backed shadow pages: a `RangeSet<usize>` of shadow addresses.

/// Shadow addresses whose pages are mapped.
pub type PageSet = RangeSet<usize>;

/// The addresses a `PageSet` covers.
pub uninterp spec fn covered_pages(s: PageSet) -> Set<usize>;

/// Relies on `RangeSet::new`: an empty set.
#[verifier::external_body]
pub fn page_set_new() -> (r: PageSet)
    ensures
        forall|a: usize| !(#[trigger] covered_pages(r).contains(a)),
{
    RangeSet::new()
}

/// Relies on `RangeSet::insert`: adds `start..end`. It panics on an empty range.
#[verifier::external_body]
pub fn page_set_insert(s: &mut PageSet, start: usize, end: usize)
    requires
        start < end,
    ensures
        forall|a: usize| #[trigger] covered_pages(*final(s)).contains(a) <==> (covered_pages(*old(s)).contains(a) || start <= a < end),
{
    s.insert(start..end)
}

/// Relies on `RangeSet::gaps`: the maximal ranges inside `start..end` that
/// the set does not cover, as (start, end) pairs.
#[verifier::external_body]
pub fn page_set_gaps(s: &PageSet, start: usize, end: usize) -> (r: Vec<(usize, usize)>)
    requires
        start < end,
    ensures
        forall|i: int| 0 <= i < r@.len() ==> start <= (#[trigger] r@[i]).0 < r@[i].1 <= end,
        forall|i: int, a: usize| 0 <= i < r@.len() && (#[trigger] r@[i]).0 <= a < r@[i].1 ==> !(#[trigger] covered_pages(*s).contains(a)),
        forall|a: usize| start <= a < end && !(#[trigger] covered_pages(*s).contains(a)) ==> exists|i: int| 0 <= i < r@.len() && (#[trigger] r@[i]).0 <= a < r@[i].1,
{
    s.gaps(&(start..end)).map(|g| (g.start, g.end)).collect()
}

// ---------------------------------------------------------------------------
// Instrumented modules: a `RangeMap<usize, String>` from code address to
// the path of the module loaded there.

/// Module paths by code address.
pub type ModuleRanges = RangeMap<usize, String>;

/// The path each covered address maps to.
pub uninterp spec fn module_paths(m: ModuleRanges) -> Map<usize, Seq<char>>;

/// Relies on `RangeMap::new`: an empty map.
#[verifier::external_body]
pub fn module_ranges_new() -> (r: ModuleRanges)
    ensures
        forall|a: usize| !(#[trigger] module_paths(r).contains_key(a)),
{
    RangeMap::new()
}

/// Relies on `RangeMap::insert`: every address of `start..end` maps to
/// `path` afterwards, every other keeps its path. It panics on an empty range.
#[verifier::external_body]
pub fn module_ranges_insert(m: &mut ModuleRanges, start: usize, end: usize, path: String)
    requires
        start < end,
    ensures
        forall|a: usize| start <= a < end ==> #[trigger] module_paths(*final(m)).contains_key(a)
            && module_paths(*final(m))[a] == path@,
        forall|a: usize| !(start <= a < end) ==> (#[trigger] module_paths(*final(m)).contains_key(a)
            == module_paths(*old(m)).contains_key(a)) && module_paths(*final(m))[a] == module_paths(*old(m))[a],
{
    m.insert(start..end, path)
}

/// Relies on `RangeMap::get_key_value`: the stored range that covers `a`,
/// as (start, end, path), every address of which maps to that path.
#[verifier::external_body]
pub fn module_ranges_lookup(m: &ModuleRanges, a: usize) -> (r: Option<(usize, usize, String)>)
    ensures
        module_paths(*m).contains_key(a) <==> r is Some,
        r matches Some((s, e, p)) ==> s <= a < e && p@ == module_paths(*m)[a],
        r matches Some((s, e, p)) ==> forall|x: usize| s <= x < e ==> #[trigger] module_paths(*m).contains_key(x) && module_paths(*m)[x] == p@,
{
    m.get_key_value(&a).map(|(r, p)| (r.start, r.end, p.clone()))
}

} // verus!
