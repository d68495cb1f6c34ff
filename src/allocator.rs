//! The allocator that serves the target's heap: every allocation gets a
//! mapping of its own with a guard page on either side, and its bytes are
//! marked addressable in shadow memory only while it is live.
use vstd::prelude::*;

use crate::collections::{
    address_entries, bucket_entries, capture_backtrace, capture_unresolved_backtrace, covered_pages, metadata_entries,
    page_set_gaps, page_set_insert, page_set_new, AddressMap, BucketMap, MetadataMap, PageSet,
};
use crate::errors::AsanError;
use vstd::string::StrSliceExecFns;
use crate::metadata::AllocationMetadata;
use crate::shadow::{
    lemma_poison_leaves_outside, lemma_poisoned_range, lemma_shadow_bound, poison_range, lemma_unpoison_leaves_outside, lemma_unpoisoned_range, shadow_limit,
    shadow_mask_of, poison_writes, poisoned_byte, shadow_address, shadow_of, unpoison_writes,
    unpoisoned_byte, ShadowMemory, ShadowWrite,
};

verus! {

/// The largest request served.
pub const MAX_ALLOCATION: usize = 0x4000_0000;

/// The largest page size the allocator works with.
pub const MAX_PAGE_SIZE: usize = 0x100_0000;

/// The largest mapping an allocation can have: the largest request rounded
/// up to the largest page, with two guard pages.
pub const MAX_MAPPING: usize = 0x4300_0000;

/// The shadow base chosen from the probes: `1 << 46` when it could be
/// mapped, else `1 << 36` when that could, else none. The second probe is
/// only made when the first failed.
pub fn select_shadow_bit(first_probe_ok: bool, second_probe_ok: bool) -> (r: Option<usize>)
    ensures
        r == if first_probe_ok {
            Some(46usize)
        } else if second_probe_ok {
            Some(36usize)
        } else {
            None
        },
{
    if first_probe_ok {
        Some(46)
    } else if second_probe_ok {
        Some(36)
    } else {
        None
    }
}

/// `size` rounded up to a multiple of `page`.
pub open spec fn round_up(size: int, page: int) -> int {
    ((size + page - 1) / page) * page
}

/// The size an allocation request is served with: zero is served as 16.
pub open spec fn effective_size(size: usize) -> usize {
    if size == 0 {
        16
    } else {
        size
    }
}

/// A record in a well-formed state for the given page size.
pub open spec fn record_wf(m: AllocationMetadata, page: usize) -> bool {
    &&& page > 0
    &&& m.address % page == 0
    &&& m.address >= page
    &&& m.size <= MAX_ALLOCATION
    &&& m.actual_size <= MAX_MAPPING
    &&& m.size + 2 * page <= m.actual_size
    &&& m.address - page + m.actual_size <= usize::MAX
}

/// A record waiting in a reuse stack: no size, no flags, no backtraces.
pub open spec fn queued_wf(m: AllocationMetadata, page: usize) -> bool {
    &&& record_wf(m, page)
    &&& m.size == 0
    &&& !m.freed
    &&& !m.is_malloc_zero
    &&& m.allocation_site_backtrace is None
    &&& m.release_site_backtrace is None
}

/// The first stack met when walking the sizes `cur`, `2 * cur`, `4 * cur`, ...
/// up to `largest` that holds a record.
pub open spec fn fit_bucket(q: Map<usize, Seq<AllocationMetadata>>, cur: int, largest: int) -> Option<usize>
    decreases (if cur > largest {
        0
    } else {
        largest - cur + 1
    }),
{
    if cur <= 0 || cur > largest || cur > usize::MAX {
        None
    } else if q.contains_key(cur as usize) && q[cur as usize].len() > 0 {
        Some(cur as usize)
    } else {
        fit_bucket(q, 2 * cur, largest)
    }
}

/// A multiple of a page is a multiple of eight when the page is.
pub proof fn lemma_aligned_to_eight(a: int, p: int)
    requires
        p > 0,
        a >= 0,
        a % p == 0,
        p % 8 == 0,
    ensures
        a % 8 == 0,
{
    let q = a / p;
    let t = p / 8;
    assert(a == q * p) by (nonlinear_arith)
        requires
            q == a / p,
            a % p == 0,
            p > 0,
    ;
    assert(a == 8 * (q * t)) by (nonlinear_arith)
        requires
            a == q * p,
            p == 8 * t,
    ;
}

/// Requests appended after `old_requests` cover every address of
/// `lo..hi` outside `pages` when the appended gaps do.
pub proof fn lemma_requests_cover(
    old_requests: Seq<(usize, usize)>,
    g: Seq<(usize, usize)>,
    all: Seq<(usize, usize)>,
    pages: Set<usize>,
    lo: int,
    hi: int,
)
    requires
        all == old_requests + g,
        forall|a: usize| lo <= a < hi && !(#[trigger] pages.contains(a)) ==> exists|j: int| 0 <= j < g.len() && (#[trigger] g[j]).0 <= a < g[j].1,
    ensures
        forall|a: usize| lo <= a < hi && !(#[trigger] pages.contains(a)) ==> exists|i: int|
            old_requests.len() <= i < all.len() && (#[trigger] all[i]).0 <= a < all[i].1,
{
    assert forall|a: usize| lo <= a < hi && !(#[trigger] pages.contains(a)) implies exists|i: int|
        old_requests.len() <= i < all.len() && (#[trigger] all[i]).0 <= a < all[i].1 by {
        let j = choose|j: int| 0 <= j < g.len() && (#[trigger] g[j]).0 <= a < g[j].1;
        assert(all[old_requests.len() + j] == g[j]);
    }
}

/// The stack `fit_bucket` finds is for a size of at least `cur`.
pub proof fn lemma_fit_bucket_at_least(q: Map<usize, Seq<AllocationMetadata>>, cur: int, largest: int)
    ensures
        fit_bucket(q, cur, largest) matches Some(b) ==> cur <= b <= largest && q.contains_key(b) && q[b].len() > 0,
    decreases (if cur > largest {
        0
    } else {
        largest - cur + 1
    }),
{
    if cur <= 0 || cur > largest || cur > usize::MAX {
    } else if q.contains_key(cur as usize) && q[cur as usize].len() > 0 {
    } else {
        lemma_fit_bucket_at_least(q, 2 * cur, largest);
    }
}

/// Each record on the reuse stacks has an address no other record on its
/// stack has, and none of them is live.
pub open spec fn queue_disjoint(q: Map<usize, Seq<AllocationMetadata>>, allocs: Map<usize, AllocationMetadata>) -> bool {
    &&& forall|b: usize, i: int, j: int|
        q.contains_key(b) && 0 <= i < q[b].len() && 0 <= j < q[b].len() && i != j ==> #[trigger] q[b][i].address
            != #[trigger] q[b][j].address
    &&& forall|b: usize, i: int| q.contains_key(b) && 0 <= i < q[b].len() ==> !allocs.contains_key(#[trigger] q[b][i].address)
}

/// The mappings of the known addresses do not overlap: a user address `k`
/// starts one page into a mapping of `known[k]` bytes.
pub open spec fn known_disjoint(known: Map<usize, usize>) -> bool {
    forall|k1: usize, k2: usize|
        #[trigger] known.contains_key(k1) && #[trigger] known.contains_key(k2) && k1 != k2 ==> k1 + known[k1] <= k2 || k2
            + known[k2] <= k1
}

/// `known` holds the mapping length of every live and every reusable record.
pub open spec fn known_covers(
    known: Map<usize, usize>,
    q: Map<usize, Seq<AllocationMetadata>>,
    allocs: Map<usize, AllocationMetadata>,
) -> bool {
    &&& forall|k: usize| #[trigger] allocs.contains_key(k) ==> known.contains_key(k) && known[k] == allocs[k].actual_size
    &&& forall|b: usize, i: int| q.contains_key(b) && 0 <= i < q[b].len() ==> known.contains_key(#[trigger] q[b][i].address)
        && known[q[b][i].address] == b
}

/// A record on the reuse stack for mapping length `b`: no size, not freed,
/// no zero-size flag, no backtraces.
pub open spec fn reusable(m: AllocationMetadata, b: usize) -> bool {
    &&& m.actual_size == b
    &&& m.size == 0
    &&& !m.freed
    &&& !m.is_malloc_zero
    &&& m.allocation_site_backtrace is None
    &&& m.release_site_backtrace is None
}

/// The process's shadow-memory allocator.
pub struct Allocator {
    page_size: usize,
    shadow_offset: usize,
    shadow_bit: usize,
    pre_allocated_shadow: bool,
    allocations: MetadataMap,
    shadow_pages: PageSet,
    allocation_queue: BucketMap,
    largest_allocation: usize,
    shadow: ShadowMemory,
    page_requests: Vec<(usize, usize)>,
    allocation_backtraces: bool,
    known: AddressMap,
}

impl Allocator {
    pub closed spec fn page(&self) -> usize {
        self.page_size
    }

    pub closed spec fn bit(&self) -> usize {
        self.shadow_bit
    }

    pub closed spec fn pre_allocated(&self) -> bool {
        self.pre_allocated_shadow
    }

    pub closed spec fn backtraces(&self) -> bool {
        self.allocation_backtraces
    }

    /// Live and freed-but-not-reset allocations, by user address.
    pub closed spec fn allocs(&self) -> Map<usize, AllocationMetadata> {
        metadata_entries(self.allocations)
    }

    /// Reusable records, stacked by mapping size.
    pub closed spec fn queue(&self) -> Map<usize, Seq<AllocationMetadata>> {
        bucket_entries(self.allocation_queue)
    }

    pub closed spec fn largest(&self) -> usize {
        self.largest_allocation
    }

    pub closed spec fn shadow_mem(&self) -> ShadowMemory {
        self.shadow
    }

    /// Shadow addresses whose pages are mapped.
    pub closed spec fn pages(&self) -> Set<usize> {
        covered_pages(self.shadow_pages)
    }

    /// Ranges of shadow pages still to be mapped, oldest first.
    pub closed spec fn page_requests(&self) -> Seq<(usize, usize)> {
        self.page_requests@
    }

    pub closed spec fn wf(&self) -> bool {
        &&& 8 <= self.page_size <= MAX_PAGE_SIZE
        &&& self.page_size % 8 == 0
        &&& self.shadow_bit + 4 < usize::BITS
        &&& self.shadow_offset == 1usize << self.shadow_bit
        &&& self.largest_allocation <= MAX_MAPPING
        &&& forall|k: usize| #[trigger]
            metadata_entries(self.allocations).contains_key(k) ==> record_wf(
                metadata_entries(self.allocations)[k],
                self.page_size,
            ) && metadata_entries(self.allocations)[k].address == k
                && metadata_entries(self.allocations)[k].actual_size <= self.largest_allocation
        &&& forall|k: usize, i: int| #[trigger]
            bucket_entries(self.allocation_queue).contains_key(k) && 0 <= i < bucket_entries(
                self.allocation_queue,
            )[k].len() ==> queued_wf(#[trigger] bucket_entries(self.allocation_queue)[k][i], self.page_size)
                && bucket_entries(self.allocation_queue)[k][i].actual_size == k
                && k <= self.largest_allocation
        &&& queue_disjoint(bucket_entries(self.allocation_queue), metadata_entries(self.allocations))
        &&& known_covers(address_entries(self.known), bucket_entries(self.allocation_queue), metadata_entries(self.allocations))
        &&& known_disjoint(address_entries(self.known))
    }

    /// A mapping whose user part would start at `addr`, `len` bytes long in
    /// all, overlaps no mapping served so far.
    pub open spec fn fresh_region(&self, addr: usize, len: int) -> bool {
        forall|k: usize| #[trigger] self.known().contains_key(k) ==> addr + len <= k || k + self.known()[k] <= addr
    }

    /// Whether a mapping whose user part would start at `addr`, `len` bytes
    /// long in all, overlaps no mapping served so far.
    pub fn region_is_fresh(&self, addr: usize, len: usize) -> (r: bool)
        ensures
            r == self.fresh_region(addr, len as int),
    {
        let keys = self.known.keys();
        let mut i: usize = 0;
        while i < keys.len()
            invariant
                i <= keys@.len(),
                forall|k: usize| #[trigger] keys@.contains(k) <==> self.known().contains_key(k),
                forall|j: int| 0 <= j < i ==> addr + len <= #[trigger] keys@[j] || keys@[j] + self.known()[keys@[j]] <= addr,
            decreases keys@.len() - i,
        {
            let k = keys[i];
            proof {
                assert(keys@.contains(k));
            }
            let n = match self.known.get(k) {
                Some(n) => n,
                None => 0,
            };
            if !(addr as u128 + len as u128 <= k as u128 || k as u128 + n as u128 <= addr as u128) {
                return false;
            }
            i += 1;
        }
        proof {
            assert forall|k: usize| #[trigger] self.known().contains_key(k) implies addr + len <= k || k + self.known()[k] <= addr by {
                assert(keys@.contains(k));
                let j = choose|j: int| 0 <= j < keys@.len() && keys@[j] == k;
            }
        }
        true
    }

    /// The mapping length of every user address ever served.
    pub closed spec fn known(&self) -> Map<usize, usize> {
        address_entries(self.known)
    }

    /// Whether `addr` is the user address of an allocation ever served, live,
    /// freed or waiting for reuse.
    pub fn is_known(&self, addr: usize) -> (r: bool)
        ensures
            r == self.known().contains_key(addr),
    {
        self.known.get(addr).is_some()
    }

    /// What a well-formed allocator guarantees its users: the page size and
    /// shadow base are in range, every live record is well formed and keyed
    /// by its own user address (so 0 is never a key), and the records on the
    /// reuse stacks are cleared, have addresses of their own and are not live.
    pub proof fn lemma_wf(&self)
        requires
            self.wf(),
        ensures
            self.bit() + 4 < usize::BITS,
            8 <= self.page() <= MAX_PAGE_SIZE,
            self.page() % 8 == 0,
            !self.allocs().contains_key(0),
            forall|k: usize| #[trigger] self.allocs().contains_key(k) ==> record_wf(self.allocs()[k], self.page())
                && self.allocs()[k].address == k && self.allocs()[k].actual_size <= self.largest(),
            forall|b: usize, i: int| self.queue().contains_key(b) && 0 <= i < self.queue()[b].len() ==> reusable(
                #[trigger] self.queue()[b][i],
                b,
            ) && record_wf(self.queue()[b][i], self.page()),
            queue_disjoint(self.queue(), self.allocs()),
    {
        if self.allocs().contains_key(0) {
            assert(self.allocs()[0].address >= self.page());
        }
    }

    /// Every live allocation that lies below the shadow limit has all its
    /// user bytes addressable.
    pub open spec fn live_addressable(&self) -> bool {
        forall|k: usize, x: usize| #![trigger self.allocs().contains_key(k), self.addressable((k + x) as usize)]
            self.allocs().contains_key(k) && !self.allocs()[k].freed && x < self.allocs()[k].size && k
                + self.allocs()[k].size <= shadow_limit(self.bit()) ==> self.addressable((k + x) as usize)
    }

    /// The user addresses of the allocations not freed.
    pub open spec fn unfreed(&self) -> Set<usize> {
        self.allocs().dom().filter(|k: usize| !self.allocs()[k].freed)
    }

    /// Page size, shadow base and options are the same in both.
    pub open spec fn same_config(&self, o: &Allocator) -> bool {
        &&& self.page() == o.page()
        &&& self.bit() == o.bit()
        &&& self.pre_allocated() == o.pre_allocated()
        &&& self.backtraces() == o.backtraces()
    }

    /// Whether the byte at `addr` may be accessed.
    pub open spec fn addressable(&self, addr: usize) -> bool {
        self.shadow_mem().addressable(self.bit(), addr)
    }

    /// The length of the mapping that serves a request for `size` bytes.
    pub open spec fn mapping_len(&self, size: usize) -> int {
        round_up(effective_size(size) as int, self.page() as int) + 2 * self.page()
    }

    /// An allocator with nothing allocated and every byte inaccessible, for a
    /// shadow region based at `1 << shadow_bit`. Where `pre_allocated_shadow`
    /// is false the shadow pages are requested as they are first needed.
    pub fn new(page_size: usize, shadow_bit: usize, pre_allocated_shadow: bool, allocation_backtraces: bool) -> (r: Self)
        requires
            8 <= page_size <= MAX_PAGE_SIZE,
            page_size % 8 == 0,
            shadow_bit + 4 < usize::BITS,
        ensures
            r.wf(),
            r.page() == page_size,
            r.bit() == shadow_bit,
            r.pre_allocated() == pre_allocated_shadow,
            r.backtraces() == allocation_backtraces,
            r.allocs() == Map::<usize, AllocationMetadata>::empty(),
            r.queue() == Map::<usize, Seq<AllocationMetadata>>::empty(),
            r.largest() == 0,
            forall|a: usize| #[trigger] r.shadow_mem().byte(a) == 0,
            r.shadow_mem().pending() == Seq::<ShadowWrite>::empty(),
            r.page_requests() == Seq::<(usize, usize)>::empty(),
            r.pages() == Set::<usize>::empty(),
            r.known() == Map::<usize, usize>::empty(),
    {
        assert(shadow_bit < usize::BITS);
        let r = Allocator {
            page_size,
            shadow_offset: 1usize << shadow_bit,
            shadow_bit,
            pre_allocated_shadow,
            allocations: MetadataMap::new(),
            shadow_pages: page_set_new(),
            allocation_queue: BucketMap::new(),
            largest_allocation: 0,
            shadow: ShadowMemory::new(),
            page_requests: Vec::new(),
            allocation_backtraces,
            known: AddressMap::new(),
        };
        assert(r.allocs() =~= Map::<usize, AllocationMetadata>::empty());
        assert(r.queue() =~= Map::<usize, Seq<AllocationMetadata>>::empty());
        assert(r.pages() =~= Set::<usize>::empty());
        assert(r.known() =~= Map::<usize, usize>::empty());
        r
    }

    /// The page size.
    pub fn page_size(&self) -> (r: usize)
        ensures
            r == self.page(),
    {
        self.page_size
    }

    /// The shadow region is based at `1 << shadow_bit()`.
    pub fn shadow_bit(&self) -> (r: usize)
        ensures
            r == self.bit(),
    {
        self.shadow_bit
    }

    /// Whether the whole shadow region was mapped up front.
    pub fn pre_allocated_shadow(&self) -> (r: bool)
        ensures
            r == self.pre_allocated(),
    {
        self.pre_allocated_shadow
    }

    /// The shadow address of `addr`.
    pub fn map_to_shadow(&self, addr: usize) -> (r: usize)
        requires
            self.wf(),
        ensures
            r == shadow_of(self.bit(), addr),
    {
        shadow_address(self.shadow_bit, addr)
    }

    /// `size` rounded up to a multiple of the page size.
    pub fn round_up_to_page(&self, size: usize) -> (r: usize)
        requires
            self.wf(),
            size <= usize::MAX - MAX_PAGE_SIZE,
        ensures
            r == round_up(size as int, self.page() as int),
            size <= r < size + self.page(),
    {
        let p = self.page_size;
        let n = (size + p - 1) / p;
        assert(n * p <= size + p - 1 && n * p >= size) by (nonlinear_arith)
            requires
                n == (size + p - 1) as int / p as int,
                p > 0,
        ;
        n * p
    }

    /// `value` rounded down to a multiple of the page size.
    pub fn round_down_to_page(&self, value: usize) -> (r: usize)
        requires
            self.wf(),
        ensures
            r == (value / self.page()) * self.page(),
            r <= value,
            value < r + self.page(),
    {
        let p = self.page_size;
        let n = value / p;
        assert(n * p <= value && value < n * p + p) by (nonlinear_arith)
            requires
                n == value / p,
                p > 0,
        ;
        n * p
    }

    /// The length of the mapping that serves a request for `size` bytes:
    /// the served size rounded up to a page, plus a guard page on either side.
    pub fn mapping_size(&self, size: usize) -> (r: usize)
        requires
            self.wf(),
            size <= MAX_ALLOCATION,
        ensures
            r == self.mapping_len(size),
            r <= MAX_MAPPING,
            r >= 2 * self.page(),
    {
        let s = if size == 0 {
            16
        } else {
            size
        };
        self.round_up_to_page(s) + 2 * self.page_size
    }

    /// Whether a request for `size` bytes would be served from a reuse stack,
    /// so that `allocate` needs no new mapping for it.
    pub fn can_reuse(&self, size: usize) -> (r: bool)
        requires
            self.wf(),
            size <= MAX_ALLOCATION,
        ensures
            r == fit_bucket(self.queue(), self.mapping_len(size), self.largest() as int) is Some,
    {
        let mut current = self.mapping_size(size);
        while current <= self.largest_allocation
            invariant
                self.wf(),
                current > 0,
                fit_bucket(self.queue(), self.mapping_len(size), self.largest() as int) == fit_bucket(
                    self.queue(),
                    current as int,
                    self.largest() as int,
                ),
            decreases 2 * self.largest_allocation + 2 - current,
        {
            match self.allocation_queue.get_len(current) {
                Some(n) => {
                    if n > 0 {
                        return true;
                    }
                },
                None => {},
            }
            assert(fit_bucket(self.queue(), current as int, self.largest() as int) == fit_bucket(
                self.queue(),
                2 * current as int,
                self.largest() as int,
            ));
            current = current * 2;
        }
        false
    }

    /// Takes the last record of the first non-empty stack met when walking
    /// the sizes `size`, `2 * size`, ... up to the largest mapping served.
    pub fn find_smallest_fit(&mut self, size: usize) -> (r: Option<AllocationMetadata>)
        requires
            old(self).wf(),
            size > 0,
        ensures
            final(self).wf(),
            final(self).same_config(old(self)),
            final(self).allocs() == old(self).allocs(),
            final(self).largest() == old(self).largest(),
            final(self).shadow_mem() == old(self).shadow_mem(),
            final(self).pages() == old(self).pages(),
            final(self).page_requests() == old(self).page_requests(),
            final(self).known() == old(self).known(),
            match fit_bucket(old(self).queue(), size as int, old(self).largest() as int) {
                Some(b) => r == Some(old(self).queue()[b].last()) && final(self).queue() == old(
                    self,
                ).queue().insert(b, old(self).queue()[b].drop_last()),
                None => r is None && final(self).queue() == old(self).queue(),
            },
    {
        let mut current = size;
        while current <= self.largest_allocation
            invariant
                self.wf(),
                current > 0,
                self.same_config(old(self)),
                self.allocs() == old(self).allocs(),
                self.largest() == old(self).largest(),
                self.shadow_mem() == old(self).shadow_mem(),
                self.pages() == old(self).pages(),
                self.page_requests() == old(self).page_requests(),
                self.queue() == old(self).queue(),
                self.known() == old(self).known(),
                fit_bucket(old(self).queue(), size as int, old(self).largest() as int) == fit_bucket(
                    old(self).queue(),
                    current as int,
                    old(self).largest() as int,
                ),
            decreases 2 * self.largest_allocation + 2 - current,
        {
            let ghost q = self.queue();
            match self.allocation_queue.remove(current) {
                Some(mut bucket) => {
                    let popped = bucket.pop();
                    self.allocation_queue.insert(current, bucket);
                    match popped {
                        Some(m) => {
                            assert(self.queue() =~= q.insert(current, q[current].drop_last()));
                            return Some(m);
                        },
                        None => {
                            assert(self.queue() =~= q);
                        },
                    }
                },
                None => {
                    assert(self.queue() =~= q);
                },
            }
            current = current * 2;
        }
        None
    }
}

impl Allocator {
    /// The first shadow address of the shadow pages that describe `start..end`.
    pub open spec fn shadow_pages_start(&self, start: usize) -> int {
        (shadow_of(self.bit(), start) as int / self.page() as int) * self.page()
    }

    /// One past the last shadow address of the shadow pages that describe `start..end`.
    pub open spec fn shadow_pages_end(&self, start: usize, end: usize) -> int {
        round_up((end - start) / 8, self.page() as int) + self.page() + self.shadow_pages_start(start)
    }

    /// Makes sure the shadow of `start..end` is backed, and marks the region
    /// addressable if `unpoison` is set. Where the shadow region was not
    /// mapped up front, the shadow pages of the region that were not mapped
    /// yet are added to the page requests. Returns the shadow address of
    /// `start` and the number of whole shadow bytes the region has.
    #[verifier::spinoff_prover]
    pub fn map_shadow_for_region(&mut self, start: usize, end: usize, unpoison: bool) -> (r: (usize, usize))
        requires
            old(self).wf(),
            start <= end,
        ensures
            final(self).wf(),
            final(self).same_config(old(self)),
            final(self).allocs() == old(self).allocs(),
            final(self).queue() == old(self).queue(),
            final(self).largest() == old(self).largest(),
            final(self).known() == old(self).known(),
            r == (shadow_of(old(self).bit(), start), ((end - start) / 8) as usize),
            unpoison ==> forall|a: usize| #[trigger] final(self).shadow_mem().byte(a) == unpoisoned_byte(
                old(self).shadow_mem().byte(a),
                r.0,
                (end - start) as usize,
                a,
            ),
            unpoison ==> final(self).shadow_mem().pending() == old(self).shadow_mem().pending() + unpoison_writes(
                r.0,
                (end - start) as usize,
            ),
            !unpoison ==> final(self).shadow_mem() == old(self).shadow_mem(),
            unpoison && start % 8 == 0 && end <= shadow_limit(old(self).bit()) ==> forall|i: usize|
                i < end - start ==> #[trigger] final(self).addressable((start + i) as usize),
            old(self).pre_allocated() ==> final(self).pages() == old(self).pages(),
            old(self).pre_allocated() ==> final(self).page_requests() == old(self).page_requests(),
            !old(self).pre_allocated() ==> forall|a: usize| #[trigger]
                final(self).pages().contains(a) <==> (old(self).pages().contains(a) || old(self).shadow_pages_start(start) <= a
                    < old(self).shadow_pages_end(start, end)),
            final(self).page_requests().len() >= old(self).page_requests().len(),
            final(self).page_requests().subrange(0, old(self).page_requests().len() as int) == old(self).page_requests(),
            forall|a: usize|
                old(self).shadow_pages_start(start) <= a < old(self).shadow_pages_end(start, end) && !old(self).pre_allocated() && !(#[trigger] old(self).pages().contains(a)) ==> exists|i: int|
                    old(self).page_requests().len() <= i < final(self).page_requests().len()
                    && (#[trigger] final(self).page_requests()[i]).0 <= a < final(self).page_requests()[i].1,
    {
        let shadow_mapping_start = shadow_address(self.shadow_bit, start);
        proof {
            lemma_shadow_bound(self.shadow_bit, start);
        }
        let ghost old_requests = self.page_requests@;
        let ghost mut added: Seq<(usize, usize)> = Seq::empty();
        if !self.pre_allocated_shadow {
            let shadow_start = self.round_down_to_page(shadow_mapping_start);
            let shadow_end = self.round_up_to_page((end - start) / 8) + self.page_size + shadow_start;
            assert(shadow_start == old(self).shadow_pages_start(start));
            assert(shadow_end == old(self).shadow_pages_end(start, end));
            let mut gaps = page_set_gaps(&self.shadow_pages, shadow_start, shadow_end);
            proof {
                added = gaps@;
            }
            self.page_requests.append(&mut gaps);
            assert(self.page_requests@ == old_requests + added);
            assert(self.page_requests@.subrange(0, old_requests.len() as int) =~= old_requests);
            page_set_insert(&mut self.shadow_pages, shadow_start, shadow_end);
        } else {
            assert(self.page_requests@.subrange(0, old_requests.len() as int) =~= old_requests);
        }
        if unpoison {
            let ghost before = self.shadow;
            self.shadow.unpoison(shadow_mapping_start, end - start);
            proof {
                if start % 8 == 0 && end <= shadow_limit(self.shadow_bit) {
                    lemma_unpoisoned_range(self.shadow_bit, before, self.shadow, start, (end - start) as usize);
                }
            }
        }
        proof {
            if !self.pre_allocated_shadow {
                lemma_requests_cover(
                    old_requests,
                    added,
                    self.page_requests@,
                    old(self).pages(),
                    old(self).shadow_pages_start(start),
                    old(self).shadow_pages_end(start, end),
                );
            }
            assert(self.page_requests() == self.page_requests@);
            assert(old(self).page_requests() == old_requests);
            assert(old(self).pre_allocated() == self.pre_allocated_shadow);
        }
        (shadow_mapping_start, (end - start) / 8)
    }
}

impl Allocator {
    /// Serves a request for `size` bytes (`alignment` is not needed: every
    /// allocation starts on a page). A zero-sized request is served with 16
    /// bytes and flagged. A record of the first non-empty stack that
    /// `find_smallest_fit` meets for the mapping length is reused; otherwise
    /// the allocation takes `fresh_mapping`, a new mapping of
    /// `mapping_size(size)` bytes, and 0 is returned when there is none.
    /// The user buffer starts one page into the mapping, and exactly its
    /// bytes are marked addressable.
    pub fn allocate(&mut self, size: usize, alignment: usize, fresh_mapping: Option<usize>) -> (r: usize)
        requires
            old(self).wf(),
            size <= MAX_ALLOCATION,
            fresh_mapping matches Some(base) ==> base % old(self).page() == 0 && base + old(self).mapping_len(size) <= usize::MAX
                && old(self).fresh_region((base + old(self).page()) as usize, old(self).mapping_len(size)),
        ensures
            final(self).wf(),
            final(self).same_config(old(self)),
            r != 0 ==> !old(self).allocs().contains_key(r),
            match fit_bucket(old(self).queue(), old(self).mapping_len(size), old(self).largest() as int) {
                Some(b) => {
                    &&& r == old(self).queue()[b].last().address
                    &&& final(self).queue() == old(self).queue().insert(b, old(self).queue()[b].drop_last())
                    &&& final(self).allocs()[r].actual_size == b
                },
                None => {
                    &&& final(self).queue() == old(self).queue()
                    &&& fresh_mapping is None ==> r == 0 && final(self).allocs() == old(self).allocs()
                        && final(self).shadow_mem() == old(self).shadow_mem()
                        && final(self).largest() == old(self).largest()
                    &&& fresh_mapping matches Some(base) ==> r == base + old(self).page()
                        && final(self).allocs()[r].actual_size == old(self).mapping_len(size)
                },
            },
            r == 0 <==> fit_bucket(old(self).queue(), old(self).mapping_len(size), old(self).largest() as int) is None
                && fresh_mapping is None,
            r == 0 ==> final(self).allocs() == old(self).allocs() && final(self).queue() == old(self).queue()
                && final(self).shadow_mem() == old(self).shadow_mem() && final(self).largest() == old(self).largest()
                && final(self).pages() == old(self).pages() && final(self).page_requests() == old(self).page_requests(),
            r != 0 ==> final(self).allocs() == old(self).allocs().insert(r, final(self).allocs()[r]),
            r != 0 ==> final(self).allocs()[r].address == r,
            r != 0 ==> final(self).allocs()[r].size == effective_size(size),
            r != 0 ==> final(self).allocs()[r].is_malloc_zero == (size == 0),
            r != 0 ==> !final(self).allocs()[r].freed,
            r != 0 ==> (final(self).allocs()[r].allocation_site_backtrace is Some) == old(self).backtraces(),
            r != 0 ==> final(self).allocs()[r].release_site_backtrace is None,
            r != 0 ==> final(self).largest() == if old(self).largest() >= final(self).allocs()[r].actual_size {
                old(self).largest()
            } else {
                final(self).allocs()[r].actual_size
            },
            r != 0 ==> forall|a: usize| #[trigger] final(self).shadow_mem().byte(a) == unpoisoned_byte(
                old(self).shadow_mem().byte(a),
                shadow_of(old(self).bit(), r),
                effective_size(size),
                a,
            ),
            r != 0 ==> final(self).shadow_mem().pending() == old(self).shadow_mem().pending() + unpoison_writes(
                shadow_of(old(self).bit(), r),
                effective_size(size),
            ),
            r != 0 && r + effective_size(size) <= shadow_limit(old(self).bit()) ==> forall|i: usize|
                i < effective_size(size) ==> #[trigger] final(self).addressable((r + i) as usize),
            r != 0 && old(self).live_addressable() && r + effective_size(size) <= shadow_limit(old(self).bit())
                ==> final(self).live_addressable(),
            r != 0 ==> forall|a: usize| #![trigger final(self).addressable(a)]
                a < shadow_limit(old(self).bit()) && r < shadow_limit(old(self).bit())
                && (a < r || a >= r + round_up(effective_size(size) as int, 8)) ==> final(self).addressable(a)
                == old(self).addressable(a),
    {
        let is_malloc_zero = size == 0;
        let size = if is_malloc_zero {
            16
        } else {
            size
        };
        let rounded = self.round_up_to_page(size) + 2 * self.page_size;
        let ghost old_queue = self.queue();
        let ghost old_shadow = self.shadow;
        proof {
            lemma_fit_bucket_at_least(old_queue, rounded as int, self.largest_allocation as int);
        }
        let metadata = match self.find_smallest_fit(rounded) {
            Some(mut m) => {
                proof {
                    let b = fit_bucket(old_queue, rounded as int, old(self).largest() as int).unwrap();
                    assert(old_queue[b][old_queue[b].len() - 1] == m);
                    assert(!old(self).allocs().contains_key(m.address));
                    assert(old(self).known()[m.address] == b);
                    assert forall|b2: usize, i: int| self.queue().contains_key(b2) && 0 <= i < self.queue()[b2].len() implies
                        #[trigger] self.queue()[b2][i].address != m.address by {
                        if b2 == b {
                            assert(self.queue()[b2][i] == old_queue[b][i]);
                        } else {
                            assert(self.queue()[b2][i] == old_queue[b2][i]);
                            assert(old(self).known()[old_queue[b2][i].address] == b2);
                        }
                    }
                }
                m.is_malloc_zero = is_malloc_zero;
                m.size = size;
                if self.allocation_backtraces {
                    m.allocation_site_backtrace = Some(capture_unresolved_backtrace());
                }
                m
            },
            None => match fresh_mapping {
                None => {
                    return 0;
                },
                Some(base) => {
                    self.map_shadow_for_region(base, base + rounded, false);
                    self.known.insert(base + self.page_size, rounded);
                    let allocation_site_backtrace = if self.allocation_backtraces {
                        Some(capture_unresolved_backtrace())
                    } else {
                        None
                    };
                    assert((base + self.page_size) as int % self.page_size as int == 0) by (nonlinear_arith)
                        requires
                            base % self.page_size == 0,
                            self.page_size > 0,
                    ;
                    AllocationMetadata {
                        address: base + self.page_size,
                        size,
                        actual_size: rounded,
                        allocation_site_backtrace,
                        release_site_backtrace: None,
                        freed: false,
                        is_malloc_zero,
                    }
                },
            },
        };
        if metadata.actual_size > self.largest_allocation {
            self.largest_allocation = metadata.actual_size;
        }
        let address = metadata.address;
        let shadow_start = shadow_address(self.shadow_bit, address);
        proof {
            lemma_shadow_bound(self.shadow_bit, address);
        }
        let ghost before = self.shadow;
        self.shadow.unpoison(shadow_start, size);
        proof {
            lemma_aligned_to_eight(address as int, self.page_size as int);
            if address + size <= shadow_limit(self.shadow_bit) {
                lemma_unpoisoned_range(self.shadow_bit, before, self.shadow, address, size);
            }
            assert forall|a: usize| #![trigger self.shadow.addressable(self.shadow_bit, a)]
                a < shadow_limit(self.shadow_bit) && address < shadow_limit(self.shadow_bit)
                && (a < address || a >= address + round_up(size as int, 8)) implies self.shadow.addressable(self.shadow_bit, a)
                == before.addressable(self.shadow_bit, a) by {
                assert(round_up(size as int, 8) == size + (if size % 8 != 0 { 8 - size % 8 } else { 0int }));
                lemma_unpoison_leaves_outside(self.shadow_bit, before, self.shadow, address, size, a);
            }
        }
        let ghost pre = *self;
        proof {
            assert(!pre.allocs().contains_key(address));
            assert(pre.known().contains_key(address) && pre.known()[address] == metadata.actual_size);
        }
        self.allocations.insert(address, metadata);
        proof {
            if old(self).live_addressable() && address + size <= shadow_limit(self.shadow_bit) {
                assert forall|k: usize, x: usize| #![trigger self.allocs().contains_key(k), self.addressable((k + x) as usize)]
                    self.allocs().contains_key(k) && !self.allocs()[k].freed && x < self.allocs()[k].size && k
                        + self.allocs()[k].size <= shadow_limit(self.bit()) implies self.addressable((k + x) as usize) by {
                    if k != address {
                        assert(old(self).allocs().contains_key(k));
                        assert(old(self).addressable((k + x) as usize));
                        assert(self.known().contains_key(k) && self.known().contains_key(address));
                        assert(self.known()[k] == self.allocs()[k].actual_size);
                        assert(self.known()[address] == self.allocs()[address].actual_size);
                        assert(self.shadow.addressable(self.shadow_bit, (k + x) as usize) == before.addressable(
                            self.shadow_bit,
                            (k + x) as usize,
                        ));
                    } else {
                        assert(self.addressable((address + x) as usize));
                    }
                }
            }
        }
        proof {
            let q = self.queue();
            let al = self.allocs();
            assert forall|b: usize, i: int| q.contains_key(b) && 0 <= i < q[b].len() implies !al.contains_key(
                #[trigger] q[b][i].address,
            ) by {
                assert(!pre.allocs().contains_key(q[b][i].address));
                assert(pre.known()[q[b][i].address] == b);
                if q[b][i].address == address {
                    assert(b == metadata.actual_size);
                }
            }
        }
        address
    }
}

/// The distance between two addresses.
pub open spec fn distance(a: usize, b: usize) -> int {
    if a >= b {
        a - b
    } else {
        b - a
    }
}

/// `a` is a better attribution than `b` for an access at `ptr` whose base
/// register held `hint_base`: it is closer, or as close and equal to the
/// hint while `b` is not, or as close, no worse on the hint, and lower.
pub open spec fn closer(ptr: usize, hint_base: usize, a: usize, b: usize) -> bool {
    distance(ptr, a) < distance(ptr, b) || (distance(ptr, a) == distance(ptr, b) && ((a == hint_base && b
        != hint_base) || ((a == hint_base) == (b == hint_base) && a < b)))
}

impl Allocator {
    /// Releases the allocation at `ptr`. A null pointer is ignored; a pointer
    /// that was never served gives an unallocated-free error. Otherwise the
    /// record is marked freed (and stays, so that later accesses are seen as
    /// use-after-free), and its user bytes are marked inaccessible; a record
    /// that was freed already gives a double-free error carrying a copy of it.
    pub fn release(&mut self, ptr: usize) -> (r: Option<AsanError>)
        requires
            old(self).wf(),
        ensures
            final(self).wf(),
            final(self).same_config(old(self)),
            final(self).queue() == old(self).queue(),
            final(self).largest() == old(self).largest(),
            final(self).pages() == old(self).pages(),
            final(self).page_requests() == old(self).page_requests(),
            !old(self).allocs().contains_key(ptr) ==> final(self).allocs() == old(self).allocs()
                && final(self).shadow_mem() == old(self).shadow_mem(),
            !old(self).allocs().contains_key(ptr) ==> (r is Some <==> ptr != 0),
            !old(self).allocs().contains_key(ptr) ==> (r matches Some(e) ==> e matches AsanError::UnallocatedFree((p, _)) && p == ptr),
            old(self).allocs().contains_key(ptr) ==> (r is Some <==> old(self).allocs()[ptr].freed),
            old(self).allocs().contains_key(ptr) ==> (r matches Some(e) ==> e matches AsanError::DoubleFree((p, m, _)) && p == ptr
                && m.same_record(&old(self).allocs()[ptr])),
            old(self).allocs().contains_key(ptr) ==> final(self).allocs() == old(self).allocs().insert(ptr, final(self).allocs()[ptr]),
            old(self).allocs().contains_key(ptr) ==> {
                let o = old(self).allocs()[ptr];
                let n = final(self).allocs()[ptr];
                &&& n.freed
                &&& n.address == o.address
                &&& n.size == o.size
                &&& n.actual_size == o.actual_size
                &&& n.is_malloc_zero == o.is_malloc_zero
                &&& (n.allocation_site_backtrace is Some) == (o.allocation_site_backtrace is Some)
                &&& (n.release_site_backtrace is Some) == (old(self).backtraces() || o.release_site_backtrace is Some)
            },
            old(self).allocs().contains_key(ptr) ==> forall|a: usize| #[trigger] final(self).shadow_mem().byte(a) == poisoned_byte(
                old(self).shadow_mem().byte(a),
                shadow_of(old(self).bit(), ptr),
                old(self).allocs()[ptr].size,
                a,
            ),
            old(self).allocs().contains_key(ptr) ==> forall|a: usize| poison_range(shadow_of(old(self).bit(), ptr), old(self).allocs()[ptr].size, a)
                ==> #[trigger] final(self).shadow_mem().byte(a) == 0,
            old(self).allocs().contains_key(ptr) ==> final(self).shadow_mem().pending() == old(self).shadow_mem().pending() + poison_writes(
                shadow_of(old(self).bit(), ptr),
                old(self).allocs()[ptr].size,
            ),
            old(self).live_addressable() && ptr < shadow_limit(old(self).bit()) ==> final(self).live_addressable(),
            old(self).allocs().contains_key(ptr) && ptr + old(self).allocs()[ptr].size <= shadow_limit(old(self).bit()) ==> forall|i: usize|
                i < old(self).allocs()[ptr].size ==> !(#[trigger] final(self).addressable((ptr + i) as usize)),
    {
        let mut metadata = match self.allocations.remove(ptr) {
            Some(m) => m,
            None => {
                assert(self.allocs() =~= old(self).allocs());
                assert(self.shadow_mem() == old(self).shadow_mem());
                proof {
                    if old(self).live_addressable() {
                        assert forall|k: usize, x: usize| #![trigger self.allocs().contains_key(k), self.addressable((k + x) as usize)]
                            self.allocs().contains_key(k) && !self.allocs()[k].freed && x < self.allocs()[k].size && k
                                + self.allocs()[k].size <= shadow_limit(self.bit()) implies self.addressable((k + x) as usize) by {
                            assert(old(self).allocs().contains_key(k));
                            assert(old(self).addressable((k + x) as usize));
                        }
                    }
                }
                if ptr != 0 {
                    return Some(AsanError::UnallocatedFree((ptr, capture_backtrace())));
                }
                return None;
            },
        };
        let error = if metadata.freed {
            Some(AsanError::DoubleFree((ptr, metadata.snapshot(), capture_backtrace())))
        } else {
            None
        };
        metadata.freed = true;
        if self.allocation_backtraces {
            metadata.release_site_backtrace = Some(capture_unresolved_backtrace());
        }
        let shadow_start = shadow_address(self.shadow_bit, ptr);
        proof {
            lemma_shadow_bound(self.shadow_bit, ptr);
            lemma_aligned_to_eight(ptr as int, self.page_size as int);
        }
        let ghost before = self.shadow;
        self.shadow.poison(shadow_start, metadata.size);
        proof {
            if ptr + metadata.size <= shadow_limit(self.shadow_bit) {
                lemma_poisoned_range(self.shadow_bit, before, self.shadow, ptr, metadata.size);
            }
        }
        self.allocations.insert(ptr, metadata);
        assert(self.allocs() =~= old(self).allocs().insert(ptr, self.allocs()[ptr]));
        proof {
            if old(self).live_addressable() && ptr < shadow_limit(self.shadow_bit) {
                assert forall|k: usize, x: usize| #![trigger self.allocs().contains_key(k), self.addressable((k + x) as usize)]
                    self.allocs().contains_key(k) && !self.allocs()[k].freed && x < self.allocs()[k].size && k
                        + self.allocs()[k].size <= shadow_limit(self.bit()) implies self.addressable((k + x) as usize) by {
                    assert(k != ptr);
                    assert(old(self).addressable((k + x) as usize));
                    assert(self.known().contains_key(k) && self.known().contains_key(ptr));
                    assert(self.known()[k] == self.allocs()[k].actual_size);
                    assert(self.known()[ptr] == self.allocs()[ptr].actual_size);
                    lemma_poison_leaves_outside(self.shadow_bit, before, self.shadow, ptr, self.allocs()[ptr].size, (k + x) as usize);
                }
            }
        }
        error
    }

    /// The size the allocation at `ptr` was requested with.
    pub fn get_usable_size(&self, ptr: usize) -> (r: usize)
        requires
            self.allocs().contains_key(ptr),
        ensures
            r == self.allocs()[ptr].size,
    {
        match self.allocations.get(ptr) {
            Some(m) => m.size,
            None => 0,
        }
    }

    /// The record of the allocation at `ptr`, if any.
    pub fn get(&self, ptr: usize) -> (r: Option<&AllocationMetadata>)
        requires
            self.wf(),
        ensures
            self.allocs().contains_key(ptr) ==> r == Some(&self.allocs()[ptr]),
            !self.allocs().contains_key(ptr) ==> r is None,
            r matches Some(m) ==> m.address == ptr,
    {
        self.allocations.get(ptr)
    }

    /// The user addresses of all allocations, each once, in no particular order.
    pub fn addresses(&self) -> (r: Vec<usize>)
        ensures
            r@.no_duplicates(),
            forall|k: usize| #[trigger] r@.contains(k) <==> self.allocs().contains_key(k),
    {
        self.allocations.keys()
    }

    /// Whether `ptr` is the start of an allocation this allocator served.
    pub fn is_allocated(&self, ptr: usize) -> (r: bool)
        ensures
            r == self.allocs().contains_key(ptr),
    {
        self.allocations.get(ptr).is_some()
    }

    /// The allocation an access at `ptr` is attributed to: the one whose user
    /// address is closest to `ptr`, preferring the one that starts at
    /// `hint_base` (the access's base register), then the lower. None when
    /// there is no allocation.
    pub fn find_metadata(&self, ptr: usize, hint_base: usize) -> (r: Option<&AllocationMetadata>)
        requires
            self.wf(),
        ensures
            r is None <==> self.allocs().dom() == Set::<usize>::empty(),
            r matches Some(m) ==> self.allocs().contains_key(m.address) && *m == self.allocs()[m.address],
            r matches Some(m) ==> forall|k: usize| #[trigger] self.allocs().contains_key(k) ==> !closer(ptr, hint_base, k, m.address),
    {
        let keys = self.allocations.keys();
        let mut best: Option<usize> = None;
        let mut i: usize = 0;
        while i < keys.len()
            invariant
                self.wf(),
                0 <= i <= keys@.len(),
                keys@.no_duplicates(),
                forall|k: usize| #[trigger] keys@.contains(k) <==> self.allocs().contains_key(k),
                best is None <==> i == 0,
                best matches Some(b) ==> self.allocs().contains_key(b),
                best matches Some(b) ==> forall|j: int| 0 <= j < i ==> !closer(ptr, hint_base, #[trigger] keys@[j], b),
            decreases keys@.len() - i,
        {
            let k = keys[i];
            let replace = match best {
                None => true,
                Some(b) => {
                    let dk = if ptr >= k {
                        ptr - k
                    } else {
                        k - ptr
                    };
                    let db = if ptr >= b {
                        ptr - b
                    } else {
                        b - ptr
                    };
                    dk < db || (dk == db && ((k == hint_base && b != hint_base) || ((k == hint_base) == (b
                        == hint_base) && k < b)))
                },
            };
            proof {
                assert(keys@.contains(k));
            }
            if replace {
                best = Some(k);
            }
            i += 1;
        }
        match best {
            None => {
                assert forall|k: usize| !self.allocs().contains_key(k) by {
                    if self.allocs().contains_key(k) {
                        assert(keys@.contains(k));
                    }
                }
                assert(self.allocs().dom() =~= Set::<usize>::empty());
                None
            },
            Some(b) => {
                assert forall|k: usize| #[trigger] self.allocs().contains_key(k) implies !closer(ptr, hint_base, k, b) by {
                    assert(keys@.contains(k));
                    let j = keys@.index_of(k);
                }
                assert(self.allocs().contains_key(b));
                assert(self.allocs().dom().contains(b));
                self.allocations.get(b)
            },
        }
    }
}

impl Allocator {
    /// A stack of `queue` holds a record for the allocation at `k`.
    pub open spec fn queued_at(queue: Map<usize, Seq<AllocationMetadata>>, b: usize, k: usize) -> bool {
        queue.contains_key(b) && exists|i: int| 0 <= i < queue[b].len() && (#[trigger] queue[b][i]).address == k
    }

    /// What `reset` makes of `before`: the same configuration and bounds,
    /// nothing allocated, every former allocation on the reuse stack of its
    /// mapping size above the records that were there, and the user bytes of
    /// every former allocation inaccessible.
    pub open spec fn reset_outcome(before: Allocator, after: Allocator) -> bool {
        &&& after.same_config(&before)
        &&& after.largest() == before.largest()
        &&& after.pages() == before.pages()
        &&& after.page_requests() == before.page_requests()
        &&& after.allocs().dom() == Set::<usize>::empty()
        &&& forall|k: usize| #[trigger] before.allocs().contains_key(k) ==> Self::queued_at(after.queue(), before.allocs()[k].actual_size, k)
        &&& forall|b: usize| #[trigger] before.queue().contains_key(b) ==> after.queue().contains_key(b)
                    && after.queue()[b].len() >= before.queue()[b].len()
                    && after.queue()[b].subrange(0, before.queue()[b].len() as int) == before.queue()[b]
        &&& forall|b: usize, i: int| #[trigger] after.queue().contains_key(b) && 0 <= i < after.queue()[b].len()
                    && !(before.queue().contains_key(b) && i < before.queue()[b].len())
                    ==> before.allocs().contains_key(#[trigger] after.queue()[b][i].address)
                    && before.allocs()[after.queue()[b][i].address].actual_size == b
        &&& forall|b: usize, i: int| after.queue().contains_key(b) && 0 <= i < after.queue()[b].len() ==> reusable(
                    #[trigger] after.queue()[b][i],
                    b,
                )
        &&& queue_disjoint(after.queue(), after.allocs())
        &&& after.known() == before.known()
        &&& forall|k: usize, a: usize| #[trigger] before.allocs().contains_key(k) && poison_range(shadow_of(before.bit(), k), before.allocs()[k].size, a)
                    ==> #[trigger] after.shadow_mem().byte(a) == 0
        &&& forall|k: usize, t: usize| #[trigger] before.allocs().contains_key(k) && t < before.allocs()[k].size && k + before.allocs()[k].size
                    <= shadow_limit(before.bit()) ==> !(#[trigger] after.addressable((k + t) as usize))
    }

    /// Moves every allocation, freed or not, to the reuse stack of its
    /// mapping size, with its size, flags and backtraces cleared, and marks
    /// its user bytes inaccessible. Afterwards nothing is allocated.
    pub fn reset(&mut self)
        requires
            old(self).wf(),
        ensures
            final(self).wf(),
            Self::reset_outcome(*old(self), *final(self)),
    {
        let keys = self.allocations.keys();
        let mut i: usize = 0;
        while i < keys.len()
            invariant
                self.wf(),
                self.same_config(old(self)),
                self.largest() == old(self).largest(),
                self.pages() == old(self).pages(),
                self.page_requests() == old(self).page_requests(),
                0 <= i <= keys@.len(),
                keys@.no_duplicates(),
                forall|k: usize| #[trigger] keys@.contains(k) <==> old(self).allocs().contains_key(k),
                forall|k: usize| #[trigger] self.allocs().contains_key(k) <==> (old(self).allocs().contains_key(k)
                    && !(exists|j: int| 0 <= j < i && #[trigger] keys@[j] == k)),
                forall|k: usize| #[trigger] self.allocs().contains_key(k) ==> self.allocs()[k] == old(self).allocs()[k],
                forall|j: int| 0 <= j < i ==> Self::queued_at(self.queue(), old(self).allocs()[#[trigger] keys@[j]].actual_size, keys@[j]),
                forall|b: usize| #[trigger] old(self).queue().contains_key(b) ==> self.queue().contains_key(b)
                    && self.queue()[b].len() >= old(self).queue()[b].len()
                    && self.queue()[b].subrange(0, old(self).queue()[b].len() as int) == old(self).queue()[b],
                forall|b: usize, x: int| #[trigger] self.queue().contains_key(b) && 0 <= x < self.queue()[b].len()
                    && !(old(self).queue().contains_key(b) && x < old(self).queue()[b].len())
                    ==> old(self).allocs().contains_key(#[trigger] self.queue()[b][x].address),
                forall|j: int, t: usize| 0 <= j < i && t < old(self).allocs()[#[trigger] keys@[j]].size && keys@[j] + old(self).allocs()[keys@[j]].size
                    <= shadow_limit(old(self).bit()) ==> !(#[trigger] self.addressable((keys@[j] + t) as usize)),
                self.known() == old(self).known(),
                forall|j: int, a: usize| #![trigger keys@[j], self.shadow_mem().byte(a)]
                    0 <= j < i && poison_range(shadow_of(old(self).bit(), keys@[j]), old(self).allocs()[keys@[j]].size, a)
                    ==> self.shadow_mem().byte(a) == 0,
            decreases keys@.len() - i,
        {
            let k = keys[i];
            let ghost start = *self;
            proof {
                assert(keys@.contains(k));
                assert(!(exists|j: int| 0 <= j < i && #[trigger] keys@[j] == k)) by {
                    if exists|j: int| 0 <= j < i && #[trigger] keys@[j] == k {
                        let x = choose|x: int| 0 <= x < i && #[trigger] keys@[x] == k;
                        assert(keys@[x] == keys@[i as int]);
                    }
                }
            }
            assert(self.allocs().contains_key(k));
            let mut m = match self.allocations.remove(k) {
                Some(m) => m,
                None => {
                    assert(false);
                    i += 1;
                    continue;
                },
            };
            assert(m == old(self).allocs()[k]);
            let shadow_start = shadow_address(self.shadow_bit, k);
            proof {
                lemma_shadow_bound(self.shadow_bit, k);
                lemma_aligned_to_eight(k as int, self.page_size as int);
            }
            let ghost before = self.shadow;
            self.shadow.poison(shadow_start, m.size);
            proof {
                if k + m.size <= shadow_limit(self.shadow_bit) {
                    lemma_poisoned_range(self.shadow_bit, before, self.shadow, k, m.size);
                }
                assert forall|a: usize| !before.addressable(self.shadow_bit, a) implies !self.shadow.addressable(self.shadow_bit, a) by {
                    let sa = shadow_of(self.shadow_bit, a);
                    let mask = shadow_mask_of(a);
                    let nb = self.shadow.byte(sa);
                    let ob = before.byte(sa);
                    assert(nb == 0 || nb == ob);
                    assert(nb == 0 ==> nb & mask == 0) by (bit_vector);
                }
            }
            m.size = 0;
            m.freed = false;
            m.is_malloc_zero = false;
            m.allocation_site_backtrace = None;
            m.release_site_backtrace = None;
            let b = m.actual_size;
            let ghost q = self.queue();
            let mut bucket = match self.allocation_queue.remove(b) {
                Some(v) => v,
                None => Vec::new(),
            };
            let ghost before_push = bucket@;
            bucket.push(m);
            self.allocation_queue.insert(b, bucket);
            proof {
                assert(self.queue()[b][before_push.len() as int].address == k);
                assert forall|j: int| 0 <= j < i + 1 implies Self::queued_at(self.queue(), old(self).allocs()[#[trigger] keys@[j]].actual_size, keys@[j]) by {
                    if j < i {
                        let bj = old(self).allocs()[keys@[j]].actual_size;
                        assert(Self::queued_at(q, bj, keys@[j]));
                        let x = choose|x: int| 0 <= x < q[bj].len() && (#[trigger] q[bj][x]).address == keys@[j];
                        if bj == b {
                            assert(self.queue()[bj][x] == q[bj][x]);
                        } else {
                            assert(self.queue()[bj] == q[bj]);
                        }
                    } else {
                        assert(keys@[j] == k);
                        assert(old(self).allocs()[k].actual_size == b);
                        assert(0 <= before_push.len() < self.queue()[b].len());
                        assert(Self::queued_at(self.queue(), b, k));
                    }
                }
                assert forall|b2: usize| #[trigger] old(self).queue().contains_key(b2) implies self.queue().contains_key(b2)
                    && self.queue()[b2].len() >= old(self).queue()[b2].len()
                    && self.queue()[b2].subrange(0, old(self).queue()[b2].len() as int) == old(self).queue()[b2] by {
                    if b2 == b {
                        assert(self.queue()[b2].subrange(0, old(self).queue()[b2].len() as int) =~= q[b2].subrange(0, old(self).queue()[b2].len() as int));
                    }
                }
                assert forall|k2: usize| #[trigger] self.allocs().contains_key(k2) <==> (old(self).allocs().contains_key(k2)
                    && !(exists|j: int| 0 <= j < i + 1 && #[trigger] keys@[j] == k2)) by {
                    if k2 != k {
                        if exists|j: int| 0 <= j < i + 1 && #[trigger] keys@[j] == k2 {
                            let x = choose|x: int| 0 <= x < i + 1 && #[trigger] keys@[x] == k2;
                            assert(x < i);
                        }
                    } else {
                        assert(keys@[i as int] == k);
                    }
                }
                assert forall|j: int, t: usize| 0 <= j < i + 1 && t < old(self).allocs()[#[trigger] keys@[j]].size && keys@[j]
                    + old(self).allocs()[keys@[j]].size <= shadow_limit(old(self).bit()) implies !(#[trigger] self.addressable(
                    (keys@[j] + t) as usize,
                )) by {
                    if j < i {
                        assert(!start.addressable((keys@[j] + t) as usize));
                        assert(!before.addressable(self.shadow_bit, (keys@[j] + t) as usize));
                    } else {
                        assert(keys@[j] == k);
                    }
                }
                assert forall|j: int, a: usize| #![trigger keys@[j], self.shadow_mem().byte(a)]
                    0 <= j < i + 1 && poison_range(shadow_of(old(self).bit(), keys@[j]), old(self).allocs()[keys@[j]].size, a)
                    implies self.shadow_mem().byte(a) == 0 by {
                    if j < i {
                        assert(start.shadow_mem().byte(a) == 0);
                        assert(before.byte(a) == 0);
                    } else {
                        assert(keys@[j] == k);
                    }
                }
            }
            i += 1;
        }
        proof {
            assert forall|k: usize| !self.allocs().contains_key(k) by {
                if self.allocs().contains_key(k) {
                    assert(keys@.contains(k));
                    let j = keys@.index_of(k);
                    assert(keys@[j] == k);
                }
            }
            assert(self.allocs().dom() =~= Set::<usize>::empty());
            assert forall|k: usize| #[trigger] old(self).allocs().contains_key(k) implies Self::queued_at(
                self.queue(),
                old(self).allocs()[k].actual_size,
                k,
            ) by {
                assert(keys@.contains(k));
                let j = keys@.index_of(k);
                assert(keys@[j] == k);
            }
            assert forall|k: usize, t: usize| #[trigger] old(self).allocs().contains_key(k) && t < old(self).allocs()[k].size && k + old(self).allocs()[k].size
                <= shadow_limit(old(self).bit()) implies !(#[trigger] self.addressable((k + t) as usize)) by {
                assert(keys@.contains(k));
                let j = keys@.index_of(k);
                assert(keys@[j] == k);
            }
            assert forall|k: usize, a: usize| #[trigger] old(self).allocs().contains_key(k) && poison_range(
                shadow_of(old(self).bit(), k),
                old(self).allocs()[k].size,
                a,
            ) implies #[trigger] self.shadow_mem().byte(a) == 0 by {
                assert(keys@.contains(k));
                let j = keys@.index_of(k);
                assert(keys@[j] == k);
            }
            assert forall|b: usize, x: int| self.queue().contains_key(b) && 0 <= x < self.queue()[b].len()
                && !(old(self).queue().contains_key(b) && x < old(self).queue()[b].len()) implies old(self).allocs()[(#[trigger] self.queue()[b][x]).address].actual_size
                == b by {
                let a = self.queue()[b][x].address;
                assert(old(self).allocs().contains_key(a));
                assert(self.known()[a] == b);
            }
        }
    }

    /// Hands out the shadow writes made since the last call, oldest first,
    /// to be applied to the process's shadow region.
    pub fn take_shadow_writes(&mut self) -> (r: Vec<ShadowWrite>)
        requires
            old(self).wf(),
        ensures
            final(self).wf(),
            r@ == old(self).shadow_mem().pending(),
            final(self).shadow_mem().pending() == Seq::<ShadowWrite>::empty(),
            forall|a: usize| #[trigger] final(self).shadow_mem().byte(a) == old(self).shadow_mem().byte(a),
            final(self).same_config(old(self)),
            final(self).allocs() == old(self).allocs(),
            final(self).queue() == old(self).queue(),
            final(self).largest() == old(self).largest(),
            final(self).pages() == old(self).pages(),
            final(self).page_requests() == old(self).page_requests(),
    {
        self.shadow.take_writes()
    }

    /// Hands out the ranges of shadow pages to be mapped, oldest first.
    pub fn take_page_requests(&mut self) -> (r: Vec<(usize, usize)>)
        requires
            old(self).wf(),
        ensures
            final(self).wf(),
            r@ == old(self).page_requests(),
            final(self).page_requests() == Seq::<(usize, usize)>::empty(),
            final(self).shadow_mem() == old(self).shadow_mem(),
            final(self).same_config(old(self)),
            final(self).allocs() == old(self).allocs(),
            final(self).queue() == old(self).queue(),
            final(self).largest() == old(self).largest(),
            final(self).pages() == old(self).pages(),
    {
        let mut taken: Vec<(usize, usize)> = Vec::new();
        std::mem::swap(&mut taken, &mut self.page_requests);
        taken
    }

    /// Whether the byte at `addr` may be accessed.
    pub fn is_addressable(&self, addr: usize) -> (r: bool)
        requires
            self.wf(),
        ensures
            r == self.addressable(addr),
    {
        self.shadow.is_addressable(self.shadow_bit, addr)
    }

    /// Whether all `n` bytes from `ptr` may be accessed.
    pub fn check_range(&self, ptr: usize, n: usize) -> (r: bool)
        requires
            self.wf(),
            ptr + n <= usize::MAX,
        ensures
            r == (forall|i: usize| i < n ==> #[trigger] self.addressable((ptr + i) as usize)),
    {
        let r = self.shadow.check_range(self.shadow_bit, ptr, n);
        proof {
            if !r {
                let i = choose|i: usize| i < n && !(#[trigger] self.shadow.addressable(self.shadow_bit, (ptr + i) as usize));
                assert(!self.addressable((ptr + i) as usize));
            } else {
                assert forall|i: usize| i < n implies #[trigger] self.addressable((ptr + i) as usize) by {
                    assert(self.shadow.addressable(self.shadow_bit, (ptr + i) as usize));
                }
            }
        }
        r
    }

    /// Whether a mapping that exists at start-up, with the given permissions
    /// (as the process map writes them, `r` first and `w` second), is
    /// marked addressable: it is when readable or writable, except the
    /// shadow region itself when that was mapped up front.
    pub open spec fn shadows_existing(&self, start: usize, permissions: Seq<char>) -> bool {
        &&& ((permissions.len() > 0 && permissions[0] == 'r') || (permissions.len() > 1 && permissions[1] == 'w'))
        &&& !(self.pre_allocated() && start == 1usize << self.bit())
    }

    /// Marks a mapping that exists at start-up addressable if
    /// `shadows_existing` says so, and tells whether it did.
    pub fn unpoison_existing_mapping(&mut self, start: usize, end: usize, permissions: &str) -> (r: bool)
        requires
            old(self).wf(),
            start <= end,
        ensures
            final(self).wf(),
            r == old(self).shadows_existing(start, permissions@),
            final(self).same_config(old(self)),
            final(self).allocs() == old(self).allocs(),
            final(self).queue() == old(self).queue(),
            !r ==> final(self).shadow_mem() == old(self).shadow_mem(),
            r ==> forall|a: usize| #[trigger] final(self).shadow_mem().byte(a) == unpoisoned_byte(
                old(self).shadow_mem().byte(a),
                shadow_of(old(self).bit(), start),
                (end - start) as usize,
                a,
            ),
    {
        let n = permissions.unicode_len();
        let readable = n > 0 && permissions.get_char(0) == 'r';
        let writable = n > 1 && permissions.get_char(1) == 'w';
        if !(readable || writable) {
            return false;
        }
        assert(self.shadow_bit < usize::BITS);
        if self.pre_allocated_shadow && start == 1usize << self.shadow_bit {
            return false;
        }
        self.map_shadow_for_region(start, end, true);
        true
    }

    /// Marks the `size` bytes from `address` inaccessible, from the shadow
    /// byte of `address` on.
    pub fn poison_region(&mut self, address: usize, size: usize)
        requires
            old(self).wf(),
        ensures
            final(self).wf(),
            forall|a: usize| #[trigger] final(self).shadow_mem().byte(a) == poisoned_byte(
                old(self).shadow_mem().byte(a),
                shadow_of(old(self).bit(), address),
                size,
                a,
            ),
            final(self).shadow_mem().pending() == old(self).shadow_mem().pending() + poison_writes(shadow_of(old(self).bit(), address), size),
            final(self).same_config(old(self)),
            final(self).allocs() == old(self).allocs(),
            final(self).queue() == old(self).queue(),
            final(self).largest() == old(self).largest(),
            final(self).pages() == old(self).pages(),
            final(self).page_requests() == old(self).page_requests(),
            address % 8 == 0 && address + size <= shadow_limit(old(self).bit()) ==> forall|i: usize|
                i < size ==> !(#[trigger] final(self).addressable((address + i) as usize)),
    {
        let start = shadow_address(self.shadow_bit, address);
        proof {
            lemma_shadow_bound(self.shadow_bit, address);
        }
        let ghost before = self.shadow;
        self.shadow.poison(start, size);
        proof {
            if address % 8 == 0 && address + size <= shadow_limit(self.shadow_bit) {
                lemma_poisoned_range(self.shadow_bit, before, self.shadow, address, size);
            }
        }
    }

    /// Marks the `size` bytes described from shadow address `start` inaccessible.
    pub fn poison(&mut self, start: usize, size: usize)
        requires
            old(self).wf(),
            start + size / 8 + 1 <= usize::MAX,
        ensures
            final(self).wf(),
            forall|a: usize| #[trigger] final(self).shadow_mem().byte(a) == poisoned_byte(old(self).shadow_mem().byte(a), start, size, a),
            final(self).shadow_mem().pending() == old(self).shadow_mem().pending() + poison_writes(start, size),
            final(self).same_config(old(self)),
            final(self).allocs() == old(self).allocs(),
            final(self).queue() == old(self).queue(),
            final(self).largest() == old(self).largest(),
            final(self).pages() == old(self).pages(),
            final(self).page_requests() == old(self).page_requests(),
    {
        self.shadow.poison(start, size);
    }
}

/// Reuse after a reset: once `reset` has moved the allocations to the reuse
/// stacks, a request whose mapping length is that of a former allocation is
/// served from that allocation's stack, so the allocation it gets has that
/// mapping length.
pub proof fn lemma_reuse_after_reset(before: Allocator, after: Allocator, k: usize, size: usize)
    requires
        before.wf(),
        after.wf(),
        Allocator::reset_outcome(before, after),
        before.allocs().contains_key(k),
        before.allocs()[k].actual_size == after.mapping_len(size),
    ensures
        fit_bucket(after.queue(), after.mapping_len(size), after.largest() as int) == Some(before.allocs()[k].actual_size),
{
    let b = before.allocs()[k].actual_size;
    assert(Allocator::queued_at(after.queue(), b, k));
    assert(b <= before.largest());
    assert(b > 0);
}

} // verus!
