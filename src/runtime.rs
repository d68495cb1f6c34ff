//! The sanitizer's runtime state: the allocator, the errors of the current
//! run, the instrumented modules and the map from relocated code back to
//! the target's code.
use vstd::prelude::*;

use crate::allocator::Allocator;
use crate::collections::{
    address_entries, capture_backtrace, module_paths, module_ranges_insert, module_ranges_lookup,
    module_ranges_new, AddressMap, ModuleRanges,
};
use crate::errors::{AsanError, AsanErrors};
use crate::metadata::AllocationMetadata;

verus! {

/// How the runtime behaves.
#[derive(Clone, Copy, Debug, PartialEq, Eq, Structural)]
pub struct AsanOptions {
    /// Record a backtrace where each allocation is made and where it is freed.
    pub enable_asan_allocation_backtraces: bool,
    /// Keep running after an error; otherwise the target is stopped at the first.
    pub asan_continue_after_error: bool,
}

/// The address sanitizer's runtime.
pub struct AsanRuntime {
    errors: AsanErrors,
    stalked_addresses: AddressMap,
    options: AsanOptions,
    instrumented_ranges: ModuleRanges,
    blobs: Option<InstrumentationBlobs>,
}

/// The machine-code fragments placed around instrumented memory accesses.
/// Each check blob ends where the branch to the report blob is to be written.
pub struct InstrumentationBlobs {
    pub report: Vec<u8>,
    pub check_mem_byte: Vec<u8>,
    pub check_mem_halfword: Vec<u8>,
    pub check_mem_dword: Vec<u8>,
    pub check_mem_qword: Vec<u8>,
    pub check_mem_16bytes: Vec<u8>,
    pub check_mem_3bytes: Vec<u8>,
    pub check_mem_6bytes: Vec<u8>,
    pub check_mem_12bytes: Vec<u8>,
    pub check_mem_24bytes: Vec<u8>,
    pub check_mem_32bytes: Vec<u8>,
    pub check_mem_48bytes: Vec<u8>,
    pub check_mem_64bytes: Vec<u8>,
}

/// A generated check blob without the trailing slot the branch to the report
/// blob goes in: its last four bytes are dropped.
pub fn without_branch_slot(blob: &Vec<u8>) -> (r: Vec<u8>)
    requires
        blob@.len() >= 4,
    ensures
        r@ == blob@.subrange(0, blob@.len() - 4),
{
    let n = blob.len() - 4;
    let mut r: Vec<u8> = Vec::new();
    let mut i: usize = 0;
    while i < n
        invariant
            n == blob@.len() - 4,
            i <= n,
            r@ == blob@.subrange(0, i as int),
        decreases n - i,
    {
        r.push(blob[i]);
        i += 1;
        assert(r@ =~= blob@.subrange(0, i as int));
    }
    r
}

/// The mask an exact-size check blob compares the shadow bits of an access
/// of `size` bytes against: one bit for each byte, all of which must be set.
pub fn exact_check_mask(size: u32) -> (r: u64)
    requires
        size <= 64,
    ensures
        r == if size == 64 {
            0xffff_ffff_ffff_ffffu64
        } else {
            ((1u64 << size) - 1) as u64
        },
{
    if size == 64 {
        0xffff_ffff_ffff_ffff
    } else {
        assert(1u64 << size >= 1) by (bit_vector)
            requires
                size < 64,
        ;
        (1u64 << size) - 1
    }
}

impl AsanRuntime {
    /// The errors of the current run, oldest first.
    pub closed spec fn log(&self) -> Seq<AsanError> {
        self.errors.view()
    }

    /// Target code addresses by relocated code address.
    pub closed spec fn stalked(&self) -> Map<usize, usize> {
        address_entries(self.stalked_addresses)
    }

    /// Paths of the instrumented modules by code address.
    pub closed spec fn modules(&self) -> Map<usize, Seq<char>> {
        module_paths(self.instrumented_ranges)
    }

    pub closed spec fn opts(&self) -> AsanOptions {
        self.options
    }

    pub closed spec fn has_blobs(&self) -> bool {
        self.blobs is Some
    }

    /// A runtime with no error, no instrumented module and no relocated code.
    pub fn new(options: AsanOptions) -> (r: Self)
        ensures
            r.opts() == options,
            r.log() == Seq::<AsanError>::empty(),
            r.stalked() == Map::<usize, usize>::empty(),
            r.modules() == Map::<usize, Seq<char>>::empty(),
            !r.has_blobs(),
    {
        let r = AsanRuntime {
            errors: AsanErrors::new(),
            stalked_addresses: AddressMap::new(),
            options,
            instrumented_ranges: module_ranges_new(),
            blobs: None,
        };
        assert(r.stalked() =~= Map::<usize, usize>::empty());
        assert(r.modules() =~= Map::<usize, Seq<char>>::empty());
        r
    }

    /// The allocator that goes with these options: backtraces are recorded
    /// when the options ask for them.
    pub fn new_allocator(&self, page_size: usize, shadow_bit: usize, pre_allocated_shadow: bool) -> (r: Allocator)
        requires
            8 <= page_size <= crate::allocator::MAX_PAGE_SIZE,
            page_size % 8 == 0,
            shadow_bit + 4 < usize::BITS,
        ensures
            r.wf(),
            r.page() == page_size,
            r.bit() == shadow_bit,
            r.pre_allocated() == pre_allocated_shadow,
            r.backtraces() == self.opts().enable_asan_allocation_backtraces,
            r.allocs() == Map::<usize, AllocationMetadata>::empty(),
            r.queue() == Map::<usize, Seq<AllocationMetadata>>::empty(),
            forall|a: usize| #[trigger] r.shadow_mem().byte(a) == 0,
            r.largest() == 0,
            r.pages() == Set::<usize>::empty(),
            r.known() == Map::<usize, usize>::empty(),
            r.page_requests() == Seq::<(usize, usize)>::empty(),
    {
        Allocator::new(page_size, shadow_bit, pre_allocated_shadow, self.options.enable_asan_allocation_backtraces)
    }

    /// The options the runtime was made with.
    pub fn options(&self) -> (r: AsanOptions)
        ensures
            r == self.opts(),
    {
        self.options
    }

    /// Records `error` as the latest of the run.
    pub fn report_error(&mut self, error: AsanError)
        ensures
            final(self).log() == old(self).log().push(error),
            final(self).stalked() == old(self).stalked(),
            final(self).modules() == old(self).modules(),
            final(self).opts() == old(self).opts(),
            final(self).has_blobs() == old(self).has_blobs(),
    {
        self.errors.push(error);
    }

    /// The errors of the current run.
    pub fn errors(&self) -> (r: &AsanErrors)
        ensures
            r.view() == self.log(),
    {
        &self.errors
    }

    /// Forgets the errors of the previous run.
    pub fn clear_errors(&mut self)
        ensures
            final(self).log() == Seq::<AsanError>::empty(),
            final(self).stalked() == old(self).stalked(),
            final(self).modules() == old(self).modules(),
            final(self).opts() == old(self).opts(),
            final(self).has_blobs() == old(self).has_blobs(),
    {
        self.errors.clear();
    }

    /// Moves every allocation to the reuse stacks, so that the next run
    /// starts with nothing allocated.
    pub fn reset_allocations(&self, allocator: &mut Allocator)
        requires
            old(allocator).wf(),
        ensures
            final(allocator).wf(),
            Allocator::reset_outcome(*old(allocator), *final(allocator)),
    {
        allocator.reset();
    }

    /// Reports a leak for every allocation that was not freed, each once.
    pub fn check_for_leaks(&mut self, allocator: &Allocator)
        requires
            allocator.wf(),
        ensures
            final(self).stalked() == old(self).stalked(),
            final(self).modules() == old(self).modules(),
            final(self).opts() == old(self).opts(),
            final(self).log().len() == old(self).log().len() + allocator.unfreed().len(),
            final(self).log().subrange(0, old(self).log().len() as int) == old(self).log(),
            forall|i: int| old(self).log().len() <= i < final(self).log().len() ==> (#[trigger] final(self).log()[i] matches AsanError::Leak((a, m))
                && allocator.allocs().contains_key(a) && !allocator.allocs()[a].freed
                && m.same_record(&allocator.allocs()[a])),
            forall|i: int, j: int| old(self).log().len() <= i < j < final(self).log().len() ==> #[trigger] Self::leak_address(final(self).log()[i])
                != #[trigger] Self::leak_address(final(self).log()[j]),
            forall|k: usize| #[trigger] allocator.allocs().contains_key(k) && !allocator.allocs()[k].freed ==> exists|i: int|
                old(self).log().len() <= i < final(self).log().len() && Self::leak_address(#[trigger] final(self).log()[i]) == k,
    {
        let keys = allocator.addresses();
        let ghost start = self.log().len();
        let ghost mut src: Seq<int> = Seq::empty();
        let mut i: usize = 0;
        while i < keys.len()
            invariant
                allocator.wf(),
                self.stalked() == old(self).stalked(),
                self.modules() == old(self).modules(),
                self.opts() == old(self).opts(),
                start == old(self).log().len(),
                i <= keys@.len(),
                keys@.no_duplicates(),
                forall|k: usize| #[trigger] keys@.contains(k) <==> allocator.allocs().contains_key(k),
                self.log().len() == start + src.len(),
                self.log().subrange(0, start as int) == old(self).log(),
                forall|x: int| 0 <= x < src.len() ==> 0 <= #[trigger] src[x] < i,
                forall|x: int, y: int| 0 <= x < y < src.len() ==> #[trigger] src[x] < #[trigger] src[y],
                forall|x: int| 0 <= x < src.len() ==> Self::leak_of(#[trigger] self.log()[start + x], keys@[src[x]], *allocator),
                forall|j: int| 0 <= j < i && !allocator.allocs()[#[trigger] keys@[j]].freed ==> exists|x: int|
                    0 <= x < src.len() && #[trigger] src[x] == j,
            decreases keys@.len() - i,
        {
            let k = keys[i];
            proof {
                assert(keys@.contains(k));
            }
            let ghost before = self.log();
            match allocator.get(k) {
                Some(m) => {
                    if !m.freed {
                        let copy = m.snapshot();
                        let address = m.address;
                        self.errors.push(AsanError::Leak((address, copy)));
                        proof {
                            let old_src = src;
                            src = src.push(i as int);
                            assert(self.log().subrange(0, start as int) =~= before.subrange(0, start as int));
                            assert forall|x: int| 0 <= x < src.len() implies Self::leak_of(#[trigger] self.log()[start + x], keys@[src[x]], *allocator) by {
                                if x < src.len() - 1 {
                                    assert(self.log()[start + x] == before[start + x]);
                                }
                            }
                            assert forall|j: int| 0 <= j < i + 1 && !allocator.allocs()[#[trigger] keys@[j]].freed implies exists|x: int|
                                0 <= x < src.len() && #[trigger] src[x] == j by {
                                if j == i {
                                    assert(src[src.len() - 1] == j);
                                } else {
                                    let x = choose|x: int| 0 <= x < old_src.len() && #[trigger] old_src[x] == j;
                                    assert(src[x] == j);
                                }
                            }
                        }
                    }
                },
                None => {
                    assert(false);
                },
            }
            i += 1;
        }
        proof {
            assert forall|x: int| start <= x < self.log().len() implies (#[trigger] self.log()[x] matches AsanError::Leak((a, m))
                && allocator.allocs().contains_key(a) && !allocator.allocs()[a].freed
                && m.same_record(&allocator.allocs()[a])) by {
                assert(Self::leak_of(self.log()[start + (x - start)], keys@[src[x - start]], *allocator));
                assert(keys@.contains(keys@[src[x - start]]));
            }
            assert forall|x: int, y: int| start <= x < y < self.log().len() implies #[trigger] Self::leak_address(self.log()[x])
                != #[trigger] Self::leak_address(self.log()[y]) by {
                assert(Self::leak_of(self.log()[start + (x - start)], keys@[src[x - start]], *allocator));
                assert(Self::leak_of(self.log()[start + (y - start)], keys@[src[y - start]], *allocator));
                assert(src[x - start] < src[y - start]);
            }
            let leaked = Seq::new(src.len(), |x: int| keys@[src[x]]);
            assert(leaked.no_duplicates()) by {
                assert forall|x: int, y: int| 0 <= x < leaked.len() && 0 <= y < leaked.len() && x != y implies leaked[x] != leaked[y] by {
                    if x < y {
                        assert(src[x] < src[y]);
                    } else {
                        assert(src[y] < src[x]);
                    }
                }
            }
            leaked.unique_seq_to_set();
            assert(leaked.to_set() =~= allocator.unfreed()) by {
                assert forall|a: usize| leaked.to_set().contains(a) implies allocator.unfreed().contains(a) by {
                    let x = choose|x: int| 0 <= x < leaked.len() && leaked[x] == a;
                    assert(Self::leak_of(self.log()[start + x], keys@[src[x]], *allocator));
                }
                assert forall|a: usize| allocator.unfreed().contains(a) implies leaked.to_set().contains(a) by {
                    assert(keys@.contains(a));
                    let j = choose|j: int| 0 <= j < keys@.len() && keys@[j] == a;
                    let x = choose|x: int| 0 <= x < src.len() && #[trigger] src[x] == j;
                    assert(leaked[x] == a);
                }
            }
            assert forall|k: usize| #[trigger] allocator.allocs().contains_key(k) && !allocator.allocs()[k].freed implies exists|x: int|
                old(self).log().len() <= x < self.log().len() && Self::leak_address(#[trigger] self.log()[x]) == k by {
                assert(keys@.contains(k));
                let j = choose|j: int| 0 <= j < keys@.len() && keys@[j] == k;
                let x = choose|x: int| 0 <= x < src.len() && #[trigger] src[x] == j;
                assert(Self::leak_of(self.log()[start + x], keys@[src[x]], *allocator));
            }
        }
    }

    /// `e` reports the leak of the unfreed allocation at `k` of `heap`.
    pub open spec fn leak_of(e: AsanError, k: usize, heap: Allocator) -> bool {
        e matches AsanError::Leak((a, m)) && a == k && heap.allocs().contains_key(a) && !heap.allocs()[a].freed
            && m.same_record(&heap.allocs()[a])
    }

    /// The address a leak error is about; zero for any other error.
    pub open spec fn leak_address(e: AsanError) -> usize {
        match e {
            AsanError::Leak((a, _)) => a,
            _ => 0,
        }
    }

    /// Marks `size` bytes from `address` addressable, backing their shadow first.
    pub fn unpoison(&self, allocator: &mut Allocator, address: usize, size: usize)
        requires
            old(allocator).wf(),
            address + size <= usize::MAX,
        ensures
            final(allocator).wf(),
            final(allocator).same_config(old(allocator)),
            final(allocator).allocs() == old(allocator).allocs(),
            final(allocator).queue() == old(allocator).queue(),
            forall|a: usize| #[trigger] final(allocator).shadow_mem().byte(a) == crate::shadow::unpoisoned_byte(
                old(allocator).shadow_mem().byte(a),
                crate::shadow::shadow_of(old(allocator).bit(), address),
                size,
                a,
            ),
            address % 8 == 0 && address + size <= crate::shadow::shadow_limit(old(allocator).bit()) ==> forall|i: usize|
                i < size ==> #[trigger] final(allocator).addressable((address + i) as usize),
    {
        allocator.map_shadow_for_region(address, address + size, true);
    }
}

/// The stalked-address table gives back what was added: after
/// `add_stalked_address(s, r)`, `real_address_for_stalked(s)` is `r`.
pub proof fn lemma_stalked_round_trip(before: AsanRuntime, after: AsanRuntime, s: usize, r: usize)
    requires
        after.stalked() == before.stalked().insert(s, r),
    ensures
        after.stalked().contains_key(s),
        after.stalked()[s] == r,
        after.real_address(s) == r,
{
}

/// The current thread's stack as the fault handler sees it, from the end of
/// its mapping `start..end` down to the stack size limit `rlimit`: the
/// bounds, and the range to map below the mapping when it does not reach
/// that far yet.
pub fn stack_bounds(start: usize, end: usize, rlimit: usize) -> (r: (usize, usize, Option<(usize, usize)>))
    requires
        start <= end,
    ensures
        r.0 == (if rlimit >= end {
            0
        } else {
            end - rlimit
        }),
        r.1 == end,
        r.2 == (if r.0 < start {
            Some((r.0, start))
        } else {
            None
        }),
{
    let low = if rlimit >= end {
        0
    } else {
        end - rlimit
    };
    let extension = if low < start {
        Some((low, start))
    } else {
        None
    };
    (low, end, extension)
}

/// How far an access at `fault` lies from the start of an allocation at
/// `address`: positive to the right of it, negative or zero to the left.
pub fn fault_offset(fault: usize, address: usize) -> (r: i128)
    ensures
        r == fault - address,
{
    fault as i128 - address as i128
}

impl AsanRuntime {
    /// Records that the relocated code at `stalked` was copied from `target`.
    pub fn add_stalked_address(&mut self, stalked: usize, target: usize)
        ensures
            final(self).stalked() == old(self).stalked().insert(stalked, target),
            final(self).log() == old(self).log(),
            final(self).modules() == old(self).modules(),
            final(self).opts() == old(self).opts(),
            final(self).has_blobs() == old(self).has_blobs(),
    {
        self.stalked_addresses.insert(stalked, target);
    }

    /// The target address the relocated code at `stalked` was copied from.
    pub fn real_address_for_stalked(&self, stalked: usize) -> (r: Option<usize>)
        ensures
            r == if self.stalked().contains_key(stalked) {
                Some(self.stalked()[stalked])
            } else {
                None
            },
    {
        self.stalked_addresses.get(stalked)
    }

    /// The target address of the instrumented code at `pc`: the address it
    /// was copied from when it is relocated code, `pc` itself otherwise.
    pub open spec fn real_address(&self, pc: usize) -> usize {
        if self.stalked().contains_key(pc) {
            self.stalked()[pc]
        } else {
            pc
        }
    }

    /// The target address of the instrumented code at `pc`: the address it
    /// was copied from when it is relocated code, `pc` itself otherwise.
    pub fn real_pc(&self, pc: usize) -> (r: usize)
        ensures
            r == self.real_address(pc),
    {
        match self.stalked_addresses.get(pc) {
            Some(target) => target,
            None => pc,
        }
    }

    /// Records that the module at `path` is loaded at `start..end` and is instrumented.
    pub fn add_instrumented_module(&mut self, start: usize, end: usize, path: String)
        requires
            start < end,
        ensures
            forall|a: usize| start <= a < end ==> #[trigger] final(self).modules().contains_key(a)
                && final(self).modules()[a] == path@,
            forall|a: usize| !(start <= a < end) ==> (#[trigger] final(self).modules().contains_key(a)
                == old(self).modules().contains_key(a)) && final(self).modules()[a] == old(self).modules()[a],
            final(self).log() == old(self).log(),
            final(self).stalked() == old(self).stalked(),
            final(self).opts() == old(self).opts(),
            final(self).has_blobs() == old(self).has_blobs(),
    {
        module_ranges_insert(&mut self.instrumented_ranges, start, end, path);
    }

    /// Whether `addr` lies in an instrumented module. Calls into hooked
    /// routines are checked only when they return into such a module, so
    /// that the runtime, the instrumentation engine and uninstrumented
    /// libraries are left alone.
    pub fn is_instrumented(&self, addr: usize) -> (r: bool)
        ensures
            r == self.modules().contains_key(addr),
    {
        module_ranges_lookup(&self.instrumented_ranges, addr).is_some()
    }

    /// The instrumented module `pc` lies in, as its path and the offset of
    /// `pc` from the start of the module's range.
    pub fn module_offset(&self, pc: usize) -> (r: Option<(String, usize)>)
        ensures
            r is Some == self.modules().contains_key(pc),
            r matches Some((path, offset)) ==> path@ == self.modules()[pc] && offset <= pc
                && forall|a: usize| pc - offset <= a <= pc ==> #[trigger] self.modules().contains_key(a) && self.modules()[a] == path@,
    {
        match module_ranges_lookup(&self.instrumented_ranges, pc) {
            Some((start, end, path)) => {
                assert forall|a: usize| start <= a <= pc implies #[trigger] self.modules().contains_key(a) && self.modules()[a] == path@ by {
                    assert(start <= a < end);
                }
                Some((path, pc - start))
            },
            None => None,
        }
    }

    /// Keeps the generated instrumentation blobs.
    pub fn set_blobs(&mut self, blobs: InstrumentationBlobs)
        ensures
            final(self).has_blobs(),
            final(self).log() == old(self).log(),
            final(self).stalked() == old(self).stalked(),
            final(self).modules() == old(self).modules(),
            final(self).opts() == old(self).opts(),
    {
        self.blobs = Some(blobs);
    }

    /// The blobs, once generated.
    pub closed spec fn blob_set(&self) -> InstrumentationBlobs
        recommends
            self.has_blobs(),
    {
        self.blobs.unwrap()
    }

    /// The blob that saves the registers and calls the fault handler.
    pub fn blob_report(&self) -> (r: &[u8])
        requires
            self.has_blobs(),
        ensures
            r@ == self.blob_set().report@,
    {
        self.blobs.as_ref().unwrap().report.as_slice()
    }

    /// The blob that checks a one-byte access.
    pub fn blob_check_mem_byte(&self) -> (r: &[u8])
        requires
            self.has_blobs(),
        ensures
            r@ == self.blob_set().check_mem_byte@,
    {
        self.blobs.as_ref().unwrap().check_mem_byte.as_slice()
    }

    /// The blob that checks a two-byte access.
    pub fn blob_check_mem_halfword(&self) -> (r: &[u8])
        requires
            self.has_blobs(),
        ensures
            r@ == self.blob_set().check_mem_halfword@,
    {
        self.blobs.as_ref().unwrap().check_mem_halfword.as_slice()
    }

    /// The blob that checks a four-byte access.
    pub fn blob_check_mem_dword(&self) -> (r: &[u8])
        requires
            self.has_blobs(),
        ensures
            r@ == self.blob_set().check_mem_dword@,
    {
        self.blobs.as_ref().unwrap().check_mem_dword.as_slice()
    }

    /// The blob that checks an eight-byte access.
    pub fn blob_check_mem_qword(&self) -> (r: &[u8])
        requires
            self.has_blobs(),
        ensures
            r@ == self.blob_set().check_mem_qword@,
    {
        self.blobs.as_ref().unwrap().check_mem_qword.as_slice()
    }

    /// The blob that checks a 16-byte access.
    pub fn blob_check_mem_16bytes(&self) -> (r: &[u8])
        requires
            self.has_blobs(),
        ensures
            r@ == self.blob_set().check_mem_16bytes@,
    {
        self.blobs.as_ref().unwrap().check_mem_16bytes.as_slice()
    }

    /// The blob that checks a 3-byte access.
    pub fn blob_check_mem_3bytes(&self) -> (r: &[u8])
        requires
            self.has_blobs(),
        ensures
            r@ == self.blob_set().check_mem_3bytes@,
    {
        self.blobs.as_ref().unwrap().check_mem_3bytes.as_slice()
    }

    /// The blob that checks a 6-byte access.
    pub fn blob_check_mem_6bytes(&self) -> (r: &[u8])
        requires
            self.has_blobs(),
        ensures
            r@ == self.blob_set().check_mem_6bytes@,
    {
        self.blobs.as_ref().unwrap().check_mem_6bytes.as_slice()
    }

    /// The blob that checks a 12-byte access.
    pub fn blob_check_mem_12bytes(&self) -> (r: &[u8])
        requires
            self.has_blobs(),
        ensures
            r@ == self.blob_set().check_mem_12bytes@,
    {
        self.blobs.as_ref().unwrap().check_mem_12bytes.as_slice()
    }

    /// The blob that checks a 24-byte access.
    pub fn blob_check_mem_24bytes(&self) -> (r: &[u8])
        requires
            self.has_blobs(),
        ensures
            r@ == self.blob_set().check_mem_24bytes@,
    {
        self.blobs.as_ref().unwrap().check_mem_24bytes.as_slice()
    }

    /// The blob that checks a 32-byte access.
    pub fn blob_check_mem_32bytes(&self) -> (r: &[u8])
        requires
            self.has_blobs(),
        ensures
            r@ == self.blob_set().check_mem_32bytes@,
    {
        self.blobs.as_ref().unwrap().check_mem_32bytes.as_slice()
    }

    /// The blob that checks a 48-byte access.
    pub fn blob_check_mem_48bytes(&self) -> (r: &[u8])
        requires
            self.has_blobs(),
        ensures
            r@ == self.blob_set().check_mem_48bytes@,
    {
        self.blobs.as_ref().unwrap().check_mem_48bytes.as_slice()
    }

    /// The blob that checks a 64-byte access.
    pub fn blob_check_mem_64bytes(&self) -> (r: &[u8])
        requires
            self.has_blobs(),
        ensures
            r@ == self.blob_set().check_mem_64bytes@,
    {
        self.blobs.as_ref().unwrap().check_mem_64bytes.as_slice()
    }
}

} // verus!
