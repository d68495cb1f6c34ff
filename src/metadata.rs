//! The record kept for every allocation the sanitizer serves.
use vstd::prelude::*;

use crate::collections::clone_backtrace;
use backtrace::Backtrace;

verus! {

/// What the allocator knows of one allocation.
#[derive(Debug)]
pub struct AllocationMetadata {
    /// First byte of the user buffer, one page past the start of the mapping.
    pub address: usize,
    /// Requested size, 16 for a zero-sized request.
    pub size: usize,
    /// Length of the whole mapping, guard pages included.
    pub actual_size: usize,
    pub allocation_site_backtrace: Option<Backtrace>,
    pub release_site_backtrace: Option<Backtrace>,
    pub freed: bool,
    /// The request was for zero bytes and was served with 16.
    pub is_malloc_zero: bool,
}

/// A copy of an optional backtrace.
pub fn copy_backtrace(b: &Option<Backtrace>) -> (r: Option<Backtrace>)
    ensures
        r is Some == b is Some,
{
    match b {
        Some(t) => Some(clone_backtrace(t)),
        None => None,
    }
}

impl AllocationMetadata {
    /// The two records describe the same allocation in the same state; only
    /// the frames of their backtraces may differ.
    pub open spec fn same_record(&self, other: &AllocationMetadata) -> bool {
        &&& self.address == other.address
        &&& self.size == other.size
        &&& self.actual_size == other.actual_size
        &&& self.freed == other.freed
        &&& self.is_malloc_zero == other.is_malloc_zero
        &&& self.allocation_site_backtrace is Some == other.allocation_site_backtrace is Some
        &&& self.release_site_backtrace is Some == other.release_site_backtrace is Some
    }

    /// A copy of this record, backtraces included.
    pub fn snapshot(&self) -> (r: AllocationMetadata)
        ensures
            r.same_record(self),
    {
        AllocationMetadata {
            address: self.address,
            size: self.size,
            actual_size: self.actual_size,
            allocation_site_backtrace: copy_backtrace(&self.allocation_site_backtrace),
            release_site_backtrace: copy_backtrace(&self.release_site_backtrace),
            freed: self.freed,
            is_malloc_zero: self.is_malloc_zero,
        }
    }
}

} // verus!
