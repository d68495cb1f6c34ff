//! The memory errors the sanitizer reports, and the list they are kept in.
use vstd::prelude::*;

use crate::collections::clone_backtrace;
use crate::metadata::AllocationMetadata;
use backtrace::Backtrace;

verus! {

/// An access that the shadow memory refused, attributed to an allocation.
#[derive(Debug)]
pub struct AsanReadWriteError {
    /// x0 to x30, then the instrumented program counter.
    pub registers: [usize; 32],
    pub pc: usize,
    /// Base register, index register (0xffff for none), displacement, and
    /// the faulting address.
    pub fault: (u16, u16, usize, usize),
    pub metadata: AllocationMetadata,
    pub backtrace: Backtrace,
}

/// One memory error.
#[derive(Debug)]
pub enum AsanError {
    OobRead(AsanReadWriteError),
    OobWrite(AsanReadWriteError),
    ReadAfterFree(AsanReadWriteError),
    WriteAfterFree(AsanReadWriteError),
    DoubleFree((usize, AllocationMetadata, Backtrace)),
    UnallocatedFree((usize, Backtrace)),
    Unknown(([usize; 32], usize, (u16, u16, usize, usize), Backtrace)),
    Leak((usize, AllocationMetadata)),
    StackOobRead(([usize; 32], usize, (u16, u16, usize, usize), Backtrace)),
    StackOobWrite(([usize; 32], usize, (u16, u16, usize, usize), Backtrace)),
    BadFuncArgRead((String, usize, usize, Backtrace)),
    BadFuncArgWrite((String, usize, usize, Backtrace)),
}

impl AsanError {
    /// The headline a report gives this error.
    pub open spec fn describe(&self) -> Seq<char> {
        match self {
            AsanError::OobRead(_) => "heap out-of-bounds read"@,
            AsanError::OobWrite(_) => "heap out-of-bounds write"@,
            AsanError::DoubleFree(_) => "double-free"@,
            AsanError::UnallocatedFree(_) => "unallocated-free"@,
            AsanError::WriteAfterFree(_) => "heap use-after-free write"@,
            AsanError::ReadAfterFree(_) => "heap use-after-free read"@,
            AsanError::Unknown(_) => "heap unknown"@,
            AsanError::Leak(_) => "memory-leak"@,
            AsanError::StackOobRead(_) => "stack out-of-bounds read"@,
            AsanError::StackOobWrite(_) => "stack out-of-bounds write"@,
            AsanError::BadFuncArgRead(_) => "function arg resulting in bad read"@,
            AsanError::BadFuncArgWrite(_) => "function arg resulting in bad write"@,
        }
    }

    /// The headline a report gives this error.
    pub fn description(&self) -> (r: &'static str)
        ensures
            r@ == self.describe(),
    {
        match self {
            AsanError::OobRead(_) => "heap out-of-bounds read",
            AsanError::OobWrite(_) => "heap out-of-bounds write",
            AsanError::DoubleFree(_) => "double-free",
            AsanError::UnallocatedFree(_) => "unallocated-free",
            AsanError::WriteAfterFree(_) => "heap use-after-free write",
            AsanError::ReadAfterFree(_) => "heap use-after-free read",
            AsanError::Unknown(_) => "heap unknown",
            AsanError::Leak(_) => "memory-leak",
            AsanError::StackOobRead(_) => "stack out-of-bounds read",
            AsanError::StackOobWrite(_) => "stack out-of-bounds write",
            AsanError::BadFuncArgRead(_) => "function arg resulting in bad read",
            AsanError::BadFuncArgWrite(_) => "function arg resulting in bad write",
        }
    }
}

impl AsanReadWriteError {
    /// Both describe the same access; only backtrace frames may differ.
    pub open spec fn same_access(&self, o: &AsanReadWriteError) -> bool {
        self.registers == o.registers && self.pc == o.pc && self.fault == o.fault && self.metadata.same_record(&o.metadata)
    }

    /// A copy of this record, backtraces included.
    pub fn duplicate(&self) -> (r: AsanReadWriteError)
        ensures
            r.same_access(self),
    {
        AsanReadWriteError {
            registers: self.registers,
            pc: self.pc,
            fault: self.fault,
            metadata: self.metadata.snapshot(),
            backtrace: clone_backtrace(&self.backtrace),
        }
    }
}

impl AsanError {
    /// Both report the same error; only backtrace frames may differ.
    pub open spec fn same_report(&self, o: &AsanError) -> bool {
        match (self, o) {
            (AsanError::OobRead(a), AsanError::OobRead(b)) => a.same_access(b),
            (AsanError::OobWrite(a), AsanError::OobWrite(b)) => a.same_access(b),
            (AsanError::ReadAfterFree(a), AsanError::ReadAfterFree(b)) => a.same_access(b),
            (AsanError::WriteAfterFree(a), AsanError::WriteAfterFree(b)) => a.same_access(b),
            (AsanError::DoubleFree(a), AsanError::DoubleFree(b)) => a.0 == b.0 && a.1.same_record(&b.1),
            (AsanError::UnallocatedFree(a), AsanError::UnallocatedFree(b)) => a.0 == b.0,
            (AsanError::Unknown(a), AsanError::Unknown(b)) => a.0 == b.0 && a.1 == b.1 && a.2 == b.2,
            (AsanError::Leak(a), AsanError::Leak(b)) => a.0 == b.0 && a.1.same_record(&b.1),
            (AsanError::StackOobRead(a), AsanError::StackOobRead(b)) => a.0 == b.0 && a.1 == b.1 && a.2 == b.2,
            (AsanError::StackOobWrite(a), AsanError::StackOobWrite(b)) => a.0 == b.0 && a.1 == b.1 && a.2 == b.2,
            (AsanError::BadFuncArgRead(a), AsanError::BadFuncArgRead(b)) => a.0@ == b.0@ && a.1 == b.1 && a.2 == b.2,
            (AsanError::BadFuncArgWrite(a), AsanError::BadFuncArgWrite(b)) => a.0@ == b.0@ && a.1 == b.1 && a.2 == b.2,
            _ => false,
        }
    }

    /// A copy of this error, backtraces included.
    pub fn duplicate(&self) -> (r: AsanError)
        ensures
            r.same_report(self),
    {
        match self {
            AsanError::OobRead(a) => AsanError::OobRead(a.duplicate()),
            AsanError::OobWrite(a) => AsanError::OobWrite(a.duplicate()),
            AsanError::ReadAfterFree(a) => AsanError::ReadAfterFree(a.duplicate()),
            AsanError::WriteAfterFree(a) => AsanError::WriteAfterFree(a.duplicate()),
            AsanError::DoubleFree((p, m, b)) => AsanError::DoubleFree((*p, m.snapshot(), clone_backtrace(b))),
            AsanError::UnallocatedFree((p, b)) => AsanError::UnallocatedFree((*p, clone_backtrace(b))),
            AsanError::Unknown((r, pc, f, b)) => AsanError::Unknown((*r, *pc, *f, clone_backtrace(b))),
            AsanError::Leak((p, m)) => AsanError::Leak((*p, m.snapshot())),
            AsanError::StackOobRead((r, pc, f, b)) => AsanError::StackOobRead((*r, *pc, *f, clone_backtrace(b))),
            AsanError::StackOobWrite((r, pc, f, b)) => AsanError::StackOobWrite((*r, *pc, *f, clone_backtrace(b))),
            AsanError::BadFuncArgRead((n, p, l, b)) => AsanError::BadFuncArgRead((n.clone(), *p, *l, clone_backtrace(b))),
            AsanError::BadFuncArgWrite((n, p, l, b)) => AsanError::BadFuncArgWrite((n.clone(), *p, *l, clone_backtrace(b))),
        }
    }
}

/// The errors of one run of the target, oldest first.
#[derive(Debug)]
pub struct AsanErrors {
    errors: Vec<AsanError>,
}

impl AsanErrors {
    pub closed spec fn view(&self) -> Seq<AsanError> {
        self.errors@
    }

    /// An empty list.
    pub fn new() -> (r: Self)
        ensures
            r.view() == Seq::<AsanError>::empty(),
    {
        AsanErrors { errors: Vec::new() }
    }

    /// Forgets every error.
    pub fn clear(&mut self)
        ensures
            final(self).view() == Seq::<AsanError>::empty(),
    {
        self.errors.clear();
    }

    /// The number of errors.
    pub fn len(&self) -> (r: usize)
        ensures
            r == self.view().len(),
    {
        self.errors.len()
    }

    /// Whether no error occurred.
    pub fn is_empty(&self) -> (r: bool)
        ensures
            r == (self.view().len() == 0),
    {
        self.errors.len() == 0
    }

    /// Appends `e`.
    pub fn push(&mut self, e: AsanError)
        ensures
            final(self).view() == old(self).view().push(e),
    {
        self.errors.push(e);
    }

    /// A copy of the list, backtraces included.
    pub fn duplicate(&self) -> (r: AsanErrors)
        ensures
            r.view().len() == self.view().len(),
            forall|i: int| 0 <= i < self.view().len() ==> (#[trigger] r.view()[i]).same_report(&self.view()[i]),
    {
        let mut out: Vec<AsanError> = Vec::new();
        let mut i: usize = 0;
        while i < self.errors.len()
            invariant
                i <= self.errors@.len(),
                out@.len() == i,
                forall|j: int| 0 <= j < i ==> (#[trigger] out@[j]).same_report(&self.errors@[j]),
            decreases self.errors@.len() - i,
        {
            out.push(self.errors[i].duplicate());
            i += 1;
        }
        AsanErrors { errors: out }
    }

    /// The errors, oldest first.
    pub fn as_slice(&self) -> (r: &[AsanError])
        ensures
            r@ == self.view(),
    {
        self.errors.as_slice()
    }
}

} // verus!
