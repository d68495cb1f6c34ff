//! What the hooks on libc's allocation and memory routines decide: which
//! pointer and length arguments of a call are checked against shadow
//! memory, the errors a call gives, and how the allocation routines use the
//! allocator. The hooks themselves, and the real routines, are run by the
//! embedding program.
use vstd::prelude::*;

use crate::allocator::{effective_size, fit_bucket, Allocator, MAX_ALLOCATION};
use crate::collections::capture_backtrace;
use crate::errors::AsanError;
use crate::runtime::AsanRuntime;
use crate::shadow::{poisoned_byte, shadow_of, unpoisoned_byte};

verus! {

/// The libc routines whose pointer arguments are checked.
#[derive(Clone, Copy, Debug, PartialEq, Eq, Structural)]
pub enum LibcFunction {
    Write,
    Read,
    Fgets,
    Memcmp,
    Memcpy,
    Mempcpy,
    Memmove,
    Memset,
    Memchr,
    Memrchr,
    Memmem,
    Bzero,
    ExplicitBzero,
    Bcmp,
    Strchr,
    Strrchr,
    Strcasecmp,
    Strncasecmp,
    Strcat,
    Strcmp,
    Strncmp,
    Strcpy,
    Strncpy,
    Stpcpy,
    Strdup,
    Strlen,
    Strnlen,
    Strstr,
    Strcasestr,
    Atoi,
    Atol,
    Atoll,
    Wcslen,
    Wcscpy,
    Wcscmp,
}

/// A length the embedding program measures in the caller's memory before a
/// call is checked.
#[derive(Clone, Copy, Debug, PartialEq, Eq, Structural)]
pub enum Measure {
    /// `strlen` of the argument at this position.
    Str(usize),
    /// `strnlen` of the argument at the first position, bounded by the second.
    StrN(usize, usize),
    /// `wcslen` of the argument at this position.
    Wide(usize),
}

/// A hooked call: its first four arguments as integers, and the lengths its
/// `measures()` asked for, in order (zero where none was asked for).
#[derive(Clone, Copy, Debug)]
pub struct CallArgs {
    pub args: [usize; 4],
    pub lens: [usize; 2],
}

/// A range of memory a call reads or writes.
#[derive(Clone, Copy, Debug, PartialEq, Eq, Structural)]
pub struct ArgCheck {
    pub ptr: usize,
    pub len: usize,
    pub write: bool,
}

/// The bytes a wide string of `n` characters occupies with its terminator,
/// counted as the hooks count them.
pub open spec fn wide_bytes(n: usize) -> int {
    (n + 1) * 2
}

impl LibcFunction {
    /// The routine's name.
    pub open spec fn name_spec(&self) -> Seq<char> {
        match self {
            LibcFunction::Write => "write"@,
            LibcFunction::Read => "read"@,
            LibcFunction::Fgets => "fgets"@,
            LibcFunction::Memcmp => "memcmp"@,
            LibcFunction::Memcpy => "memcpy"@,
            LibcFunction::Mempcpy => "mempcpy"@,
            LibcFunction::Memmove => "memmove"@,
            LibcFunction::Memset => "memset"@,
            LibcFunction::Memchr => "memchr"@,
            LibcFunction::Memrchr => "memrchr"@,
            LibcFunction::Memmem => "memmem"@,
            LibcFunction::Bzero => "bzero"@,
            LibcFunction::ExplicitBzero => "explicit_bzero"@,
            LibcFunction::Bcmp => "bcmp"@,
            LibcFunction::Strchr => "strchr"@,
            LibcFunction::Strrchr => "strrchr"@,
            LibcFunction::Strcasecmp => "strcasecmp"@,
            LibcFunction::Strncasecmp => "strncasecmp"@,
            LibcFunction::Strcat => "strcat"@,
            LibcFunction::Strcmp => "strcmp"@,
            LibcFunction::Strncmp => "strncmp"@,
            LibcFunction::Strcpy => "strcpy"@,
            LibcFunction::Strncpy => "strncpy"@,
            LibcFunction::Stpcpy => "stpcpy"@,
            LibcFunction::Strdup => "strdup"@,
            LibcFunction::Strlen => "strlen"@,
            LibcFunction::Strnlen => "strnlen"@,
            LibcFunction::Strstr => "strstr"@,
            LibcFunction::Strcasestr => "strcasestr"@,
            LibcFunction::Atoi => "atoi"@,
            LibcFunction::Atol => "atol"@,
            LibcFunction::Atoll => "atoll"@,
            LibcFunction::Wcslen => "wcslen"@,
            LibcFunction::Wcscpy => "wcscpy"@,
            LibcFunction::Wcscmp => "wcscmp"@,
        }
    }

    /// The routine's name.
    pub fn name(&self) -> (r: &'static str)
        ensures
            r@ == self.name_spec(),
    {
        match self {
            LibcFunction::Write => "write",
            LibcFunction::Read => "read",
            LibcFunction::Fgets => "fgets",
            LibcFunction::Memcmp => "memcmp",
            LibcFunction::Memcpy => "memcpy",
            LibcFunction::Mempcpy => "mempcpy",
            LibcFunction::Memmove => "memmove",
            LibcFunction::Memset => "memset",
            LibcFunction::Memchr => "memchr",
            LibcFunction::Memrchr => "memrchr",
            LibcFunction::Memmem => "memmem",
            LibcFunction::Bzero => "bzero",
            LibcFunction::ExplicitBzero => "explicit_bzero",
            LibcFunction::Bcmp => "bcmp",
            LibcFunction::Strchr => "strchr",
            LibcFunction::Strrchr => "strrchr",
            LibcFunction::Strcasecmp => "strcasecmp",
            LibcFunction::Strncasecmp => "strncasecmp",
            LibcFunction::Strcat => "strcat",
            LibcFunction::Strcmp => "strcmp",
            LibcFunction::Strncmp => "strncmp",
            LibcFunction::Strcpy => "strcpy",
            LibcFunction::Strncpy => "strncpy",
            LibcFunction::Stpcpy => "stpcpy",
            LibcFunction::Strdup => "strdup",
            LibcFunction::Strlen => "strlen",
            LibcFunction::Strnlen => "strnlen",
            LibcFunction::Strstr => "strstr",
            LibcFunction::Strcasestr => "strcasestr",
            LibcFunction::Atoi => "atoi",
            LibcFunction::Atol => "atol",
            LibcFunction::Atoll => "atoll",
            LibcFunction::Wcslen => "wcslen",
            LibcFunction::Wcscpy => "wcscpy",
            LibcFunction::Wcscmp => "wcscmp",
        }
    }

    /// The lengths to measure before a call is checked.
    pub open spec fn measures_spec(&self) -> Seq<Measure> {
        match self {
            LibcFunction::Strchr | LibcFunction::Strrchr | LibcFunction::Strdup | LibcFunction::Strlen
            | LibcFunction::Atoi | LibcFunction::Atol | LibcFunction::Atoll => seq![Measure::Str(0)],
            LibcFunction::Strcasecmp | LibcFunction::Strcat | LibcFunction::Strcmp | LibcFunction::Strstr
            | LibcFunction::Strcasestr => seq![Measure::Str(0), Measure::Str(1)],
            LibcFunction::Strcpy | LibcFunction::Stpcpy => seq![Measure::Str(1)],
            LibcFunction::Strnlen => seq![Measure::StrN(0, 1)],
            LibcFunction::Wcslen => seq![Measure::Wide(0)],
            LibcFunction::Wcscpy => seq![Measure::Wide(1)],
            LibcFunction::Wcscmp => seq![Measure::Wide(0), Measure::Wide(1)],
            _ => Seq::empty(),
        }
    }

    /// The lengths to measure before a call is checked.
    pub fn measures(&self) -> (r: Vec<Measure>)
        ensures
            r@ == self.measures_spec(),
    {
        let r = match self {
            LibcFunction::Strchr | LibcFunction::Strrchr | LibcFunction::Strdup | LibcFunction::Strlen
            | LibcFunction::Atoi | LibcFunction::Atol | LibcFunction::Atoll => vec![Measure::Str(0)],
            LibcFunction::Strcasecmp | LibcFunction::Strcat | LibcFunction::Strcmp | LibcFunction::Strstr
            | LibcFunction::Strcasestr => vec![Measure::Str(0), Measure::Str(1)],
            LibcFunction::Strcpy | LibcFunction::Stpcpy => vec![Measure::Str(1)],
            LibcFunction::Strnlen => vec![Measure::StrN(0, 1)],
            LibcFunction::Wcslen => vec![Measure::Wide(0)],
            LibcFunction::Wcscpy => vec![Measure::Wide(1)],
            LibcFunction::Wcscmp => vec![Measure::Wide(0), Measure::Wide(1)],
            _ => Vec::new(),
        };
        assert(r@ =~= self.measures_spec());
        r
    }

    /// The ranges a call reads or writes, in the order they are checked.
    pub open spec fn checks_spec(&self, c: CallArgs) -> Seq<ArgCheck> {
        let a = c.args;
        let l = c.lens;
        match self {
            LibcFunction::Write => seq![ArgCheck { ptr: a[1], len: a[2], write: true }],
            LibcFunction::Read => seq![ArgCheck { ptr: a[1], len: a[2], write: false }],
            LibcFunction::Fgets => seq![ArgCheck { ptr: a[0], len: a[1], write: false }],
            LibcFunction::Memcmp | LibcFunction::Bcmp | LibcFunction::Strncasecmp | LibcFunction::Strncmp => seq![
                ArgCheck { ptr: a[0], len: a[2], write: false },
                ArgCheck { ptr: a[1], len: a[2], write: false },
            ],
            LibcFunction::Memcpy | LibcFunction::Mempcpy | LibcFunction::Memmove | LibcFunction::Strncpy => seq![
                ArgCheck { ptr: a[0], len: a[2], write: true },
                ArgCheck { ptr: a[1], len: a[2], write: false },
            ],
            LibcFunction::Memset => seq![ArgCheck { ptr: a[0], len: a[2], write: true }],
            LibcFunction::Memchr | LibcFunction::Memrchr => seq![ArgCheck { ptr: a[0], len: a[2], write: false }],
            LibcFunction::Memmem => seq![
                ArgCheck { ptr: a[0], len: a[1], write: false },
                ArgCheck { ptr: a[2], len: a[3], write: false },
            ],
            LibcFunction::Bzero | LibcFunction::ExplicitBzero => seq![ArgCheck { ptr: a[0], len: a[1], write: true }],
            LibcFunction::Strchr | LibcFunction::Strrchr | LibcFunction::Strdup | LibcFunction::Strlen
            | LibcFunction::Strnlen | LibcFunction::Atoi | LibcFunction::Atol | LibcFunction::Atoll => seq![
                ArgCheck { ptr: a[0], len: l[0], write: false },
            ],
            LibcFunction::Strcasecmp | LibcFunction::Strcat | LibcFunction::Strcmp | LibcFunction::Strstr
            | LibcFunction::Strcasestr => seq![
                ArgCheck { ptr: a[0], len: l[0], write: false },
                ArgCheck { ptr: a[1], len: l[1], write: false },
            ],
            LibcFunction::Strcpy | LibcFunction::Stpcpy => seq![
                ArgCheck { ptr: a[0], len: l[0], write: true },
                ArgCheck { ptr: a[1], len: l[0], write: false },
            ],
            LibcFunction::Wcslen => seq![ArgCheck { ptr: a[0], len: wide_bytes(l[0]) as usize, write: false }],
            LibcFunction::Wcscpy => seq![
                ArgCheck { ptr: a[0], len: wide_bytes(l[0]) as usize, write: true },
                ArgCheck { ptr: a[1], len: wide_bytes(l[0]) as usize, write: false },
            ],
            LibcFunction::Wcscmp => seq![
                ArgCheck { ptr: a[0], len: wide_bytes(l[0]) as usize, write: false },
                ArgCheck { ptr: a[1], len: wide_bytes(l[1]) as usize, write: false },
            ],
        }
    }

    /// The ranges a call reads or writes, in the order they are checked.
    pub fn checks(&self, c: &CallArgs) -> (r: Vec<ArgCheck>)
        requires
            c.lens[0] < usize::MAX / 2,
            c.lens[1] < usize::MAX / 2,
        ensures
            r@ == self.checks_spec(*c),
    {
        let a = c.args;
        let l = c.lens;
        let r = match self {
            LibcFunction::Write => vec![ArgCheck { ptr: a[1], len: a[2], write: true }],
            LibcFunction::Read => vec![ArgCheck { ptr: a[1], len: a[2], write: false }],
            LibcFunction::Fgets => vec![ArgCheck { ptr: a[0], len: a[1], write: false }],
            LibcFunction::Memcmp | LibcFunction::Bcmp | LibcFunction::Strncasecmp | LibcFunction::Strncmp => vec![
                ArgCheck { ptr: a[0], len: a[2], write: false },
                ArgCheck { ptr: a[1], len: a[2], write: false },
            ],
            LibcFunction::Memcpy | LibcFunction::Mempcpy | LibcFunction::Memmove | LibcFunction::Strncpy => vec![
                ArgCheck { ptr: a[0], len: a[2], write: true },
                ArgCheck { ptr: a[1], len: a[2], write: false },
            ],
            LibcFunction::Memset => vec![ArgCheck { ptr: a[0], len: a[2], write: true }],
            LibcFunction::Memchr | LibcFunction::Memrchr => vec![ArgCheck { ptr: a[0], len: a[2], write: false }],
            LibcFunction::Memmem => vec![
                ArgCheck { ptr: a[0], len: a[1], write: false },
                ArgCheck { ptr: a[2], len: a[3], write: false },
            ],
            LibcFunction::Bzero | LibcFunction::ExplicitBzero => vec![ArgCheck { ptr: a[0], len: a[1], write: true }],
            LibcFunction::Strchr | LibcFunction::Strrchr | LibcFunction::Strdup | LibcFunction::Strlen
            | LibcFunction::Strnlen | LibcFunction::Atoi | LibcFunction::Atol | LibcFunction::Atoll => vec![
                ArgCheck { ptr: a[0], len: l[0], write: false },
            ],
            LibcFunction::Strcasecmp | LibcFunction::Strcat | LibcFunction::Strcmp | LibcFunction::Strstr
            | LibcFunction::Strcasestr => vec![
                ArgCheck { ptr: a[0], len: l[0], write: false },
                ArgCheck { ptr: a[1], len: l[1], write: false },
            ],
            LibcFunction::Strcpy | LibcFunction::Stpcpy => vec![
                ArgCheck { ptr: a[0], len: l[0], write: true },
                ArgCheck { ptr: a[1], len: l[0], write: false },
            ],
            LibcFunction::Wcslen => vec![ArgCheck { ptr: a[0], len: (l[0] + 1) * 2, write: false }],
            LibcFunction::Wcscpy => vec![
                ArgCheck { ptr: a[0], len: (l[0] + 1) * 2, write: true },
                ArgCheck { ptr: a[1], len: (l[0] + 1) * 2, write: false },
            ],
            LibcFunction::Wcscmp => vec![
                ArgCheck { ptr: a[0], len: (l[0] + 1) * 2, write: false },
                ArgCheck { ptr: a[1], len: (l[1] + 1) * 2, write: false },
            ],
        };
        assert(r@ =~= self.checks_spec(*c));
        r
    }
}

/// Every byte of the range may be accessed, and the range does not run past
/// the end of the address space.
pub open spec fn range_ok(allocator: Allocator, c: ArgCheck) -> bool {
    c.ptr + c.len <= usize::MAX && forall|i: usize| i < c.len ==> #[trigger] allocator.addressable((c.ptr + i) as usize)
}

/// The checks of `checks` that fail, in order.
pub open spec fn failing(allocator: Allocator, checks: Seq<ArgCheck>) -> Seq<ArgCheck>
    decreases checks.len(),
{
    if checks.len() == 0 {
        Seq::empty()
    } else {
        let rest = failing(allocator, checks.drop_last());
        if range_ok(allocator, checks.last()) {
            rest
        } else {
            rest.push(checks.last())
        }
    }
}

/// `e` is the error a failed check `c` of a call to `f` gives.
pub open spec fn bad_arg(e: AsanError, f: LibcFunction, c: ArgCheck) -> bool {
    if c.write {
        e matches AsanError::BadFuncArgWrite((n, p, l, _)) && n@ == f.name_spec() && p == c.ptr && l == c.len
    } else {
        e matches AsanError::BadFuncArgRead((n, p, l, _)) && n@ == f.name_spec() && p == c.ptr && l == c.len
    }
}

/// A routine with one checked range reports exactly one error when any byte
/// of that range is inaccessible, and none when all are accessible.
pub proof fn lemma_single_range_reports_once(allocator: Allocator, f: LibcFunction, c: CallArgs)
    requires
        f.checks_spec(c).len() == 1,
    ensures
        !range_ok(allocator, f.checks_spec(c)[0]) ==> failing(allocator, f.checks_spec(c)) == seq![f.checks_spec(c)[0]],
        range_ok(allocator, f.checks_spec(c)[0]) ==> failing(allocator, f.checks_spec(c)).len() == 0,
{
    let checks = f.checks_spec(c);
    assert(checks.drop_last().len() == 0);
    assert(failing(allocator, checks.drop_last()) =~= Seq::<ArgCheck>::empty());
    assert(checks.last() == checks[0]);
}

impl AsanRuntime {
    /// Whether every byte of `c` may be accessed.
    pub fn check_arg(&self, allocator: &Allocator, c: ArgCheck) -> (r: bool)
        requires
            allocator.wf(),
        ensures
            r == range_ok(*allocator, c),
    {
        if c.len > usize::MAX - c.ptr {
            return false;
        }
        allocator.check_range(c.ptr, c.len)
    }

    /// Checks the ranges a call to `f` reads and writes, and reports a bad
    /// argument error for each that is not wholly accessible, in order. The
    /// call itself is made whatever the outcome.
    pub fn validate_call(&mut self, allocator: &Allocator, f: LibcFunction, c: &CallArgs)
        requires
            allocator.wf(),
            c.lens[0] < usize::MAX / 2,
            c.lens[1] < usize::MAX / 2,
        ensures
            final(self).log() == old(self).log() + final(self).log().subrange(old(self).log().len() as int, final(self).log().len() as int),
            final(self).log().len() == old(self).log().len() + failing(*allocator, f.checks_spec(*c)).len(),
            forall|i: int| 0 <= i < failing(*allocator, f.checks_spec(*c)).len() ==> bad_arg(
                #[trigger] final(self).log()[old(self).log().len() + i],
                f,
                failing(*allocator, f.checks_spec(*c))[i],
            ),
            final(self).stalked() == old(self).stalked(),
            final(self).modules() == old(self).modules(),
            final(self).opts() == old(self).opts(),
            final(self).has_blobs() == old(self).has_blobs(),
    {
        let checks = f.checks(c);
        let ghost start = self.log().len();
        let mut i: usize = 0;
        while i < checks.len()
            invariant
                allocator.wf(),
                i <= checks@.len(),
                checks@ == f.checks_spec(*c),
                start == old(self).log().len(),
                self.log().len() == start + failing(*allocator, checks@.subrange(0, i as int)).len(),
                self.log().subrange(0, start as int) == old(self).log(),
                forall|x: int| 0 <= x < failing(*allocator, checks@.subrange(0, i as int)).len() ==> bad_arg(
                    #[trigger] self.log()[start + x],
                    f,
                    failing(*allocator, checks@.subrange(0, i as int))[x],
                ),
                self.stalked() == old(self).stalked(),
                self.modules() == old(self).modules(),
                self.opts() == old(self).opts(),
                self.has_blobs() == old(self).has_blobs(),
            decreases checks@.len() - i,
        {
            let ck = checks[i];
            let ghost before = self.log();
            let ghost prefix = checks@.subrange(0, i as int);
            assert(checks@.subrange(0, i + 1).drop_last() =~= prefix);
            assert(checks@.subrange(0, i + 1).last() == ck);
            if !self.check_arg(allocator, ck) {
                let name = f.name().to_string();
                let e = if ck.write {
                    AsanError::BadFuncArgWrite((name, ck.ptr, ck.len, capture_backtrace()))
                } else {
                    AsanError::BadFuncArgRead((name, ck.ptr, ck.len, capture_backtrace()))
                };
                self.report_error(e);
                proof {
                    assert(self.log().subrange(0, start as int) =~= before.subrange(0, start as int));
                    assert forall|x: int| 0 <= x < failing(*allocator, checks@.subrange(0, i + 1)).len() implies bad_arg(
                        #[trigger] self.log()[start + x],
                        f,
                        failing(*allocator, checks@.subrange(0, i + 1))[x],
                    ) by {
                        if x < failing(*allocator, prefix).len() {
                            assert(self.log()[start + x] == before[start + x]);
                        }
                    }
                }
            }
            i += 1;
        }
        proof {
            assert(checks@.subrange(0, checks@.len() as int) =~= checks@);
            assert(self.log() =~= old(self).log() + self.log().subrange(old(self).log().len() as int, self.log().len() as int));
        }
    }
}

/// The number of bytes `calloc(nmemb, size)` asks for, none when the
/// product does not fit in a `usize`.
pub fn calloc_size(nmemb: usize, size: usize) -> (r: Option<usize>)
    ensures
        r == if nmemb * size <= usize::MAX {
            Some((nmemb * size) as usize)
        } else {
            None::<usize>
        },
{
    nmemb.checked_mul(size)
}

impl AsanRuntime {
    /// `free` and the C++ deletes: releases `ptr` unless it is null, and
    /// reports what the release found wrong.
    pub fn hook_free(&mut self, allocator: &mut Allocator, ptr: usize)
        requires
            old(allocator).wf(),
        ensures
            final(allocator).wf(),
            final(allocator).same_config(old(allocator)),
            final(allocator).queue() == old(allocator).queue(),
            ptr == 0 ==> final(self).log() == old(self).log() && *final(allocator) == *old(allocator),
            ptr != 0 && !old(allocator).allocs().contains_key(ptr) ==> final(allocator).allocs() == old(allocator).allocs()
                && final(self).log().len() == old(self).log().len() + 1
                && final(self).log().drop_last() == old(self).log()
                && (final(self).log().last() matches AsanError::UnallocatedFree((p, _)) && p == ptr),
            ptr != 0 && old(allocator).allocs().contains_key(ptr) ==> final(allocator).allocs()[ptr].freed
                && final(allocator).allocs() == old(allocator).allocs().insert(ptr, final(allocator).allocs()[ptr])
                && final(allocator).allocs()[ptr].size == old(allocator).allocs()[ptr].size,
            ptr != 0 && old(allocator).allocs().contains_key(ptr) && !old(allocator).allocs()[ptr].freed ==> final(self).log() == old(self).log(),
            ptr != 0 && old(allocator).allocs().contains_key(ptr) && old(allocator).allocs()[ptr].freed ==> final(self).log().len() == old(self).log().len() + 1
                && final(self).log().drop_last() == old(self).log()
                && (final(self).log().last() matches AsanError::DoubleFree((p, m, _)) && p == ptr && m.same_record(&old(allocator).allocs()[ptr])),
            ptr != 0 && old(allocator).allocs().contains_key(ptr) ==> forall|a: usize| #[trigger] final(allocator).shadow_mem().byte(a) == poisoned_byte(
                old(allocator).shadow_mem().byte(a),
                shadow_of(old(allocator).bit(), ptr),
                old(allocator).allocs()[ptr].size,
                a,
            ),
            final(self).stalked() == old(self).stalked(),
            final(self).modules() == old(self).modules(),
            final(self).opts() == old(self).opts(),
            final(self).has_blobs() == old(self).has_blobs(),
    {
        if ptr != 0 {
            match allocator.release(ptr) {
                Some(e) => {
                    self.report_error(e);
                },
                None => {},
            }
        }
        assert(final(self).log().drop_last() =~= old(self).log() || final(self).log() == old(self).log());
    }

    /// `realloc`: serves `size` bytes as `malloc` does (from `fresh_mapping`
    /// when no record is reused), then releases `ptr` as `free` does. Returns
    /// the new pointer and the number of bytes to copy to it from `ptr`: the
    /// smaller of the two usable sizes, none when `ptr` is null. When no
    /// memory could be served, null is returned and `ptr` stays allocated.
    pub fn hook_realloc(&mut self, allocator: &mut Allocator, ptr: usize, size: usize, fresh_mapping: Option<usize>) -> (r: (
        usize,
        usize,
    ))
        requires
            old(allocator).wf(),
            size <= MAX_ALLOCATION,
            ptr == 0 || old(allocator).allocs().contains_key(ptr),
            fresh_mapping matches Some(base) ==> base % old(allocator).page() == 0 && base + old(allocator).mapping_len(size) <= usize::MAX
                && old(allocator).fresh_region((base + old(allocator).page()) as usize, old(allocator).mapping_len(size)),
        ensures
            final(allocator).wf(),
            final(allocator).same_config(old(allocator)),
            r.0 == 0 <==> fit_bucket(old(allocator).queue(), old(allocator).mapping_len(size), old(allocator).largest() as int) is None
                && fresh_mapping is None,
            r.0 != 0 ==> !old(allocator).allocs().contains_key(r.0) && r.0 != ptr,
            match fit_bucket(old(allocator).queue(), old(allocator).mapping_len(size), old(allocator).largest() as int) {
                Some(b) => r.0 == old(allocator).queue()[b].last().address && final(allocator).allocs()[r.0].actual_size == b,
                None => fresh_mapping matches Some(base) ==> r.0 == base + old(allocator).page()
                    && final(allocator).allocs()[r.0].actual_size == old(allocator).mapping_len(size),
            },
            r.0 != 0 ==> final(allocator).allocs()[r.0].is_malloc_zero == (size == 0),
            r.0 != 0 && ptr != 0 && !old(allocator).allocs()[ptr].freed ==> final(self).log() == old(self).log(),
            r.0 != 0 && ptr != 0 && old(allocator).allocs()[ptr].freed ==> final(self).log().len() == old(self).log().len() + 1
                && final(self).log().drop_last() == old(self).log()
                && (final(self).log().last() matches AsanError::DoubleFree((p, _, _)) && p == ptr),
            r.0 == 0 ==> r.1 == 0 && final(self).log() == old(self).log(),
            r.0 == 0 && ptr != 0 ==> final(allocator).allocs().contains_key(ptr) && final(allocator).allocs()[ptr] == old(allocator).allocs()[ptr],
            r.0 != 0 ==> final(allocator).allocs().contains_key(r.0) && final(allocator).allocs()[r.0].size == effective_size(size),
            r.0 != 0 ==> !final(allocator).allocs()[r.0].freed,
            r.0 != 0 && ptr != 0 ==> final(allocator).allocs()[ptr].freed,
            r.0 != 0 && ptr != 0 ==> r.1 == if effective_size(size) <= old(allocator).allocs()[ptr].size {
                effective_size(size)
            } else {
                old(allocator).allocs()[ptr].size
            },
            r.0 != 0 && ptr == 0 ==> r.1 == 0 && final(self).log() == old(self).log(),
            final(self).stalked() == old(self).stalked(),
            final(self).modules() == old(self).modules(),
            final(self).opts() == old(self).opts(),
            final(self).has_blobs() == old(self).has_blobs(),
    {
        let old_size = if ptr != 0 {
            allocator.get_usable_size(ptr)
        } else {
            0
        };
        let ret = allocator.allocate(size, 8, fresh_mapping);
        if ret == 0 {
            return (0, 0);
        }
        let new_size = if size == 0 {
            16
        } else {
            size
        };
        let copy = if ptr == 0 {
            0
        } else if new_size <= old_size {
            new_size
        } else {
            old_size
        };
        if ptr != 0 {
            self.hook_free(allocator, ptr);
        }
        (ret, copy)
    }

    /// `mmap`: once the real call returned `mapped` (all ones on failure),
    /// the `length` bytes mapped are marked addressable.
    pub fn hook_mmap(&self, allocator: &mut Allocator, mapped: usize, length: usize)
        requires
            old(allocator).wf(),
            mapped == usize::MAX || mapped + length <= usize::MAX,
        ensures
            final(allocator).wf(),
            final(allocator).same_config(old(allocator)),
            final(allocator).allocs() == old(allocator).allocs(),
            final(allocator).queue() == old(allocator).queue(),
            mapped == usize::MAX ==> *final(allocator) == *old(allocator),
            mapped != usize::MAX && !old(allocator).pre_allocated() ==> forall|a: usize|
                old(allocator).shadow_pages_start(mapped) <= a < old(allocator).shadow_pages_end(mapped, (mapped + length) as usize)
                ==> #[trigger] final(allocator).pages().contains(a),
            mapped != usize::MAX && mapped % 8 == 0 && mapped + length <= crate::shadow::shadow_limit(old(allocator).bit()) ==> forall|i: usize|
                i < length ==> #[trigger] final(allocator).addressable((mapped + i) as usize),
            mapped != usize::MAX ==> forall|a: usize| #[trigger] final(allocator).shadow_mem().byte(a) == unpoisoned_byte(
                old(allocator).shadow_mem().byte(a),
                shadow_of(old(allocator).bit(), mapped),
                length,
                a,
            ),
    {
        if mapped != usize::MAX {
            allocator.map_shadow_for_region(mapped, mapped + length, true);
        }
    }

    /// `munmap`: once the real call returned `result` (-1 on failure), the
    /// `length` bytes unmapped are marked inaccessible.
    pub fn hook_munmap(&self, allocator: &mut Allocator, addr: usize, length: usize, result: i32)
        requires
            old(allocator).wf(),
        ensures
            final(allocator).wf(),
            final(allocator).same_config(old(allocator)),
            final(allocator).allocs() == old(allocator).allocs(),
            final(allocator).queue() == old(allocator).queue(),
            result == -1 ==> *final(allocator) == *old(allocator),
            result != -1 ==> forall|a: usize| #[trigger] final(allocator).shadow_mem().byte(a) == poisoned_byte(
                old(allocator).shadow_mem().byte(a),
                shadow_of(old(allocator).bit(), addr),
                length,
                a,
            ),
    {
        if result != -1 {
            allocator.poison_region(addr, length);
        }
    }
}

} // verus!
