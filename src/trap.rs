//! The fault handler: what the instruction at an instrumented access that
//! failed its shadow check did, where it went, and which error that is.
use vstd::prelude::*;
use vstd::string::StrSliceExecFns;

use crate::allocator::{closer, Allocator};
use crate::collections::capture_backtrace;
use crate::errors::{AsanError, AsanReadWriteError};
use crate::runtime::AsanRuntime;

verus! {

/// The disassembler's numbers for the AArch64 registers the handler tells
/// apart. Within each of the X, W and S files the numbers are consecutive.
#[derive(Clone, Copy, Debug)]
pub struct RegisterIds {
    pub x0: u16,
    pub x28: u16,
    pub x29: u16,
    pub x30: u16,
    pub sp: u16,
    pub wsp: u16,
    pub xzr: u16,
    pub wzr: u16,
    pub w0: u16,
    pub w30: u16,
    pub s0: u16,
    pub s31: u16,
}

impl RegisterIds {
    pub open spec fn wf(&self) -> bool {
        &&& self.x28 == self.x0 + 28
        &&& self.w30 == self.w0 + 30
        &&& self.s31 == self.s0 + 31
    }

    /// The register file index of the disassembler's register `r`: X0 to X28
    /// and W0 to W30 and S0 to S31 by their number, X29 and X30 as 29 and
    /// 30, the stack pointer and the zero registers as 31. Any other number
    /// is kept as it is.
    pub open spec fn index_of(&self, r: u16) -> u16 {
        if self.x0 <= r <= self.x28 {
            (r - self.x0) as u16
        } else if r == self.x29 {
            29
        } else if r == self.x30 {
            30
        } else if r == self.sp || r == self.wsp || r == self.xzr || r == self.wzr {
            31
        } else if self.w0 <= r <= self.w30 {
            (r - self.w0) as u16
        } else if self.s0 <= r <= self.s31 {
            (r - self.s0) as u16
        } else {
            r
        }
    }

    /// The register file index of the disassembler's register `r`.
    pub fn normalize(&self, r: u16) -> (n: u16)
        ensures
            n == self.index_of(r),
    {
        if self.x0 <= r && r <= self.x28 {
            r - self.x0
        } else if r == self.x29 {
            29
        } else if r == self.x30 {
            30
        } else if r == self.sp || r == self.wsp || r == self.xzr || r == self.wzr {
            31
        } else if self.w0 <= r && r <= self.w30 {
            r - self.w0
        } else if self.s0 <= r && r <= self.s31 {
            r - self.s0
        } else {
            r
        }
    }
}

/// One disassembled instruction. `base` and `index` are the registers of its
/// last operand when that is a memory operand (0 for none), with `disp` its
/// displacement; all three are 0 otherwise.
#[derive(Clone, Debug)]
pub struct DecodedInsn {
    pub address: usize,
    pub mnemonic: String,
    pub op_str: String,
    pub base: u16,
    pub index: u16,
    pub disp: i32,
}

/// Whether two strings hold the same characters.
pub fn text_equals(a: &str, b: &str) -> (r: bool)
    ensures
        r == (a@ == b@),
{
    let n = a.unicode_len();
    if n != b.unicode_len() {
        return false;
    }
    let mut i: usize = 0;
    while i < n
        invariant
            n == a@.len(),
            n == b@.len(),
            i <= n,
            a@.subrange(0, i as int) == b@.subrange(0, i as int),
        decreases n - i,
    {
        if a.get_char(i) != b.get_char(i) {
            assert(a@[i as int] != b@[i as int]);
            return false;
        }
        assert(a@.subrange(0, i + 1) =~= a@.subrange(0, i as int).push(a@[i as int]));
        assert(b@.subrange(0, i + 1) =~= b@.subrange(0, i as int).push(b@[i as int]));
        i += 1;
    }
    assert(a@ =~= a@.subrange(0, n as int));
    assert(b@ =~= b@.subrange(0, n as int));
    true
}

/// Whether `s` begins with `prefix`.
pub fn begins_with(s: &str, prefix: &str) -> (r: bool)
    ensures
        r == (prefix@.len() <= s@.len() && s@.subrange(0, prefix@.len() as int) == prefix@),
{
    let n = prefix.unicode_len();
    if n > s.unicode_len() {
        return false;
    }
    let mut i: usize = 0;
    while i < n
        invariant
            n == prefix@.len(),
            n <= s@.len(),
            i <= n,
            s@.subrange(0, i as int) == prefix@.subrange(0, i as int),
        decreases n - i,
    {
        if s.get_char(i) != prefix.get_char(i) {
            assert(s@.subrange(0, n as int)[i as int] != prefix@[i as int]);
            return false;
        }
        assert(s@.subrange(0, i + 1) =~= s@.subrange(0, i as int).push(s@[i as int]));
        assert(prefix@.subrange(0, i + 1) =~= prefix@.subrange(0, i as int).push(prefix@[i as int]));
        i += 1;
    }
    assert(prefix@ =~= prefix@.subrange(0, n as int));
    true
}

/// The instrumentation engine saves the flags with `msr nzcv, x0` ahead of
/// an instrumented access; the access is then the third instruction.
pub open spec fn is_flag_save(insn: DecodedInsn) -> bool {
    insn.mnemonic@ == "msr"@ && insn.op_str@ == "nzcv, x0"@
}

/// The faulting instruction among the three disassembled at the fault.
pub open spec fn faulting(insns: Seq<DecodedInsn>) -> DecodedInsn {
    if is_flag_save(insns[0]) {
        insns[2]
    } else {
        insns[0]
    }
}

/// An access writes when its mnemonic is a store (`st...`), a swap
/// (`swp...`) or a compare-and-swap (`cas...`); loads (`ld...`) and
/// prefetches (`prfm`) read.
pub open spec fn writes(mnemonic: Seq<char>) -> bool {
    (mnemonic.len() >= 2 && mnemonic.subrange(0, 2) == "st"@) || (mnemonic.len() >= 3 && (mnemonic.subrange(0, 3)
        == "swp"@ || mnemonic.subrange(0, 3) == "cas"@))
}

/// Whether the access with this mnemonic writes.
pub fn is_write_access(mnemonic: &str) -> (r: bool)
    ensures
        r == writes(mnemonic@),
{
    let st = begins_with(mnemonic, "st");
    let swp = begins_with(mnemonic, "swp");
    let cas = begins_with(mnemonic, "cas");
    proof {
        reveal_strlit("st");
        reveal_strlit("swp");
        reveal_strlit("cas");
    }
    st || swp || cas
}

/// The value of register file entry `n`; entries past the general-purpose
/// registers read as zero.
pub open spec fn reg_value(regs: [usize; 32], n: u16) -> usize {
    if n < 32 {
        regs[n as int]
    } else {
        0
    }
}

/// The address an access went to: base register plus displacement, plus
/// the index register if there is one (0xffff when there is none),
/// wrapping around the address space.
pub open spec fn fault_address_of(regs: [usize; 32], base: u16, index: u16, disp: i32) -> usize {
    let a = reg_value(regs, base).wrapping_add_signed(disp as isize);
    if index == 0xffff {
        a
    } else {
        a.wrapping_add(reg_value(regs, index))
    }
}

/// The registers, program counter and decoded operand of a fault.
pub open spec fn fault_fields(e: ([usize; 32], usize, (u16, u16, usize, usize)), regs: [usize; 32], pc: usize, f: (u16, u16, usize, usize)) -> bool {
    e.0 == regs && e.1 == pc && e.2 == f
}

/// `e` is the error for an access by `insn` at `pc` to `fault`, given the
/// stack bounds and the allocations.
pub open spec fn classified(e: AsanError, allocator: Allocator, regs: [usize; 32], pc: usize, f: (u16, u16, usize, usize), write: bool, stack_start: usize, stack_end: usize) -> bool {
    let fault = f.3;
    if stack_start <= fault < stack_end {
        if write {
            e matches AsanError::StackOobWrite((r, p, x, _)) && fault_fields((r, p, x), regs, pc, f)
        } else {
            e matches AsanError::StackOobRead((r, p, x, _)) && fault_fields((r, p, x), regs, pc, f)
        }
    } else if allocator.allocs().dom() == Set::<usize>::empty() {
        e matches AsanError::Unknown((r, p, x, _)) && fault_fields((r, p, x), regs, pc, f)
    } else {
        let hint = reg_value(regs, f.0);
        match e {
            AsanError::OobRead(rw) | AsanError::OobWrite(rw) | AsanError::ReadAfterFree(rw) | AsanError::WriteAfterFree(rw) => {
                &&& rw.registers == regs
                &&& rw.pc == pc
                &&& rw.fault == f
                &&& allocator.allocs().contains_key(rw.metadata.address)
                &&& rw.metadata.same_record(&allocator.allocs()[rw.metadata.address])
                &&& forall|k: usize| #[trigger] allocator.allocs().contains_key(k) ==> !closer(fault, hint, k, rw.metadata.address)
                &&& (e is OobRead) == (!write && !rw.metadata.freed)
                &&& (e is OobWrite) == (write && !rw.metadata.freed)
                &&& (e is ReadAfterFree) == (!write && rw.metadata.freed)
                &&& (e is WriteAfterFree) == (write && rw.metadata.freed)
            },
            _ => false,
        }
    }
}

impl AsanRuntime {
    /// Handles an access that failed its shadow check. `regs` holds x0 to
    /// x30 and, last, the instrumented program counter; `insns` are the
    /// instructions disassembled at the target address that counter stands
    /// for (`real_pc`); `stack_start..stack_end` is the current thread's
    /// stack. The access is decoded and its error recorded: an access into
    /// the stack is a stack overflow; otherwise it is attributed to the
    /// nearest allocation, a use after free if that was freed and an
    /// overflow if not; with no allocation at all it is unknown.
    pub fn handle_trap(
        &mut self,
        allocator: &Allocator,
        regs: [usize; 32],
        insns: &Vec<DecodedInsn>,
        ids: &RegisterIds,
        stack_start: usize,
        stack_end: usize,
    )
        requires
            allocator.wf(),
            insns@.len() >= 1,
            is_flag_save(insns@[0]) ==> insns@.len() >= 3,
        ensures
            final(self).log().len() == old(self).log().len() + 1,
            final(self).log().drop_last() == old(self).log(),
            ({
                let insn = faulting(insns@);
                let pc = if is_flag_save(insns@[0]) {
                    insn.address
                } else {
                    old(self).real_address(regs[31])
                };
                let base = ids.index_of(insn.base);
                let index = if insn.index == 0 {
                    0xffffu16
                } else {
                    ids.index_of(insn.index)
                };
                let fault = fault_address_of(regs, base, index, insn.disp);
                classified(
                    final(self).log().last(),
                    *allocator,
                    regs,
                    pc,
                    (base, index, insn.disp as usize, fault),
                    writes(insn.mnemonic@),
                    stack_start,
                    stack_end,
                )
            }),
            final(self).stalked() == old(self).stalked(),
            final(self).modules() == old(self).modules(),
            final(self).opts() == old(self).opts(),
            final(self).has_blobs() == old(self).has_blobs(),
    {
        let mut pc = self.real_pc(regs[31]);
        let msr = text_equals(insns[0].mnemonic.as_str(), "msr");
        let nzcv = text_equals(insns[0].op_str.as_str(), "nzcv, x0");
        let flag_save = msr && nzcv;
        let insn = if flag_save {
            &insns[2]
        } else {
            &insns[0]
        };
        if flag_save {
            pc = insn.address;
        }
        let base = ids.normalize(insn.base);
        let index = if insn.index == 0 {
            0xffffu16
        } else {
            ids.normalize(insn.index)
        };
        let base_value = if base < 32 {
            regs[base as usize]
        } else {
            0
        };
        let mut fault = base_value.wrapping_add_signed(insn.disp as isize);
        if index != 0xffff {
            let index_value = if index < 32 {
                regs[index as usize]
            } else {
                0
            };
            fault = fault.wrapping_add(index_value);
        }
        let write = is_write_access(insn.mnemonic.as_str());
        let f = (base, index, insn.disp as usize, fault);
        let backtrace = capture_backtrace();
        let error = if stack_start <= fault && fault < stack_end {
            if write {
                AsanError::StackOobWrite((regs, pc, f, backtrace))
            } else {
                AsanError::StackOobRead((regs, pc, f, backtrace))
            }
        } else {
            match allocator.find_metadata(fault, base_value) {
                Some(m) => {
                    let freed = m.freed;
                    let rw = AsanReadWriteError { registers: regs, pc, fault: f, metadata: m.snapshot(), backtrace };
                    if write {
                        if freed {
                            AsanError::WriteAfterFree(rw)
                        } else {
                            AsanError::OobWrite(rw)
                        }
                    } else if freed {
                        AsanError::ReadAfterFree(rw)
                    } else {
                        AsanError::OobRead(rw)
                    }
                },
                None => AsanError::Unknown((regs, pc, f, backtrace)),
            }
        };
        proof {
            reveal_strlit("msr");
            reveal_strlit("nzcv, x0");
        }
        self.report_error(error);
        assert(self.log().drop_last() =~= old(self).log());
    }
}

} // verus!
