use frida_asan::allocator::{select_shadow_bit, Allocator};
use frida_asan::errors::AsanError;
use frida_asan::hooks::{calloc_size, ArgCheck, CallArgs, LibcFunction, Measure};
use frida_asan::runtime::{fault_offset, stack_bounds, AsanOptions, AsanRuntime};
use frida_asan::shadow::{shadow_address, ShadowWrite};
use frida_asan::trap::{begins_with, is_write_access, text_equals, DecodedInsn, RegisterIds};

const PAGE: usize = 4096;
const BIT: usize = 46;
const BASE: usize = 0x10_0000;

fn options() -> AsanOptions {
    AsanOptions { enable_asan_allocation_backtraces: false, asan_continue_after_error: true }
}

fn setup() -> (AsanRuntime, Allocator) {
    let rt = AsanRuntime::new(options());
    let alloc = rt.new_allocator(PAGE, BIT, true);
    (rt, alloc)
}

fn malloc(alloc: &mut Allocator, size: usize, base: usize) -> usize {
    alloc.allocate(size, 8, Some(base))
}

fn ids() -> RegisterIds {
    RegisterIds {
        x0: 218,
        x28: 246,
        x29: 2,
        x30: 3,
        sp: 5,
        wsp: 7,
        xzr: 9,
        wzr: 8,
        w0: 187,
        w30: 217,
        s0: 155,
        s31: 186,
    }
}

fn insn(mnemonic: &str, op_str: &str, base: u16, index: u16, disp: i32) -> DecodedInsn {
    DecodedInsn {
        address: 0x40_0000,
        mnemonic: mnemonic.to_string(),
        op_str: op_str.to_string(),
        base,
        index,
        disp,
    }
}

fn trap_on(rt: &mut AsanRuntime, alloc: &Allocator, x0: usize, mnemonic: &str, disp: i32) {
    let mut regs = [0usize; 32];
    regs[0] = x0;
    regs[31] = 0x40_0000;
    let insns = vec![insn(mnemonic, "w1, [x0, #16]", 218, 0, disp)];
    rt.handle_trap(alloc, regs, &insns, &ids(), 0x7fff_0000, 0x7fff_8000);
}

#[test]
fn out_of_bounds_write_past_sixteen_bytes() {
    let (mut rt, mut alloc) = setup();
    let p = malloc(&mut alloc, 16, BASE);
    assert_eq!(p, BASE + PAGE);
    assert!(!alloc.is_addressable(p + 16));
    trap_on(&mut rt, &alloc, p, "strb", 16);
    let errors = rt.errors().as_slice();
    assert_eq!(errors.len(), 1);
    match &errors[0] {
        AsanError::OobWrite(e) => {
            assert_eq!(e.fault.3, p + 16);
            assert_eq!(e.metadata.address, p);
            assert_eq!(fault_offset(e.fault.3, e.metadata.address), 16);
        }
        other => panic!("unexpected error {:?}", other),
    }
}

#[test]
fn read_after_free_is_reported() {
    let (mut rt, mut alloc) = setup();
    let p = malloc(&mut alloc, 16, BASE);
    rt.hook_free(&mut alloc, p);
    assert!(rt.errors().is_empty());
    assert!(!alloc.is_addressable(p));
    trap_on(&mut rt, &alloc, p, "ldrb", 0);
    let errors = rt.errors().as_slice();
    assert_eq!(errors.len(), 1);
    assert!(matches!(&errors[0], AsanError::ReadAfterFree(e) if e.metadata.freed && e.fault.3 == p));
}

#[test]
fn double_free_is_reported_once() {
    let (mut rt, mut alloc) = setup();
    let p = malloc(&mut alloc, 16, BASE);
    rt.hook_free(&mut alloc, p);
    rt.hook_free(&mut alloc, p);
    let errors = rt.errors().as_slice();
    assert_eq!(errors.len(), 1);
    assert!(matches!(&errors[0], AsanError::DoubleFree((a, m, _)) if *a == p && m.address == p && m.freed));
}

#[test]
fn free_of_unallocated_pointer() {
    let (mut rt, mut alloc) = setup();
    rt.hook_free(&mut alloc, 0xdead0000);
    let errors = rt.errors().as_slice();
    assert_eq!(errors.len(), 1);
    assert!(matches!(&errors[0], AsanError::UnallocatedFree((a, _)) if *a == 0xdead0000));
    assert_eq!(errors[0].description(), "unallocated-free");
}

#[test]
fn free_of_null_does_nothing() {
    let (mut rt, mut alloc) = setup();
    rt.hook_free(&mut alloc, 0);
    assert!(rt.errors().is_empty());
}

#[test]
fn memcpy_past_an_eight_byte_buffer() {
    let (mut rt, mut alloc) = setup();
    let buf = malloc(&mut alloc, 8, BASE);
    let src = 0x20_0000;
    rt.unpoison(&mut alloc, src, 9);
    let call = CallArgs { args: [buf, src, 9, 0], lens: [0, 0] };
    rt.validate_call(&alloc, LibcFunction::Memcpy, &call);
    let errors = rt.errors().as_slice();
    assert_eq!(errors.len(), 1);
    match &errors[0] {
        AsanError::BadFuncArgWrite((name, ptr, len, _)) => {
            assert_eq!(name, "memcpy");
            assert_eq!(*ptr, buf);
            assert_eq!(*len, 9);
        }
        other => panic!("unexpected error {:?}", other),
    }
}

#[test]
fn zero_sized_malloc() {
    let (mut rt, mut alloc) = setup();
    let p = malloc(&mut alloc, 0, BASE);
    assert_ne!(p, 0);
    assert_eq!(alloc.get_usable_size(p), 16);
    assert!(alloc.get(p).unwrap().is_malloc_zero);
    assert!(alloc.check_range(p, 16));
    assert!(!alloc.is_addressable(p + 16));
    rt.hook_free(&mut alloc, p);
    assert!(rt.errors().is_empty());
    trap_on(&mut rt, &alloc, p, "ldr", 0);
    assert_eq!(rt.errors().len(), 1);
    assert!(matches!(&rt.errors().as_slice()[0], AsanError::ReadAfterFree(e) if e.metadata.is_malloc_zero));
}

#[test]
fn leaks_after_reset_and_no_frees() {
    let (mut rt, mut alloc) = setup();
    rt.reset_allocations(&mut alloc);
    let p = malloc(&mut alloc, 32, BASE);
    let q = malloc(&mut alloc, 64, BASE + 0x10_0000);
    rt.check_for_leaks(&alloc);
    let errors = rt.errors().as_slice();
    assert_eq!(errors.len(), 2);
    let mut leaked: Vec<usize> = errors
        .iter()
        .map(|e| match e {
            AsanError::Leak((a, m)) => {
                assert_eq!(*a, m.address);
                *a
            }
            other => panic!("unexpected error {:?}", other),
        })
        .collect();
    leaked.sort();
    assert_eq!(leaked, vec![p, q]);
}

#[test]
fn freed_allocations_do_not_leak() {
    let (mut rt, mut alloc) = setup();
    let p = malloc(&mut alloc, 32, BASE);
    let q = malloc(&mut alloc, 32, BASE + 0x10_0000);
    rt.hook_free(&mut alloc, p);
    rt.check_for_leaks(&alloc);
    let errors = rt.errors().as_slice();
    assert_eq!(errors.len(), 1);
    assert!(matches!(&errors[0], AsanError::Leak((a, _)) if *a == q));
}

#[test]
fn allocation_bytes_are_addressable_and_guards_are_not() {
    let (_rt, mut alloc) = setup();
    let p = malloc(&mut alloc, 20, BASE);
    assert!(alloc.check_range(p, 20));
    assert!(!alloc.is_addressable(p + 20));
    assert!(!alloc.is_addressable(p - 1));
    assert!(!alloc.is_addressable(BASE));
    let m = alloc.get(p).unwrap();
    assert_eq!(m.actual_size, 3 * PAGE);
    assert_eq!(m.size, 20);
    assert!(!m.freed);
}

#[test]
fn freed_allocation_is_poisoned_and_marked() {
    let (mut rt, mut alloc) = setup();
    let p = malloc(&mut alloc, 20, BASE);
    rt.hook_free(&mut alloc, p);
    for i in 0..20 {
        assert!(!alloc.is_addressable(p + i));
    }
    assert!(alloc.get(p).unwrap().freed);
}

#[test]
fn shadow_of_a_byte_is_that_of_its_group() {
    for x in [0x1234_5678usize, 0x7fff_ffff_fff7, 8, 15, 0] {
        assert_eq!(shadow_address(BIT, x), shadow_address(BIT, x - (x & 7)));
    }
    assert_eq!(shadow_address(BIT, 0), 1 << 46);
    assert_eq!(shadow_address(BIT, 0x100), (1 << 46) + 0x20);
    assert_eq!(shadow_address(36, 0x1000), (1 << 36) + 0x200);
}

#[test]
fn reuse_after_reset_serves_the_same_mapping() {
    let (mut rt, mut alloc) = setup();
    let p = malloc(&mut alloc, 100, BASE);
    let actual = alloc.get(p).unwrap().actual_size;
    rt.reset_allocations(&mut alloc);
    assert!(alloc.get(p).is_none());
    let q = alloc.allocate(50, 8, None);
    assert_eq!(q, p);
    let m = alloc.get(q).unwrap();
    assert_eq!(m.actual_size, actual);
    assert_eq!(m.size, 50);
    assert!(!m.freed);
    assert!(alloc.check_range(q, 50));
    assert!(!alloc.is_addressable(q + 50));
}

#[test]
fn reuse_walks_doubling_sizes() {
    let (mut rt, mut alloc) = setup();
    let big = malloc(&mut alloc, 4 * PAGE, BASE);
    assert_eq!(alloc.get(big).unwrap().actual_size, 6 * PAGE);
    rt.reset_allocations(&mut alloc);
    // A one-page request maps three pages; the walk tries 3 then 6 pages.
    let q = alloc.allocate(PAGE, 8, None);
    assert_eq!(q, big);
    assert_eq!(alloc.get(q).unwrap().actual_size, 6 * PAGE);
}

#[test]
fn no_reuse_and_no_mapping_gives_null() {
    let (_rt, mut alloc) = setup();
    assert_eq!(alloc.allocate(16, 8, None), 0);
}

#[test]
fn memset_with_one_poisoned_byte_reports_once() {
    let (mut rt, mut alloc) = setup();
    let p = malloc(&mut alloc, 24, BASE);
    let call = CallArgs { args: [p, 0, 25, 0], lens: [0, 0] };
    rt.validate_call(&alloc, LibcFunction::Memset, &call);
    assert_eq!(rt.errors().len(), 1);
    let ok = CallArgs { args: [p, 0, 24, 0], lens: [0, 0] };
    rt.validate_call(&alloc, LibcFunction::Memset, &ok);
    assert_eq!(rt.errors().len(), 1);
    assert!(matches!(&rt.errors().as_slice()[0], AsanError::BadFuncArgWrite((n, a, l, _)) if n == "memset" && *a == p && *l == 25));
}

#[test]
fn memcmp_reports_each_bad_argument() {
    let (mut rt, mut alloc) = setup();
    let call = CallArgs { args: [0x30_0000, 0x40_0000, 4, 0], lens: [0, 0] };
    rt.validate_call(&alloc, LibcFunction::Memcmp, &call);
    let errors = rt.errors().as_slice();
    assert_eq!(errors.len(), 2);
    assert!(matches!(&errors[0], AsanError::BadFuncArgRead((n, a, 4, _)) if n == "memcmp" && *a == 0x30_0000));
    assert!(matches!(&errors[1], AsanError::BadFuncArgRead((n, a, 4, _)) if n == "memcmp" && *a == 0x40_0000));
    let _ = &mut alloc;
}

#[test]
fn string_routines_use_measured_lengths() {
    assert_eq!(LibcFunction::Strcpy.measures(), vec![Measure::Str(1)]);
    assert_eq!(LibcFunction::Strnlen.measures(), vec![Measure::StrN(0, 1)]);
    assert!(LibcFunction::Memcpy.measures().is_empty());
    let call = CallArgs { args: [0x1000, 0x2000, 0, 0], lens: [5, 0] };
    assert_eq!(
        LibcFunction::Strcpy.checks(&call),
        vec![
            ArgCheck { ptr: 0x1000, len: 5, write: true },
            ArgCheck { ptr: 0x2000, len: 5, write: false }
        ]
    );
    assert_eq!(
        LibcFunction::Wcscpy.checks(&call),
        vec![
            ArgCheck { ptr: 0x1000, len: 12, write: true },
            ArgCheck { ptr: 0x2000, len: 12, write: false }
        ]
    );
    let io = CallArgs { args: [3, 0x5000, 7, 0], lens: [0, 0] };
    assert_eq!(LibcFunction::Write.checks(&io), vec![ArgCheck { ptr: 0x5000, len: 7, write: true }]);
    assert_eq!(LibcFunction::Read.checks(&io), vec![ArgCheck { ptr: 0x5000, len: 7, write: false }]);
    assert_eq!(LibcFunction::ExplicitBzero.name(), "explicit_bzero");
}

#[test]
fn stalked_addresses_round_trip() {
    let (mut rt, _alloc) = setup();
    assert_eq!(rt.real_address_for_stalked(0x9000), None);
    rt.add_stalked_address(0x9000, 0x1234);
    assert_eq!(rt.real_address_for_stalked(0x9000), Some(0x1234));
    assert_eq!(rt.real_pc(0x9000), 0x1234);
    assert_eq!(rt.real_pc(0x9004), 0x9004);
    rt.add_stalked_address(0x9000, 0x5678);
    assert_eq!(rt.real_address_for_stalked(0x9000), Some(0x5678));
}

#[test]
fn stack_accesses_are_stack_errors() {
    let (mut rt, alloc) = setup();
    trap_on(&mut rt, &alloc, 0x7fff_1000, "str", 8);
    trap_on(&mut rt, &alloc, 0x7fff_1000, "ldp", 8);
    let errors = rt.errors().as_slice();
    assert!(matches!(&errors[0], AsanError::StackOobWrite((_, _, f, _)) if f.3 == 0x7fff_1008));
    assert!(matches!(&errors[1], AsanError::StackOobRead(_)));
}

#[test]
fn access_with_no_allocation_is_unknown() {
    let (mut rt, alloc) = setup();
    trap_on(&mut rt, &alloc, 0x55_0000, "ldr", 0);
    assert!(matches!(&rt.errors().as_slice()[0], AsanError::Unknown((_, pc, f, _)) if *pc == 0x40_0000 && f.0 == 0 && f.1 == 0xffff));
}

#[test]
fn flag_save_moves_to_the_third_instruction() {
    let (mut rt, mut alloc) = setup();
    let p = malloc(&mut alloc, 16, BASE);
    let mut regs = [0usize; 32];
    regs[3] = p;
    regs[4] = 20;
    regs[31] = 0x9000;
    rt.add_stalked_address(0x9000, 0x40_0000);
    let mut third = insn("ldrb", "w0, [x3, x4]", 221, 222, 0);
    third.address = 0x40_0008;
    let insns = vec![insn("msr", "nzcv, x0", 0, 0, 0), insn("nop", "", 0, 0, 0), third];
    rt.handle_trap(&alloc, regs, &insns, &ids(), 0, 0);
    match &rt.errors().as_slice()[0] {
        AsanError::OobRead(e) => {
            assert_eq!(e.pc, 0x40_0008);
            assert_eq!(e.fault, (3, 4, 0, p + 20));
        }
        other => panic!("unexpected error {:?}", other),
    }
}

#[test]
fn register_numbers_are_normalized() {
    let ids = ids();
    assert_eq!(ids.normalize(218), 0);
    assert_eq!(ids.normalize(246), 28);
    assert_eq!(ids.normalize(2), 29);
    assert_eq!(ids.normalize(3), 30);
    assert_eq!(ids.normalize(5), 31);
    assert_eq!(ids.normalize(9), 31);
    assert_eq!(ids.normalize(190), 3);
    assert_eq!(ids.normalize(160), 5);
    assert_eq!(ids.normalize(300), 300);
}

#[test]
fn write_accesses_are_recognized() {
    assert!(is_write_access("str"));
    assert!(is_write_access("stp"));
    assert!(is_write_access("swpal"));
    assert!(is_write_access("casa"));
    assert!(!is_write_access("ldr"));
    assert!(!is_write_access("prfm"));
    assert!(!is_write_access("s"));
    assert!(text_equals("nzcv, x0", "nzcv, x0"));
    assert!(!text_equals("nzcv, x1", "nzcv, x0"));
    assert!(begins_with("ldrb", "ld"));
    assert!(!begins_with("l", "ld"));
}

#[test]
fn nearest_allocation_prefers_the_hint_on_ties() {
    let (_rt, mut alloc) = setup();
    let a = malloc(&mut alloc, 16, BASE);
    let b = malloc(&mut alloc, 16, BASE + 2 * 3 * PAGE);
    let mid = (a + b) / 2;
    assert_eq!(alloc.find_metadata(mid, b).unwrap().address, b);
    assert_eq!(alloc.find_metadata(mid, 0).unwrap().address, a);
    assert_eq!(alloc.find_metadata(b + 40, 0).unwrap().address, b);
    assert_eq!(alloc.find_metadata(a - 1, 0).unwrap().address, a);
}

#[test]
fn shadow_writes_follow_each_poisoning() {
    let (mut rt, mut alloc) = setup();
    let p = malloc(&mut alloc, 20, BASE);
    let s = shadow_address(BIT, p);
    assert_eq!(
        alloc.take_shadow_writes(),
        vec![ShadowWrite { start: s, count: 2, value: 0xff }, ShadowWrite { start: s + 2, count: 1, value: 0xf0 }]
    );
    rt.hook_free(&mut alloc, p);
    assert_eq!(
        alloc.take_shadow_writes(),
        vec![ShadowWrite { start: s, count: 2, value: 0 }, ShadowWrite { start: s + 2, count: 1, value: 0 }]
    );
    assert!(alloc.take_shadow_writes().is_empty());
}

#[test]
fn shadow_pages_are_requested_once() {
    let rt = AsanRuntime::new(options());
    let mut alloc = rt.new_allocator(PAGE, BIT, false);
    let p = alloc.allocate(16, 8, Some(BASE));
    assert_ne!(p, 0);
    let first = alloc.take_page_requests();
    assert!(!first.is_empty());
    let shadow_page = (shadow_address(BIT, BASE) / PAGE) * PAGE;
    assert!(first.iter().any(|&(s, e)| s <= shadow_page && shadow_page < e));
    let q = alloc.allocate(16, 8, Some(BASE + 3 * PAGE));
    assert_ne!(q, 0);
    assert!(alloc.take_page_requests().is_empty());
}

#[test]
fn realloc_copies_the_smaller_size() {
    let (mut rt, mut alloc) = setup();
    let p = malloc(&mut alloc, 100, BASE);
    let (q, copy) = rt.hook_realloc(&mut alloc, p, 40, Some(BASE + 0x10_0000));
    assert_ne!(q, 0);
    assert_ne!(q, p);
    assert_eq!(copy, 40);
    assert!(alloc.get(p).unwrap().freed);
    assert_eq!(alloc.get_usable_size(q), 40);
    let (r, copy) = rt.hook_realloc(&mut alloc, 0, 10, Some(BASE + 0x20_0000));
    assert_ne!(r, 0);
    assert_eq!(copy, 0);
    assert!(rt.errors().is_empty());
}

#[test]
fn mmap_and_munmap_track_the_region() {
    let (rt, mut alloc) = setup();
    rt.hook_mmap(&mut alloc, 0x80_0000, 64);
    assert!(alloc.check_range(0x80_0000, 64));
    rt.hook_munmap(&mut alloc, 0x80_0000, 64, 0);
    assert!(!alloc.is_addressable(0x80_0000));
    rt.hook_mmap(&mut alloc, usize::MAX, 64);
    rt.hook_munmap(&mut alloc, 0x90_0000, 64, -1);
}

#[test]
fn instrumented_modules_gate_the_hooks() {
    let (mut rt, _alloc) = setup();
    rt.add_instrumented_module(0x40_0000, 0x41_0000, "/bin/target".to_string());
    assert!(rt.is_instrumented(0x40_1234));
    assert!(!rt.is_instrumented(0x41_0000));
    assert_eq!(rt.module_offset(0x40_1234), Some(("/bin/target".to_string(), 0x1234)));
    assert_eq!(rt.module_offset(0x10), None);
}

#[test]
fn stack_bounds_reach_the_limit() {
    assert_eq!(stack_bounds(0x7000, 0x8000, 0x4000), (0x4000, 0x8000, Some((0x4000, 0x7000))));
    assert_eq!(stack_bounds(0x7000, 0x8000, 0x1000), (0x7000, 0x8000, None));
    assert_eq!(stack_bounds(0x7000, 0x8000, usize::MAX), (0, 0x8000, Some((0, 0x7000))));
}

#[test]
fn fault_offsets_are_signed() {
    assert_eq!(fault_offset(0x1010, 0x1000), 16);
    assert_eq!(fault_offset(0x0ff8, 0x1000), -8);
}

#[test]
fn errors_clear_between_runs() {
    let (mut rt, mut alloc) = setup();
    rt.hook_free(&mut alloc, 0x1234);
    assert_eq!(rt.errors().len(), 1);
    rt.clear_errors();
    assert!(rt.errors().is_empty());
}

#[test]
fn existing_mappings_are_shadowed_by_permission() {
    let (_rt, mut alloc) = setup();
    assert!(alloc.unpoison_existing_mapping(0x60_0000, 0x60_1000, "r-xp"));
    assert!(alloc.check_range(0x60_0000, 0x1000));
    assert!(alloc.unpoison_existing_mapping(0x61_0000, 0x61_1000, "-w-p"));
    assert!(!alloc.unpoison_existing_mapping(0x62_0000, 0x62_1000, "---p"));
    assert!(!alloc.is_addressable(0x62_0000));
    assert!(!alloc.unpoison_existing_mapping(1 << 46, (1 << 46) + 0x1000, "rw-p"));
}

#[test]
fn shadow_bit_follows_the_probes() {
    assert_eq!(select_shadow_bit(true, true), Some(46));
    assert_eq!(select_shadow_bit(false, true), Some(36));
    assert_eq!(select_shadow_bit(false, false), None);
}

#[test]
fn calloc_size_detects_overflow() {
    assert_eq!(calloc_size(4, 8), Some(32));
    assert_eq!(calloc_size(usize::MAX, 2), None);
    assert_eq!(calloc_size(0, usize::MAX), Some(0));
}

#[test]
fn served_addresses_are_known() {
    let (_rt, mut alloc) = setup();
    let p = malloc(&mut alloc, 16, BASE);
    assert!(alloc.is_known(p));
    assert!(!alloc.is_known(BASE));
}

#[test]
fn realloc_without_memory_keeps_the_block() {
    let (mut rt, mut alloc) = setup();
    let p = malloc(&mut alloc, 16, BASE);
    let (q, copy) = rt.hook_realloc(&mut alloc, p, 32, None);
    assert_eq!((q, copy), (0, 0));
    assert!(!alloc.get(p).unwrap().freed);
}

#[test]
fn fresh_regions_do_not_overlap_served_mappings() {
    let (_rt, mut alloc) = setup();
    let p = malloc(&mut alloc, 16, BASE);
    assert!(!alloc.region_is_fresh(p, 3 * PAGE));
    assert!(!alloc.region_is_fresh(BASE, 2 * PAGE));
    assert!(alloc.region_is_fresh(BASE + 4 * PAGE, 3 * PAGE));
    assert!(alloc.region_is_fresh(0x1000, 3 * PAGE));
}

#[test]
fn exact_check_masks_cover_every_byte() {
    use_mask(3, 0b111);
    use_mask(6, 0x3f);
    use_mask(12, 0xfff);
    use_mask(64, u64::MAX);
}

fn use_mask(size: u32, expected: u64) {
    assert_eq!(frida_asan::runtime::exact_check_mask(size), expected);
}

#[test]
fn new_allocator_has_nothing_backed_or_known() {
    let rt = AsanRuntime::new(options());
    let alloc = rt.new_allocator(PAGE, BIT, false);
    assert!(alloc.region_is_fresh(BASE, 3 * PAGE));
    assert!(!alloc.is_known(BASE + PAGE));
}
