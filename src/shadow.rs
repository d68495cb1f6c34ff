//! The shadow mapping: one shadow byte describes eight bytes of target
//! memory, one bit per byte, the most significant bit for the lowest byte.
use vstd::prelude::*;

use crate::collections::{shadow_bytes_fill, shadow_bytes_get, shadow_bytes_new, shadow_bytes_of, ShadowBytes};

verus! {

/// The shadow address of `addr` for a shadow region based at `1 << shadow_bit`.
pub open spec fn shadow_of(shadow_bit: usize, addr: usize) -> usize {
    ((((addr >> 3usize) + (1usize << shadow_bit)) as usize) & (((1usize << (shadow_bit + 1) as usize) - 1) as usize)) as usize
}

/// The bit of a shadow byte that stands for the byte at `addr`.
pub open spec fn shadow_mask_of(addr: usize) -> u8 {
    (0x80u8 >> ((addr & 7) as u8)) as u8
}

/// The byte that marks the first `rem` bytes of an eight-byte group addressable.
pub open spec fn partial_byte(rem: usize) -> u8 {
    ((0xffusize << ((8 - rem) as usize)) & 0xff) as u8
}

/// Addresses below this bound have shadow addresses that grow with them:
/// the shadow region's mask cuts nothing off.
pub open spec fn shadow_limit(shadow_bit: usize) -> usize {
    (1usize << (shadow_bit + 3) as usize) as usize
}

/// Computes the shadow address of `addr`.
pub fn shadow_address(shadow_bit: usize, addr: usize) -> (r: usize)
    requires
        shadow_bit + 4 < usize::BITS,
    ensures
        r == shadow_of(shadow_bit, addr),
{
    assert(addr >> 3usize == addr / 8) by (bit_vector);
    assert((1usize << shadow_bit) * 16 == 1usize << (shadow_bit + 4) as usize) by (bit_vector)
        requires
            shadow_bit + 4 < usize::BITS,
    ;
    assert(1usize << (shadow_bit + 1) as usize >= 1) by (bit_vector)
        requires
            shadow_bit + 4 < usize::BITS,
    ;
    assert((1usize << (shadow_bit + 4) as usize) <= usize::MAX);
    ((addr >> 3) + (1usize << shadow_bit)) & ((1usize << (shadow_bit + 1)) - 1)
}

/// All eight bytes of a group share one shadow byte: the shadow address of
/// `x` is that of the first byte of its group.
pub proof fn lemma_shadow_of_group(shadow_bit: usize, x: usize)
    requires
        shadow_bit + 4 < usize::BITS,
    ensures
        shadow_of(shadow_bit, x) == shadow_of(shadow_bit, (x - (x & 7)) as usize),
        (x & 7) <= x,
{
    assert((x & 7) <= x) by (bit_vector);
    assert(((x - (x & 7)) as usize) >> 3usize == x >> 3usize) by (bit_vector);
}

/// Shadow addresses stay far enough below the top of the address space
/// that a shadow range of any allocation's length fits after them.
pub proof fn lemma_shadow_bound(shadow_bit: usize, a: usize)
    requires
        shadow_bit + 4 < usize::BITS,
    ensures
        (shadow_of(shadow_bit, a) as int) * 8 < (1usize << (shadow_bit + 4) as usize) as int,
{
    assert(((((((a >> 3usize) + (1usize << shadow_bit)) as usize) & (((1usize << (shadow_bit + 1) as usize) - 1) as usize)) as usize) as int) * 8 < (1usize << (shadow_bit + 4) as usize) as int) by (bit_vector)
        requires
            shadow_bit + 4 < usize::BITS,
    ;
}

/// Below the shadow limit each byte has its own shadow bit: two different
/// addresses differ in their shadow address or in their bit.
pub proof fn lemma_one_bit_per_byte(shadow_bit: usize, x: usize, y: usize)
    requires
        shadow_bit + 4 < usize::BITS,
        x < shadow_limit(shadow_bit),
        y < shadow_limit(shadow_bit),
        x != y,
    ensures
        shadow_of(shadow_bit, x) != shadow_of(shadow_bit, y) || shadow_mask_of(x) != shadow_mask_of(y),
{
    assert(((((x >> 3usize) + (1usize << shadow_bit)) as usize) & (((1usize << (shadow_bit + 1) as usize) - 1) as usize)) != ((((y >> 3usize) + (1usize << shadow_bit)) as usize) & (((1usize << (shadow_bit + 1) as usize) - 1) as usize)) || (0x80u8 >> ((x & 7) as u8)) != (0x80u8 >> ((y & 7) as u8))) by (bit_vector)
        requires
            shadow_bit + 4 < usize::BITS,
            x < (1usize << (shadow_bit + 3) as usize),
            y < (1usize << (shadow_bit + 3) as usize),
            x != y,
    ;
}

/// Below the shadow limit, the byte `i` bytes past an eight-aligned `p` is
/// described by the shadow byte `i / 8` past that of `p`, at bit `i % 8`.
pub proof fn lemma_shadow_offset(shadow_bit: usize, p: usize, i: usize)
    requires
        shadow_bit + 4 < usize::BITS,
        p % 8 == 0,
        p + i < shadow_limit(shadow_bit),
    ensures
        shadow_of(shadow_bit, (p + i) as usize) == shadow_of(shadow_bit, p) + i / 8,
        ((p + i) as usize) & 7 == i % 8,
{
    assert(p & 7 == 0) by (bit_vector)
        requires
            p % 8 == 0,
    ;
    let a = (p + i) as usize;
    assert(a >> 3usize == (p >> 3usize) + i / 8 && a & 7 == i % 8) by (bit_vector)
        requires
            p & 7 == 0,
            a == p + i,
    ;
    assert(((((a >> 3usize) + (1usize << shadow_bit)) as usize) & (((1usize << (shadow_bit + 1) as usize) - 1) as usize)) == (a >> 3usize) + (1usize << shadow_bit)) by (bit_vector)
        requires
            shadow_bit + 4 < usize::BITS,
            a < (1usize << (shadow_bit + 3) as usize),
    ;
    assert(((((p >> 3usize) + (1usize << shadow_bit)) as usize) & (((1usize << (shadow_bit + 1) as usize) - 1) as usize)) == (p >> 3usize) + (1usize << shadow_bit)) by (bit_vector)
        requires
            shadow_bit + 4 < usize::BITS,
            p <= a,
            a < (1usize << (shadow_bit + 3) as usize),
    ;
}

/// In a group whose first `rem` bytes are marked addressable, byte `k` is
/// addressable exactly when `k < rem`.
pub proof fn lemma_partial_byte_bit(rem: usize, k: usize)
    requires
        rem < 8,
        k < 8,
    ensures
        (partial_byte(rem) & (0x80u8 >> (k as u8))) != 0 <==> k < rem,
{
    assert(((((0xffusize << ((8 - rem) as usize)) & 0xff) as u8) & (0x80u8 >> (k as u8))) != 0 <==> k < rem) by (bit_vector)
        requires
            rem < 8,
            k < 8,
    ;
}

/// After `unpoison(shadow_of(p), size)` for an eight-aligned `p`, each of
/// the `size` bytes from `p` is addressable.
pub proof fn lemma_unpoisoned_range(shadow_bit: usize, before: ShadowMemory, after: ShadowMemory, p: usize, size: usize)
    requires
        shadow_bit + 4 < usize::BITS,
        p % 8 == 0,
        p + size <= shadow_limit(shadow_bit),
        forall|a: usize| #[trigger] after.byte(a) == unpoisoned_byte(before.byte(a), shadow_of(shadow_bit, p), size, a),
    ensures
        forall|i: usize| i < size ==> #[trigger] after.addressable(shadow_bit, (p + i) as usize),
{
    assert forall|i: usize| i < size implies #[trigger] after.addressable(shadow_bit, (p + i) as usize) by {
        lemma_shadow_offset(shadow_bit, p, i);
        let a = (p + i) as usize;
        let k = i % 8;
        assert(a & 7 == k);
        assert(k < 8);
        if i / 8 < size / 8 {
            assert(after.byte(shadow_of(shadow_bit, a)) == 0xff);
            assert((0xffu8 & (0x80u8 >> (k as u8))) != 0) by (bit_vector)
                requires
                    k < 8,
            ;
        } else {
            assert(i / 8 == size / 8 && k < size % 8) by (nonlinear_arith)
                requires
                    i < size,
                    i / 8 >= size / 8,
                    k == i % 8,
            ;
            assert(after.byte(shadow_of(shadow_bit, a)) == partial_byte(size % 8));
            lemma_partial_byte_bit(size % 8, k);
        }
    }
}

/// Below the shadow limit, the shadow address of `a` is its group number
/// past the base of the shadow region.
pub proof fn lemma_shadow_linear(shadow_bit: usize, a: usize)
    requires
        shadow_bit + 4 < usize::BITS,
        a < shadow_limit(shadow_bit),
    ensures
        shadow_of(shadow_bit, a) == a / 8 + (1usize << shadow_bit),
{
    assert(((((a >> 3usize) + (1usize << shadow_bit)) as usize) & (((1usize << (shadow_bit + 1) as usize) - 1) as usize)) == a / 8 + (1usize << shadow_bit)) by (bit_vector)
        requires
            shadow_bit + 4 < usize::BITS,
            a < (1usize << (shadow_bit + 3) as usize),
    ;
}

/// `unpoison(shadow_of(p), size)` for an eight-aligned `p` leaves alone
/// every byte before `p` and every byte from `p + size` rounded up to a
/// multiple of eight on.
pub proof fn lemma_unpoison_leaves_outside(shadow_bit: usize, before: ShadowMemory, after: ShadowMemory, p: usize, size: usize, a: usize)
    requires
        shadow_bit + 4 < usize::BITS,
        p % 8 == 0,
        p < shadow_limit(shadow_bit),
        a < shadow_limit(shadow_bit),
        a < p || a >= p + size + (if size % 8 != 0 { 8 - size % 8 } else { 0int }),
        forall|x: usize| #[trigger] after.byte(x) == unpoisoned_byte(before.byte(x), shadow_of(shadow_bit, p), size, x),
    ensures
        after.addressable(shadow_bit, a) == before.addressable(shadow_bit, a),
{
    lemma_shadow_linear(shadow_bit, a);
    lemma_shadow_linear(shadow_bit, p);
    let sa = shadow_of(shadow_bit, a);
    let sp = shadow_of(shadow_bit, p);
    if a < p {
        assert(a / 8 < p / 8);
    } else {
        assert(a / 8 >= p / 8 + size / 8 + (if size % 8 != 0 { 1int } else { 0int }));
    }
    assert(after.byte(sa) == before.byte(sa));
}

/// `poison(shadow_of(p), size)` for an eight-aligned `p` leaves alone every
/// byte before `p` and every byte from `p + size` rounded up to a multiple
/// of eight on.
pub proof fn lemma_poison_leaves_outside(shadow_bit: usize, before: ShadowMemory, after: ShadowMemory, p: usize, size: usize, a: usize)
    requires
        shadow_bit + 4 < usize::BITS,
        p % 8 == 0,
        p < shadow_limit(shadow_bit),
        a < shadow_limit(shadow_bit),
        a < p || a >= p + size + (if size % 8 != 0 { 8 - size % 8 } else { 0int }),
        forall|x: usize| #[trigger] after.byte(x) == poisoned_byte(before.byte(x), shadow_of(shadow_bit, p), size, x),
    ensures
        after.addressable(shadow_bit, a) == before.addressable(shadow_bit, a),
{
    lemma_shadow_linear(shadow_bit, a);
    lemma_shadow_linear(shadow_bit, p);
    let sa = shadow_of(shadow_bit, a);
    if a < p {
        assert(a / 8 < p / 8);
    } else {
        assert(a / 8 >= p / 8 + size / 8 + (if size % 8 != 0 { 1int } else { 0int }));
    }
    assert(after.byte(sa) == before.byte(sa));
}

/// After `poison(shadow_of(p), size)` for an eight-aligned `p`, none of the
/// `size` bytes from `p` is addressable.
pub proof fn lemma_poisoned_range(shadow_bit: usize, before: ShadowMemory, after: ShadowMemory, p: usize, size: usize)
    requires
        shadow_bit + 4 < usize::BITS,
        p % 8 == 0,
        p + size <= shadow_limit(shadow_bit),
        forall|a: usize| #[trigger] after.byte(a) == poisoned_byte(before.byte(a), shadow_of(shadow_bit, p), size, a),
    ensures
        forall|i: usize| i < size ==> !(#[trigger] after.addressable(shadow_bit, (p + i) as usize)),
{
    assert forall|i: usize| i < size implies !(#[trigger] after.addressable(shadow_bit, (p + i) as usize)) by {
        lemma_shadow_offset(shadow_bit, p, i);
        let a = (p + i) as usize;
        let k = i % 8;
        assert(i / 8 < size / 8 + (if size % 8 != 0 { 1int } else { 0int })) by (nonlinear_arith)
            requires
                i < size,
        ;
        assert(after.byte(shadow_of(shadow_bit, a)) == 0);
        assert((0u8 & (0x80u8 >> (k as u8))) == 0) by (bit_vector);
    }
}

/// One memset of the shadow region: `count` bytes from `start` set to `value`.
#[derive(Clone, Copy, Debug, PartialEq, Eq, Structural)]
pub struct ShadowWrite {
    pub start: usize,
    pub count: usize,
    pub value: u8,
}

/// The shadow region: its bytes, and the writes made to it that have not
/// yet been handed out to be applied to the process's memory.
pub struct ShadowMemory {
    bytes: ShadowBytes,
    writes: Vec<ShadowWrite>,
}

/// The writes `unpoison(start, size)` makes: whole bytes of ones, then the
/// leading bits of a trailing byte.
pub open spec fn unpoison_writes(start: usize, size: usize) -> Seq<ShadowWrite> {
    (if size / 8 > 0 {
        seq![ShadowWrite { start, count: size / 8, value: 0xff }]
    } else {
        Seq::empty()
    }) + (if size % 8 != 0 {
        seq![ShadowWrite { start: (start + size / 8) as usize, count: 1, value: partial_byte(size % 8) }]
    } else {
        Seq::empty()
    })
}

/// The writes `poison(start, size)` makes: whole bytes of zeros, then a zero
/// trailing byte.
pub open spec fn poison_writes(start: usize, size: usize) -> Seq<ShadowWrite> {
    (if size / 8 > 0 {
        seq![ShadowWrite { start, count: size / 8, value: 0 }]
    } else {
        Seq::empty()
    }) + (if size % 8 != 0 {
        seq![ShadowWrite { start: (start + size / 8) as usize, count: 1, value: 0 }]
    } else {
        Seq::empty()
    })
}

/// The shadow byte at `a` after `unpoison(start, size)`, given the byte before.
pub open spec fn unpoisoned_byte(before: u8, start: usize, size: usize, a: usize) -> u8 {
    if start <= a < start + size / 8 {
        0xff
    } else if size % 8 != 0 && a == start + size / 8 {
        partial_byte(size % 8)
    } else {
        before
    }
}

/// The shadow bytes `poison(start, size)` writes: `size / 8` bytes, and one
/// more for a remainder.
pub open spec fn poison_range(start: usize, size: usize, a: usize) -> bool {
    start <= a < start + size / 8 + (if size % 8 != 0 { 1int } else { 0int })
}

/// The shadow byte at `a` after `poison(start, size)`, given the byte before.
pub open spec fn poisoned_byte(before: u8, start: usize, size: usize, a: usize) -> u8 {
    if poison_range(start, size, a) {
        0
    } else {
        before
    }
}

impl ShadowMemory {
    pub closed spec fn stored(&self) -> Map<usize, u8> {
        shadow_bytes_of(self.bytes)
    }

    /// The shadow byte at shadow address `a`; bytes never written are zero.
    pub open spec fn byte(&self, a: usize) -> u8 {
        if self.stored().contains_key(a) {
            self.stored()[a]
        } else {
            0
        }
    }

    /// The writes made since they were last taken, oldest first.
    pub closed spec fn pending(&self) -> Seq<ShadowWrite> {
        self.writes@
    }

    /// Whether the byte at `addr` may be accessed.
    pub open spec fn addressable(&self, shadow_bit: usize, addr: usize) -> bool {
        self.byte(shadow_of(shadow_bit, addr)) & shadow_mask_of(addr) != 0
    }

    /// A shadow region that marks every byte inaccessible.
    pub fn new() -> (r: Self)
        ensures
            forall|a: usize| #[trigger] r.byte(a) == 0,
            r.pending() == Seq::<ShadowWrite>::empty(),
    {
        ShadowMemory { bytes: shadow_bytes_new(), writes: Vec::new() }
    }

    /// The shadow byte at shadow address `a`.
    pub fn byte_at(&self, a: usize) -> (r: u8)
        ensures
            r == self.byte(a),
    {
        match shadow_bytes_get(&self.bytes, a) {
            Some(b) => b,
            None => 0,
        }
    }

    /// Sets `count` shadow bytes from `start` to `value`.
    fn fill(&mut self, start: usize, count: usize, value: u8)
        requires
            start + count <= usize::MAX,
            count > 0,
        ensures
            forall|a: usize| #[trigger] final(self).byte(a) == if start <= a < start + count { value } else { old(self).byte(a) },
            final(self).pending() == old(self).pending().push(ShadowWrite { start, count, value }),
    {
        shadow_bytes_fill(&mut self.bytes, start, (start + count) as usize, value);
        self.writes.push(ShadowWrite { start, count, value });
    }

    /// Marks the first `size` bytes described from shadow address `start`
    /// addressable: `size / 8` bytes of ones, then, for a remainder, a byte
    /// whose leading `size % 8` bits are set.
    pub fn unpoison(&mut self, start: usize, size: usize)
        requires
            start + size / 8 + 1 <= usize::MAX,
        ensures
            forall|a: usize| #[trigger] final(self).byte(a) == unpoisoned_byte(old(self).byte(a), start, size, a),
            final(self).pending() == old(self).pending() + unpoison_writes(start, size),
    {
        let whole = size / 8;
        if whole > 0 {
            self.fill(start, whole, 0xff);
        }
        let remainder = size % 8;
        if remainder > 0 {
            let b: u8 = ((0xffusize << (8 - remainder)) & 0xff) as u8;
            self.fill(start + whole, 1, b);
        }
        assert(final(self).pending() =~= old(self).pending() + unpoison_writes(start, size));
    }

    /// Marks the first `size` bytes described from shadow address `start`
    /// inaccessible: `size / 8` bytes of zeros, then a zero byte for a remainder.
    pub fn poison(&mut self, start: usize, size: usize)
        requires
            start + size / 8 + 1 <= usize::MAX,
        ensures
            forall|a: usize| #[trigger] final(self).byte(a) == poisoned_byte(old(self).byte(a), start, size, a),
            final(self).pending() == old(self).pending() + poison_writes(start, size),
    {
        let whole = size / 8;
        if whole > 0 {
            self.fill(start, whole, 0);
        }
        if size % 8 > 0 {
            self.fill(start + whole, 1, 0);
        }
        assert(final(self).pending() =~= old(self).pending() + poison_writes(start, size));
    }

    /// Hands out the writes made since the last call, oldest first.
    pub fn take_writes(&mut self) -> (r: Vec<ShadowWrite>)
        ensures
            r@ == old(self).pending(),
            final(self).pending() == Seq::<ShadowWrite>::empty(),
            forall|a: usize| #[trigger] final(self).byte(a) == old(self).byte(a),
    {
        let mut taken: Vec<ShadowWrite> = Vec::new();
        std::mem::swap(&mut taken, &mut self.writes);
        taken
    }

    /// Whether the byte at `addr` may be accessed.
    pub fn is_addressable(&self, shadow_bit: usize, addr: usize) -> (r: bool)
        requires
            shadow_bit + 4 < usize::BITS,
        ensures
            r == self.addressable(shadow_bit, addr),
    {
        let s = shadow_address(shadow_bit, addr);
        assert(addr & 7 < 8) by (bit_vector);
        let mask: u8 = 0x80u8 >> ((addr & 7) as u8);
        self.byte_at(s) & mask != 0
    }

    /// Whether all `n` bytes from `ptr` may be accessed.
    pub fn check_range(&self, shadow_bit: usize, ptr: usize, n: usize) -> (r: bool)
        requires
            shadow_bit + 4 < usize::BITS,
            ptr + n <= usize::MAX,
        ensures
            r == (forall|i: usize| i < n ==> #[trigger] self.addressable(shadow_bit, (ptr + i) as usize)),
    {
        let mut i: usize = 0;
        while i < n
            invariant
                i <= n,
                ptr + n <= usize::MAX,
                shadow_bit + 4 < usize::BITS,
                forall|j: usize| j < i ==> #[trigger] self.addressable(shadow_bit, (ptr + j) as usize),
            decreases n - i,
        {
            if !self.is_addressable(shadow_bit, ptr + i) {
                return false;
            }
            i += 1;
        }
        true
    }
}

} // verus!
