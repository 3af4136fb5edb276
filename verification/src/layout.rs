//! How the emulator lays out the state that generated code reads: the translation cache, which maps
//! guest pages to host pages, and the permissions of each byte of a page.

use vstd::arithmetic::power2::pow2;
use vstd::prelude::*;

verus! {

/// The bits of a permission byte.
#[derive(Clone, Copy, Debug, PartialEq, Eq, Structural)]
pub struct Permissions {
    pub read: u8,
    pub write: u8,
    pub init: u8,
    pub map: u8,
}

/// The numbers that describe the layout.
#[derive(Clone, Copy, Debug, PartialEq, Eq, Structural)]
pub struct MemLayout {
    pub perm: Permissions,
    /// The number of bits of an offset within a page.
    pub offset_bits: u32,
    /// The number of bits of an index into the translation cache.
    pub tlb_index_bits: u32,
    /// The number of bits of the tag of an entry of the translation cache.
    pub tlb_tag_bits: u32,
    /// The size of an entry of the translation cache.
    pub tlb_entry_size: u64,
    /// The offset of the entries for reads in the translation cache.
    pub tlb_read_offset: u64,
    /// The offset of the entries for writes in the translation cache.
    pub tlb_write_offset: u64,
    /// The offset of the permissions of a page from its data.
    pub perm_offset: u64,
}

/// The binary logarithm of `x`, rounded down.
pub open spec fn log2(x: nat) -> nat
    decreases x,
{
    if x <= 1 {
        0
    } else {
        1 + log2(x / 2)
    }
}

impl MemLayout {
    /// The binary logarithm of the size of an entry.
    pub open spec fn entry_bits(self) -> nat {
        log2(self.tlb_entry_size as nat)
    }

    /// The size of the entries for one kind of access in the translation cache.
    #[verifier::opaque]
    pub open spec fn array_size(self) -> int {
        pow2(self.tlb_index_bits as nat) * self.tlb_entry_size
    }

    /// The layouts that code can be generated for: the size of an entry is a power of two that is
    /// no larger than a page and holds a tag and a pointer, the entries for reads and those for
    /// writes do not overlap, an address has bits left beside the offset and the index, and the
    /// offsets fit in the instructions that use them.
    pub open spec fn wf(self) -> bool {
        &&& self.tlb_entry_size == pow2(self.entry_bits())
        &&& 16 <= self.tlb_entry_size
        &&& {
            ||| self.tlb_read_offset + self.array_size() <= self.tlb_write_offset
            ||| self.tlb_write_offset + self.array_size() <= self.tlb_read_offset
        }
        &&& self.entry_bits() <= self.offset_bits
        &&& self.offset_bits + self.tlb_index_bits < 64
        &&& self.tlb_tag_bits < 64
        &&& self.tlb_read_offset + 8 <= i32::MAX
        &&& self.tlb_write_offset + 8 <= i32::MAX
        &&& self.perm_offset <= i32::MAX
    }

    /// The index of the entry for `addr`: the low bits of its page number.
    pub open spec fn index_of(self, addr: u64) -> int {
        (addr as int / pow2(self.offset_bits as nat) as int) % (pow2(
            self.tlb_index_bits as nat,
        ) as int)
    }

    /// The tag of the entry for `addr`: the bits of its page number above the index.
    pub open spec fn tag_of(self, addr: u64) -> int {
        (addr as int / pow2((self.offset_bits + self.tlb_index_bits) as nat) as int) % (pow2(
            self.tlb_tag_bits as nat,
        ) as int)
    }

    /// What selects the index, in units of the size of an entry, after a shift to the right.
    pub open spec fn index_mask(self) -> int {
        (pow2(self.tlb_index_bits as nat) - 1) * pow2(self.entry_bits())
    }

    /// The offset of `addr` within its page.
    pub open spec fn offset_in_page(self, addr: u64) -> int {
        addr as int % (pow2(self.offset_bits as nat) as int)
    }

    /// The binary logarithm of the size of an entry.
    pub fn tlb_entry_size_bits(&self) -> (n: u32)
        requires
            self.wf(),
        ensures
            n == self.entry_bits(),
            pow2(n as nat) == self.tlb_entry_size,
            n < 64,
    {
        let n: u32 = self.tlb_entry_size.trailing_zeros();
        proof {
            let size = self.tlb_entry_size;
            let k = self.entry_bits() as u64;
            let t = n as u64;
            lemma_shl_one(k);
            vstd::std_specs::bits::axiom_u64_trailing_zeros(size);
            assert(size != 0 && (t < 64 && (size >> t) & 1u64 == 1u64 ==> t == k)) by (bit_vector)
                requires
                    size == 1u64 << k,
                    k < 64,
            ;
        }
        n
    }

    /// What selects the index, in units of the size of an entry, after a shift to the right.
    pub fn tlb_index_mask(&self) -> (mask: u64)
        requires
            self.wf(),
        ensures
            mask == self.index_mask(),
            mask == (pow2(self.tlb_index_bits as nat) - 1) * self.tlb_entry_size,
    {
        let bits: u32 = self.tlb_entry_size_bits();
        proof {
            lemma_shl_one(self.tlb_index_bits as u64);
            lemma_shl_one(bits as u64);
            lemma_index_mask_fits(*self);
            vstd::bits::lemma_u64_shl_is_mul(
                (pow2(self.tlb_index_bits as nat) - 1) as u64,
                bits as u64,
            );
        }
        ((1u64 << (self.tlb_index_bits as u64)) - 1) << (bits as u64)
    }

    /// The index of the entry for `addr`.
    pub fn tlb_index(&self, addr: u64) -> (index: u64)
        requires
            self.wf(),
        ensures
            index == self.index_of(addr),
            index == (addr as int / pow2(self.offset_bits as nat) as int) % (pow2(
                self.tlb_index_bits as nat,
            ) as int),
    {
        proof {
            lemma_shl_one(self.tlb_index_bits as u64);
            lemma_shr_is_div(addr, self.offset_bits as u64);
            lemma_mask_is_mod(addr >> (self.offset_bits as u64), self.tlb_index_bits as u64);
        }
        (addr >> (self.offset_bits as u64)) & ((1u64 << (self.tlb_index_bits as u64)) - 1)
    }

    /// The tag of the entry for `addr`.
    pub fn tlb_tag(&self, addr: u64) -> (tag: u64)
        requires
            self.wf(),
        ensures
            tag == self.tag_of(addr),
            tag == (addr as int / pow2((self.offset_bits + self.tlb_index_bits) as nat) as int) % (
            pow2(self.tlb_tag_bits as nat) as int),
    {
        let shift: u32 = self.offset_bits + self.tlb_index_bits;
        proof {
            lemma_shl_one(self.tlb_tag_bits as u64);
            lemma_shr_is_div(addr, shift as u64);
            lemma_mask_is_mod(addr >> (shift as u64), self.tlb_tag_bits as u64);
        }
        (addr >> (shift as u64)) & ((1u64 << (self.tlb_tag_bits as u64)) - 1)
    }

    /// What selects the offset within a page.
    pub fn page_offset_mask(&self) -> (mask: u64)
        requires
            self.wf(),
        ensures
            mask == pow2(self.offset_bits as nat) - 1,
    {
        proof {
            lemma_shl_one(self.offset_bits as u64);
        }
        (1u64 << (self.offset_bits as u64)) - 1
    }

    /// What selects the tag after a shift to the right.
    pub fn tlb_tag_mask(&self) -> (mask: u64)
        requires
            self.wf(),
        ensures
            mask == pow2(self.tlb_tag_bits as nat) - 1,
    {
        proof {
            lemma_shl_one(self.tlb_tag_bits as u64);
        }
        (1u64 << (self.tlb_tag_bits as u64)) - 1
    }
}

/// A shifted bit is a power of two.
pub proof fn lemma_shl_one(n: u64)
    requires
        n < 64,
    ensures
        1u64 << n == pow2(n as nat),
        0 < pow2(n as nat) < u64::MAX,
{
    vstd::bits::lemma_u64_pow2_no_overflow(n as nat);
    vstd::bits::lemma_u64_shl_is_mul(1, n);
}

/// A shift to the right divides by a power of two.
pub proof fn lemma_shr_is_div(x: u64, n: u64)
    requires
        n < 64,
    ensures
        x >> n == x as int / pow2(n as nat) as int,
{
    vstd::bits::lemma_u64_shr_is_div(x, n);
}

/// A mask of low bits takes the remainder of a power of two.
pub proof fn lemma_mask_is_mod(x: u64, n: u64)
    requires
        n < 64,
    ensures
        x & ((pow2(n as nat) - 1) as u64) == x as int % pow2(n as nat) as int,
{
    vstd::bits::lemma_u64_pow2_no_overflow(n as nat);
    vstd::bits::lemma_u64_low_bits_mask_is_mod(x, n as nat);
}

/// The mask of the index, shifted by the size of an entry, leaves the sign bit clear.
pub proof fn lemma_index_mask_fits(layout: MemLayout)
    requires
        layout.wf(),
    ensures
        0 <= layout.index_mask() <= i64::MAX,
{
    let i = layout.tlb_index_bits as nat;
    let e = layout.entry_bits();
    vstd::arithmetic::power2::lemma_pow2_adds(i, e);
    vstd::arithmetic::power2::lemma_pow2_pos(i);
    vstd::arithmetic::power2::lemma_pow2_pos(e);
    if i + e < 63 {
        vstd::arithmetic::power2::lemma_pow2_strictly_increases(i + e, 63);
    }
    vstd::arithmetic::power2::lemma2_to64_rest();
    let a = pow2(i) as int;
    let b = pow2(e) as int;
    assert(0 <= (a - 1) * b <= a * b - 1) by (nonlinear_arith)
        requires
            a >= 1,
            b >= 1,
    ;
}

/// The offset of an entry fits in a signed integer of 64 bits.
pub proof fn lemma_entry_offset_fits(layout: MemLayout, addr: u64)
    requires
        layout.wf(),
    ensures
        0 <= layout.index_of(addr) < pow2(layout.tlb_index_bits as nat),
        0 <= layout.index_of(addr) * layout.tlb_entry_size <= layout.index_mask(),
        layout.index_mask() <= i64::MAX,
{
    lemma_index_mask_fits(layout);
    lemma_shl_one(layout.tlb_index_bits as u64);
    let index = layout.index_of(addr);
    let n = pow2(layout.tlb_index_bits as nat) as int;
    let size = layout.tlb_entry_size as int;
    assert(0 <= index < n) by {
        vstd::arithmetic::div_mod::lemma_mod_bound(
            addr as int / pow2(layout.offset_bits as nat) as int,
            n,
        );
    }
    assert(0 <= index * size <= (n - 1) * size) by (nonlinear_arith)
        requires
            0 <= index <= n - 1,
            size >= 0,
    ;
}

/// A tag fits in a signed integer of 64 bits.
pub proof fn lemma_tag_fits(layout: MemLayout, addr: u64)
    requires
        layout.wf(),
    ensures
        0 <= layout.tag_of(addr) < pow2(layout.tlb_tag_bits as nat),
        pow2(layout.tlb_tag_bits as nat) <= pow2(63),
        pow2(63) == i64::MAX + 1,
{
    lemma_shl_one(layout.tlb_tag_bits as u64);
    vstd::arithmetic::power2::lemma2_to64_rest();
    if layout.tlb_tag_bits < 63 {
        vstd::arithmetic::power2::lemma_pow2_strictly_increases(layout.tlb_tag_bits as nat, 63);
    }
    vstd::arithmetic::div_mod::lemma_mod_bound(
        addr as int / pow2((layout.offset_bits + layout.tlb_index_bits) as nat) as int,
        pow2(layout.tlb_tag_bits as nat) as int,
    );
}

/// The mask of the offset within a page fits in a signed integer of 64 bits.
pub proof fn lemma_offset_mask_fits(layout: MemLayout)
    requires
        layout.wf(),
    ensures
        0 < pow2(layout.offset_bits as nat) <= pow2(63),
        pow2(63) == i64::MAX + 1,
{
    lemma_shl_one(layout.offset_bits as u64);
    vstd::arithmetic::power2::lemma2_to64_rest();
    if layout.offset_bits < 63 {
        vstd::arithmetic::power2::lemma_pow2_strictly_increases(layout.offset_bits as nat, 63);
    }
}

/// The shift and the mask of the generated code give the offset of the entry for `addr`.
pub proof fn lemma_entry_offset(layout: MemLayout, addr: u64)
    requires
        layout.wf(),
    ensures
        (addr >> ((layout.offset_bits - layout.entry_bits()) as u64)) & (layout.index_mask() as u64)
            == layout.index_of(addr) * layout.tlb_entry_size,
{
    let o = layout.offset_bits as u64;
    let e = layout.entry_bits() as u64;
    let i = layout.tlb_index_bits as u64;
    let s = (o - e) as u64;
    let low = (pow2(i as nat) - 1) as u64;
    lemma_shl_one(i);
    lemma_index_mask_fits(layout);
    vstd::bits::lemma_u64_shl_is_mul(low, e);
    let index = (addr >> o) & low;
    lemma_shr_is_div(addr, o);
    lemma_mask_is_mod(addr >> o, i);
    lemma_entry_offset_fits(layout, addr);
    vstd::bits::lemma_u64_shl_is_mul(index, e);
    let y = addr >> s;
    assert(y >> e == addr >> o) by {
        lemma_shr_is_div(addr, s);
        lemma_shr_is_div(y, e);
        lemma_shl_one(s);
        lemma_shl_one(e);
        vstd::arithmetic::power2::lemma_pow2_adds(s as nat, e as nat);
        vstd::arithmetic::div_mod::lemma_div_denominator(
            addr as int,
            pow2(s as nat) as int,
            pow2(e as nat) as int,
        );
    }
    assert(y & (low << e) == ((y >> e) & low) << e) by (bit_vector)
        requires
            e < 64,
    ;
}

} // verus!
