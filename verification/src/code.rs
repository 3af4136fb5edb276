//! The instructions that a memory access is made of, as extensions of the function that is being
//! built.

use crate::ir::{Block, Endianness, Func, IntCC, MemFlag, Op, Type, Value};
use crate::layout::MemLayout;
use crate::mem::AccessKind;
use crate::pcode;
use vstd::arithmetic::power2::pow2;
use vstd::prelude::*;

verus! {

/// The flags of an access to the translation cache.
pub open spec fn vmctx_flags() -> Set<MemFlag> {
    set![MemFlag::Notrap, MemFlag::Aligned].insert(MemFlag::Vmctx)
}

/// The flags of an access to the permissions of a page.
pub open spec fn heap_flags() -> Set<MemFlag> {
    set![MemFlag::Notrap, MemFlag::Aligned].insert(MemFlag::Heap)
}

/// The flags of an access to the data of a page.
pub open spec fn guest_flags(endianness: Endianness) -> Set<MemFlag> {
    heap_flags().insert(crate::clif::endianness_flag(endianness))
}

/// `value` repeated in each of the low `n` bytes.
pub open spec fn repeated(value: u8, n: nat) -> nat
    decreases n,
{
    if n == 0 {
        0
    } else {
        value as nat + 256 * repeated(value, (n - 1) as nat)
    }
}

/// `n` bytes hold less than the `n`th power of 256.
pub proof fn lemma_repeated_fits(value: u8, n: nat)
    ensures
        repeated(value, n) < pow2(8 * n),
    decreases n,
{
    if n == 0 {
        vstd::arithmetic::power2::lemma2_to64();
    } else {
        let m = (n - 1) as nat;
        lemma_repeated_fits(value, m);
        vstd::arithmetic::power2::lemma_pow2_adds(8, 8 * m);
        vstd::arithmetic::power2::lemma2_to64();
    }
}

/// An integer has all of the bits of a repeated byte exactly if each of its bytes has all of the
/// bits of that byte.
pub proof fn lemma_has_repeated(bytes: Seq<u8>, value: u8)
    requires
        bytes.len() <= 16,
    ensures
        (crate::bytes::from_le(bytes) as u128) & (repeated(value, bytes.len()) as u128) == repeated(
            value,
            bytes.len(),
        ) <==> forall|i: int| 0 <= i < bytes.len() ==> #[trigger] bytes[i] & value == value,
    decreases bytes.len(),
{
    let n = bytes.len();
    if n == 0 {
        assert(0u128 & 0u128 == 0u128) by (bit_vector);
    } else {
        let rest = bytes.skip(1);
        let m = (n - 1) as nat;
        lemma_has_repeated(rest, value);
        crate::bytes::lemma_from_le_bound(rest);
        lemma_repeated_fits(value, m);
        vstd::arithmetic::power2::lemma2_to64();
        vstd::arithmetic::power2::lemma2_to64_rest();
        vstd::arithmetic::power2::lemma_pow2_adds(60, 60);
        if 8 * m < 120 {
            vstd::arithmetic::power2::lemma_pow2_strictly_increases(8 * m, 120);
        }
        let b = bytes[0];
        let x = crate::bytes::from_le(rest) as u128;
        let w = repeated(value, m) as u128;
        let xx = (b + 256 * x) as u128;
        let ww = (value + 256 * w) as u128;
        assert(xx & ww == ww <==> (b & value == value && x & w == w)) by (bit_vector)
            requires
                x < 0x0100_0000_0000_0000_0000_0000_0000_0000,
                w < 0x0100_0000_0000_0000_0000_0000_0000_0000,
                xx == b + 256 * x,
                ww == value + 256 * w,
        ;
        assert(forall|i: int| 0 <= i < m ==> #[trigger] rest[i] == bytes[i + 1]);
        if forall|i: int| 0 <= i < n ==> #[trigger] bytes[i] & value == value {
            assert forall|i: int| 0 <= i < m implies #[trigger] rest[i] & value == value by {
                assert(bytes[i + 1] & value == value);
            }
        }
        if b & value == value && forall|i: int| 0 <= i < m ==> #[trigger] rest[i] & value == value {
            assert forall|i: int| 0 <= i < n implies #[trigger] bytes[i] & value == value by {
                if i > 0 {
                    assert(rest[i - 1] & value == value);
                }
            }
        }
    }
}

impl Func {
    /// Jumps to a new block, which has no other predecessor, and goes on there.
    pub open spec fn jump_next(self) -> Func {
        let next = self.next_block();
        self.new_block().effect(Op::Jump { target: next, args: seq![] }).switch_to(next).seal(next)
    }

    /// Branches to `target` where `x` and `y` differ, and goes on in a new block where they do not.
    pub open spec fn require_equal(self, x: Value, y: Value, target: Block) -> Func {
        self.effect(
            Op::BrInt { cc: IntCC::NotEqual, x, y, target, args: seq![] },
        ).jump_next()
    }

    /// Branches to `target` where `addr` is not a multiple of `bytes`.
    pub open spec fn check_alignment(self, addr: Value, bytes: u8, target: Block) -> Func {
        if bytes == 1 {
            self
        } else {
            let ty = self.int_type(addr);
            self.define(Op::BandImm { ty, x: addr, imm: (bytes - 1) as i64 }, ty).effect(
                Op::Brnz { cond: self.next_value(), target, args: seq![] },
            ).jump_next()
        }
    }

    /// Shifts `x` to the right and masks the result.
    #[verifier::opaque]
    pub open spec fn rshift_and_mask(self, x: Value, shift: i64, mask: i64) -> (Func, Value) {
        let ty = self.int_type(x);
        let f = self.define(Op::UshrImm { ty, x, imm: shift }, ty);
        (f.define(Op::BandImm { ty, x: self.next_value(), imm: mask }, ty), f.next_value())
    }

    /// Shifts `x` to the left and masks the result.
    #[verifier::opaque]
    pub open spec fn lshift_and_mask(self, x: Value, shift: i64, mask: i64) -> (Func, Value) {
        let ty = self.int_type(x);
        let f = self.define(Op::IshlImm { ty, x, imm: shift }, ty);
        (f.define(Op::BandImm { ty, x: self.next_value(), imm: mask }, ty), f.next_value())
    }

    /// The bitwise or of `x` and `y`.
    #[verifier::opaque]
    pub open spec fn or(self, x: Value, y: Value) -> (Func, Value) {
        let ty = self.int_type(x);
        (self.define(Op::Bor { ty, x, y }, ty), self.next_value())
    }

    /// A field of the entry at `tlb_addr` of the translation cache.
    pub open spec fn load_tlb(self, tlb_addr: Value, offset: i32) -> (Func, Value) {
        (
            self.define(
                Op::Load { ty: Type::I64, flags: vmctx_flags(), addr: tlb_addr, offset },
                Type::I64,
            ),
            self.next_value(),
        )
    }

    /// The sum of two addresses.
    pub open spec fn add_addr(self, x: Value, y: Value) -> (Func, Value) {
        (self.define(Op::Iadd { ty: Type::I64, x, y }, Type::I64), self.next_value())
    }

    /// A constant of 64 bits.
    pub open spec fn const64(self, imm: int) -> (Func, Value) {
        (self.define(Op::Iconst { ty: Type::I64, imm: imm as i64 }, Type::I64), self.next_value())
    }

    /// Looks up the page of the address `addr` in the translation cache at `tlb_ptr`, and branches
    /// to `not_found` where the entry is for another page. The result points to the page's data.
    pub open spec fn tlb_lookup(
        self,
        layout: MemLayout,
        tlb_ptr: Value,
        addr: Value,
        kind: AccessKind,
        not_found: Block,
    ) -> (Func, Value) {
        let kind_offset = kind.offset_in_tlb(layout);
        let (f, entry_offset) = self.rshift_and_mask(
            addr,
            (layout.offset_bits - layout.entry_bits()) as i64,
            layout.index_mask() as i64,
        );
        let (f, tlb_addr) = f.add_addr(tlb_ptr, entry_offset);
        let (f, expected_tag) = f.load_tlb(tlb_addr, kind_offset as i32);
        let (f, tag) = f.rshift_and_mask(
            addr,
            (layout.offset_bits + layout.tlb_index_bits) as i64,
            (pow2(layout.tlb_tag_bits as nat) - 1) as i64,
        );
        f.require_equal(tag, expected_tag, not_found).load_tlb(tlb_addr, (kind_offset + 8) as i32)
    }

    /// The same for an address that is known when the code is generated.
    pub open spec fn tlb_lookup_const(
        self,
        layout: MemLayout,
        tlb_ptr: Value,
        addr: u64,
        kind: AccessKind,
        not_found: Block,
    ) -> (Func, Value) {
        let kind_offset = kind.offset_in_tlb(layout);
        let (f, entry_offset) = self.const64(layout.index_of(addr) * layout.tlb_entry_size);
        let (f, tlb_addr) = f.add_addr(tlb_ptr, entry_offset);
        let (f, expected_tag) = f.load_tlb(tlb_addr, kind_offset as i32);
        let (f, tag) = f.const64(layout.tag_of(addr));
        f.require_equal(tag, expected_tag, not_found).load_tlb(tlb_addr, (kind_offset + 8) as i32)
    }

    /// A constant of type `ty` that holds `value` in each byte.
    pub open spec fn splat_const(self, value: u8, ty: Type) -> (Func, Value) {
        if ty is I128 {
            let half = repeated(value, 8) as u64 as i64;
            let f = self.define(Op::Iconst { ty: Type::I64, imm: half }, Type::I64);
            let g = f.define(Op::Iconst { ty: Type::I64, imm: half }, Type::I64);
            (
                g.define(
                    Op::Iconcat { lo: self.next_value(), hi: f.next_value() },
                    Type::I128,
                ),
                g.next_value(),
            )
        } else {
            (
                self.define(Op::Iconst { ty, imm: repeated(value, ty.size()) as u64 as i64 }, ty),
                self.next_value(),
            )
        }
    }

    /// Branches to `target` where some byte of an access of type `ty` at `host_addr` lacks one of
    /// the permissions `perm`.
    pub open spec fn check_perm(
        self,
        layout: MemLayout,
        host_addr: Value,
        ty: Type,
        perm: u8,
        target: Block,
    ) -> Func {
        let held = self.next_value();
        let f = self.define(
            Op::Load { ty, flags: heap_flags(), addr: host_addr, offset: layout.perm_offset as i32 },
            ty,
        );
        let (f, wanted) = f.splat_const(perm, ty);
        f.define(Op::Band { ty, x: held, y: wanted }, ty).require_equal(
            f.next_value(),
            wanted,
            target,
        )
    }

    /// Checks that an access to the address `addr` can be made without the emulator, and branches
    /// to `fallback` where it cannot. The second result is the host address.
    pub open spec fn inline_access(
        self,
        layout: MemLayout,
        tlb_ptr: Value,
        addr: Value,
        ty: Type,
        kind: AccessKind,
        fallback: Block,
    ) -> (Func, Value) {
        let f = self.check_alignment(addr, ty.size() as u8, fallback);
        let (f, page_ptr) = f.tlb_lookup(layout, tlb_ptr, addr, kind, fallback);
        let offset = f.next_value();
        let f = f.define(
            Op::BandImm {
                ty: Type::I64,
                x: addr,
                imm: (pow2(layout.offset_bits as nat) - 1) as i64,
            },
            Type::I64,
        );
        let (f, host_addr) = f.add_addr(page_ptr, offset);
        (f.check_perm(layout, host_addr, ty, kind.required(layout), fallback), host_addr)
    }

    /// The same for an address that is known when the code is generated.
    pub open spec fn inline_access_const(
        self,
        layout: MemLayout,
        tlb_ptr: Value,
        addr: u64,
        ty: Type,
        kind: AccessKind,
        fallback: Block,
    ) -> (Func, Value) {
        let (f, page_ptr) = self.tlb_lookup_const(layout, tlb_ptr, addr, kind, fallback);
        let (f, offset) = f.const64(layout.offset_in_page(addr));
        let (f, host_addr) = f.add_addr(page_ptr, offset);
        (f.check_perm(layout, host_addr, ty, kind.required(layout), fallback), host_addr)
    }

    /// The bytes of `x`, an integer of type `ty`, in the opposite order.
    pub open spec fn bswap(self, x: Value, ty: Type) -> (Func, Value) {
        match ty {
            Type::I16 => {
                let (f, a) = self.rshift_and_mask(x, 8, 0x00ff);
                let (f, b) = f.lshift_and_mask(x, 8, 0xff00);
                f.or(a, b)
            },
            Type::I32 => {
                let (f, a) = self.rshift_and_mask(x, 24, 0x000000ff);
                let (f, b) = f.rshift_and_mask(x, 8, 0x0000ff00);
                let (f, c) = f.lshift_and_mask(x, 8, 0x00ff0000);
                let (f, d) = f.lshift_and_mask(x, 24, 0xff000000);
                let (f, ab) = f.or(a, b);
                let (f, cd) = f.or(c, d);
                f.or(ab, cd)
            },
            Type::I64 => {
                let (f, a) = self.rshift_and_mask(x, 56, 0x00000000_000000ff);
                let (f, b) = f.rshift_and_mask(x, 40, 0x00000000_0000ff00);
                let (f, c) = f.rshift_and_mask(x, 24, 0x00000000_00ff0000);
                let (f, d) = f.rshift_and_mask(x, 8, 0x00000000_ff000000);
                let (f, e) = f.lshift_and_mask(x, 8, 0x000000ff_00000000);
                let (f, g) = f.lshift_and_mask(x, 24, 0x0000ff00_00000000);
                let (f, h) = f.lshift_and_mask(x, 40, 0x00ff0000_00000000);
                let (f, i) = f.lshift_and_mask(x, 56, 0xff000000_00000000u64 as i64);
                let (f, ab) = f.or(a, b);
                let (f, cd) = f.or(c, d);
                let (f, abcd) = f.or(ab, cd);
                let (f, eg) = f.or(e, g);
                let (f, hi) = f.or(h, i);
                let (f, eghi) = f.or(eg, hi);
                f.or(abcd, eghi)
            },
            _ => (self, x),
        }
    }

    /// Loads an integer of type `ty` that the guest stored at the host address `addr`.
    #[verifier::opaque]
    pub open spec fn load_host(
        self,
        endianness: Endianness,
        addr: Value,
        ty: Type,
    ) -> (Func, Value) {
        let f = self.define(Op::Load { ty, flags: guest_flags(endianness), addr, offset: 0 }, ty);
        if endianness is Little {
            (f, self.next_value())
        } else {
            f.bswap(self.next_value(), ty)
        }
    }

    /// Stores `value`, an integer of type `ty`, at the host address `addr` for the guest.
    #[verifier::opaque]
    pub open spec fn store_host(
        self,
        endianness: Endianness,
        addr: Value,
        value: Value,
        ty: Type,
    ) -> Func {
        let (f, stored) = if endianness is Little {
            (self, value)
        } else {
            self.bswap(value, ty)
        };
        f.effect(
            Op::Store { ty, flags: guest_flags(endianness), value: stored, addr, offset: 0 },
        )
    }

    /// Checks that an access to `guest_addr`, whose value is `addr`, can be made without the
    /// emulator, and branches to `fallback` where it cannot. The second result is the host address.
    #[verifier::opaque]
    pub open spec fn try_inline_access(
        self,
        layout: MemLayout,
        tlb_ptr: Value,
        guest_addr: pcode::Value,
        addr: Value,
        ty: Type,
        kind: AccessKind,
        fallback: Block,
    ) -> (Func, Value) {
        match guest_addr {
            pcode::Value::Const(addr, _) => self.inline_access_const(
                layout,
                tlb_ptr,
                addr,
                ty,
                kind,
                fallback,
            ),
            pcode::Value::Var(_) => self.inline_access(layout, tlb_ptr, addr, ty, kind, fallback),
        }
    }

    /// Creates the block in which a load ends, with the loaded integer as its parameter, and the
    /// block of the slow path.
    pub open spec fn load_blocks(self, ty: Type) -> Func {
        let success = self.next_block();
        let f = self.new_block().new_param(success, ty);
        f.new_block().set_cold(f.next_block())
    }

    /// Creates the block in which a store ends and the block of the slow path.
    pub open spec fn store_blocks(self) -> Func {
        let f = self.new_block();
        f.new_block().set_cold(f.next_block())
    }

    /// The number of the block of the slow path.
    pub open spec fn fallback_block(self) -> Block {
        Block { index: (self.blocks.len() + 1) as u32 }
    }

    /// Loads an integer of type `ty` from `guest_addr`, whose value is `addr`, where that needs no
    /// help of the emulator, and ends in the block that is created first. Goes on in the block of
    /// the slow path.
    pub open spec fn load_inline(
        self,
        layout: MemLayout,
        tlb_ptr: Value,
        endianness: Endianness,
        guest_addr: pcode::Value,
        addr: Value,
        ty: Type,
    ) -> Func {
        let success = self.next_block();
        let fallback = self.fallback_block();
        let (f, host_addr) = self.load_blocks(ty).try_inline_access(
            layout,
            tlb_ptr,
            guest_addr,
            addr,
            ty,
            AccessKind::Load,
            fallback,
        );
        let (f, value) = f.load_host(endianness, host_addr, ty);
        f.effect(Op::Jump { target: success, args: seq![value] }).switch_to(fallback).seal(fallback)
    }

    /// Stores `value`, an integer of type `ty`, at `guest_addr`, whose value is `addr`, where that
    /// needs no help of the emulator, and ends in the block that is created first. Goes on in the
    /// block of the slow path.
    pub open spec fn store_inline(
        self,
        layout: MemLayout,
        tlb_ptr: Value,
        endianness: Endianness,
        guest_addr: pcode::Value,
        addr: Value,
        value: Value,
        ty: Type,
    ) -> Func {
        let success = self.next_block();
        let fallback = self.fallback_block();
        let (f, host_addr) = self.store_blocks().try_inline_access(
            layout,
            tlb_ptr,
            guest_addr,
            addr,
            ty,
            AccessKind::Store,
            fallback,
        );
        f.store_host(endianness, host_addr, value, ty).effect(
            Op::Jump { target: success, args: seq![] },
        ).switch_to(fallback).seal(fallback)
    }

    /// Ends the slow path in `success`, where the inline path ends too, and goes on there.
    pub open spec fn join(self, success: Block, args: Seq<Value>) -> Func {
        self.effect(Op::Jump { target: success, args }).switch_to(success).seal(success)
    }
}

} // verus!
