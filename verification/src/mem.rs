//! Code generation for memory accesses.

use crate::clif;
use crate::code;
use crate::ir::{Block, Endianness, Func, IntCC, Type, Value};
use crate::layout;
use crate::layout::MemLayout;
use crate::pcode;
use crate::translator;
use crate::translator::{sized_int, Translator};
use cranelift::prelude::MemFlags;
use vstd::prelude::*;

verus! {

/// What a memory access does.
#[derive(Clone, Copy, Debug, PartialEq, Eq, Structural)]
pub enum AccessKind {
    Load,
    Store,
}

impl AccessKind {
    /// The permissions that the access needs.
    pub open spec fn required(self, layout: MemLayout) -> u8 {
        match self {
            AccessKind::Load => layout.perm.read | layout.perm.init | layout.perm.map,
            AccessKind::Store => layout.perm.write | layout.perm.map,
        }
    }

    /// The offset of the entries for the access in the translation cache.
    pub open spec fn offset_in_tlb(self, layout: MemLayout) -> u64 {
        match self {
            AccessKind::Load => layout.tlb_read_offset,
            AccessKind::Store => layout.tlb_write_offset,
        }
    }

    /// The permissions that the access needs.
    pub fn perm(&self, layout: &MemLayout) -> (perm: u8)
        ensures
            perm == self.required(*layout),
            self is Load ==> perm == layout.perm.read | layout.perm.init | layout.perm.map,
            self is Store ==> perm == layout.perm.write | layout.perm.map,
    {
        match self {
            AccessKind::Load => layout.perm.read | layout.perm.init | layout.perm.map,
            AccessKind::Store => layout.perm.write | layout.perm.map,
        }
    }

    /// The offset of the entries for the access in the translation cache.
    pub fn tlb_offset(&self, layout: &MemLayout) -> (offset: i32)
        requires
            layout.wf(),
        ensures
            offset == self.offset_in_tlb(*layout),
            self is Load ==> offset == layout.tlb_read_offset,
            self is Store ==> offset == layout.tlb_write_offset,
    {
        match self {
            AccessKind::Load => layout.tlb_read_offset as i32,
            AccessKind::Store => layout.tlb_write_offset as i32,
        }
    }
}

/// Generate code for checking that `addr` is aligned to at least `bytes`.
pub fn check_alignment(
    trans: &mut Translator<'_>,
    addr: Value,
    bytes: u8,
    unaligned_block: Block,
)
    requires
        bytes > 0,
        old(trans).func().open(),
        old(trans).func().room(4),
        old(trans).func().is_int(addr),
        old(trans).func().can_branch(unaligned_block),
    ensures
        final(trans).func() == old(trans).func().check_alignment(addr, bytes, unaligned_block),
        final(trans).same_but_func(old(trans)),
        old(trans).func().grows_to(final(trans).func(), 4),
{
    if bytes == 1 {
        // We know statically that the address is aligned.
        return;
    }
    let cond: Value = clif::band_imm(&mut trans.builder, addr, (bytes - 1) as i64);
    clif::brnz(&mut trans.builder, cond, unaligned_block, &Vec::new());
    trans.jump_next_block();
}

/// Generate code for modifying `value` with a `>>` of `shift` bits followed by an `&` with `mask`.
pub fn rshift_and_mask(trans: &mut Translator<'_>, value: Value, shift: i64, mask: i64) -> (r:
    Value)
    requires
        old(trans).func().open(),
        old(trans).func().room(2),
        old(trans).func().is_int(value),
    ensures
        (final(trans).func(), r) == old(trans).func().rshift_and_mask(value, shift, mask),
        final(trans).same_but_func(old(trans)),
        old(trans).func().grows_to(final(trans).func(), 2),
        final(trans).func().has_type(r, old(trans).func().int_type(value)),
{
    reveal(Func::rshift_and_mask);
    let tmp: Value = clif::ushr_imm(&mut trans.builder, value, shift);
    clif::band_imm(&mut trans.builder, tmp, mask)
}

/// Generate code for modifying `value` with a `<<` of `shift` bits followed by an `&` with `mask`.
pub fn lshift_and_mask(trans: &mut Translator<'_>, value: Value, shift: i64, mask: i64) -> (r:
    Value)
    requires
        old(trans).func().open(),
        old(trans).func().room(2),
        old(trans).func().is_int(value),
    ensures
        (final(trans).func(), r) == old(trans).func().lshift_and_mask(value, shift, mask),
        final(trans).same_but_func(old(trans)),
        old(trans).func().grows_to(final(trans).func(), 2),
        final(trans).func().has_type(r, old(trans).func().int_type(value)),
{
    reveal(Func::lshift_and_mask);
    let tmp: Value = clif::ishl_imm(&mut trans.builder, value, shift);
    clif::band_imm(&mut trans.builder, tmp, mask)
}

/// Generate code for looking up an entry in the TLB and comparing the tag.
pub fn tlb_lookup(
    trans: &mut Translator<'_>,
    addr: Value,
    kind: AccessKind,
    not_found: Block,
) -> (page_ptr: Value)
    requires
        old(trans).wf(),
        old(trans).func().room(10),
        old(trans).func().has_type(addr, Type::I64),
        old(trans).func().can_branch(not_found),
    ensures
        (final(trans).func(), page_ptr) == old(trans).func().tlb_lookup(
            old(trans).layout,
            old(trans).tlb_ptr,
            addr,
            kind,
            not_found,
        ),
        final(trans).same_but_func(old(trans)),
        old(trans).func().grows_to(final(trans).func(), 10),
        final(trans).func().has_type(page_ptr, Type::I64),
{
    let layout: MemLayout = trans.layout;

    // TLB reads do not alias with loads to actual memory.
    let mem_flags: MemFlags = MemFlags::trusted().with_vmctx();

    // Find the host address that contains the TLB entry for this address.
    let index_shift: i64 = (layout.offset_bits - layout.tlb_entry_size_bits()) as i64;
    let index_mask: i64 = layout.tlb_index_mask() as i64;
    proof {
        layout::lemma_index_mask_fits(layout);
    }
    let entry_offset: Value = rshift_and_mask(trans, addr, index_shift, index_mask);
    let tlb_addr: Value = clif::iadd(&mut trans.builder, trans.tlb_ptr, entry_offset);

    // Load the tag
    let kind_offset: i32 = kind.tlb_offset(&layout);
    let expected_tag: Value = clif::load(
        &mut trans.builder,
        Type::I64,
        mem_flags,
        tlb_addr,
        kind_offset + 0,
    );

    // Check that the tag matches
    let tag_shift: i64 = (layout.offset_bits + layout.tlb_index_bits) as i64;
    let tag_mask: i64 = layout.tlb_tag_mask() as i64;
    let tag: Value = rshift_and_mask(trans, addr, tag_shift, tag_mask);
    clif::br_int(
        &mut trans.builder,
        IntCC::NotEqual,
        tag,
        expected_tag,
        not_found,
        &Vec::new(),
    );
    trans.jump_next_block();

    // Load the pointer
    clif::load(&mut trans.builder, Type::I64, mem_flags, tlb_addr, kind_offset + 8)
}

/// Generate code for looking up an entry in the TLB and comparing the tag if the address is known
/// statically.
pub fn tlb_lookup_const(
    trans: &mut Translator<'_>,
    addr: u64,
    kind: AccessKind,
    not_found: Block,
) -> (page_ptr: Value)
    requires
        old(trans).wf(),
        old(trans).func().room(8),
        old(trans).func().can_branch(not_found),
    ensures
        (final(trans).func(), page_ptr) == old(trans).func().tlb_lookup_const(
            old(trans).layout,
            old(trans).tlb_ptr,
            addr,
            kind,
            not_found,
        ),
        final(trans).same_but_func(old(trans)),
        old(trans).func().grows_to(final(trans).func(), 8),
        final(trans).func().has_type(page_ptr, Type::I64),
{
    let layout: MemLayout = trans.layout;

    // TLB reads do not alias with loads to actual memory.
    let mem_flags: MemFlags = MemFlags::trusted().with_vmctx();

    // Find the host address that contains the TLB entry for this address.
    let index: u64 = layout.tlb_index(addr);
    proof {
        layout::lemma_entry_offset_fits(layout, addr);
    }
    let entry_offset: Value = clif::iconst(
        &mut trans.builder,
        Type::I64,
        (index * layout.tlb_entry_size) as i64,
    );
    let tlb_addr: Value = clif::iadd(&mut trans.builder, trans.tlb_ptr, entry_offset);

    // Load the tag
    let kind_offset: i32 = kind.tlb_offset(&layout);
    let expected_tag: Value = clif::load(
        &mut trans.builder,
        Type::I64,
        mem_flags,
        tlb_addr,
        kind_offset + 0,
    );

    // Check that the tag matches
    let tag: Value = clif::iconst(&mut trans.builder, Type::I64, layout.tlb_tag(addr) as i64);
    clif::br_int(
        &mut trans.builder,
        IntCC::NotEqual,
        tag,
        expected_tag,
        not_found,
        &Vec::new(),
    );
    trans.jump_next_block();

    // Load the pointer
    clif::load(&mut trans.builder, Type::I64, mem_flags, tlb_addr, kind_offset + 8)
}

/// Generate code for checking that the permissons associated with the value at `host_addr`
/// satisfies `perm`.
pub fn check_perm(
    trans: &mut Translator<'_>,
    host_addr: Value,
    size: u8,
    perm: u8,
    invalid_perm: Block,
)
    requires
        translator::native_size(size),
        old(trans).wf(),
        old(trans).func().room(8),
        old(trans).func().has_type(host_addr, Type::I64),
        old(trans).func().can_branch(invalid_perm),
    ensures
        final(trans).func() == old(trans).func().check_perm(
            old(trans).layout,
            host_addr,
            translator::type_of_size(size),
            perm,
            invalid_perm,
        ),
        final(trans).same_but_func(old(trans)),
        old(trans).func().grows_to(final(trans).func(), 8),
{
    let perm_offset: i32 = trans.layout.perm_offset as i32;

    let ty: Type = sized_int(size);
    let value: Value = clif::load(
        &mut trans.builder,
        ty,
        MemFlags::trusted().with_heap(),
        host_addr,
        perm_offset,
    );

    // Duplicate `perm` to cover all bytes that we need to check
    let perm: Value = splat_const(trans, perm, ty);

    // Check if the all the bits in `perm` are set for this address.
    let value: Value = clif::band(&mut trans.builder, value, perm);
    clif::br_int(
        &mut trans.builder,
        IntCC::NotEqual,
        value,
        perm,
        invalid_perm,
        &Vec::new(),
    );
    trans.jump_next_block();
}

/// The integer that consists of `value` repeated for each of its `n` low bytes.
fn repeat_byte(value: u8, n: u32) -> (r: u64)
    requires
        n <= 8,
    ensures
        r == code::repeated(value, n as nat),
{
    let mut r: u64 = 0;
    let mut i: u32 = 0;
    while i < n
        invariant
            i <= n <= 8,
            r == code::repeated(value, i as nat),
        decreases n - i,
    {
        proof {
            code::lemma_repeated_fits(value, i as nat);
            code::lemma_repeated_fits(value, (i + 1) as nat);
            vstd::arithmetic::power2::lemma2_to64();
            vstd::arithmetic::power2::lemma2_to64_rest();
        }
        r = value as u64 + 256 * r;
        i = i + 1;
    }
    r
}

/// Create a constant of `ty` that consists of `value` repeated for every byte.
pub fn splat_const(trans: &mut Translator<'_>, value: u8, ty: Type) -> (r: Value)
    requires
        old(trans).func().open(),
        old(trans).func().room(3),
    ensures
        (final(trans).func(), r) == old(trans).func().splat_const(value, ty),
        final(trans).same_but_func(old(trans)),
        old(trans).func().grows_to(final(trans).func(), 3),
        final(trans).func().has_type(r, ty),
{
    let n: u32 = if ty.bytes() < 8 {
        ty.bytes()
    } else {
        8
    };
    let expanded: i64 = repeat_byte(value, n) as i64;

    match ty {
        Type::I8 | Type::I16 | Type::I32 | Type::I64 => clif::iconst(
            &mut trans.builder,
            ty,
            expanded,
        ),
        Type::I128 => {
            let lo: Value = clif::iconst(&mut trans.builder, Type::I64, expanded);
            let hi: Value = clif::iconst(&mut trans.builder, Type::I64, expanded);
            clif::iconcat(&mut trans.builder, lo, hi)
        },
    }
}

/// Generate code for loading a value of `size` bytes that the guest stored at the host address
/// `addr`.
pub fn load_host(trans: &mut Translator<'_>, addr: Value, size: u8) -> (value: Value)
    requires
        translator::native_size(size),
        size == 16 ==> old(trans).ctx.endianness is Little,
        old(trans).wf(),
        old(trans).func().room(25),
        old(trans).func().has_type(addr, Type::I64),
    ensures
        (final(trans).func(), value) == old(trans).func().load_host(
            old(trans).ctx.endianness,
            addr,
            translator::type_of_size(size),
        ),
        final(trans).same_but_func(old(trans)),
        old(trans).func().grows_to(final(trans).func(), 25),
        final(trans).func().has_type(value, translator::type_of_size(size)),
{
    reveal(Func::load_host);
    let ty: Type = sized_int(size);

    let mut flags: MemFlags = MemFlags::trusted().with_heap();
    clif::set_endianness(&mut flags, trans.ctx.endianness);
    let mut result: Value = clif::load(&mut trans.builder, ty, flags, addr, 0);

    // Setting the endianness has no effect in the x86_64 backend of Cranelift, so the bytes are
    // swapped here.
    if trans.ctx.endianness != Endianness::Little {
        result = bswap(trans, result, ty);
    }
    result
}

/// Generate code for storing `value`, an integer of `size` bytes, at the host address `addr` in
/// the byte order of the guest.
pub fn store_host(trans: &mut Translator<'_>, addr: Value, value: Value, size: u8)
    requires
        translator::native_size(size),
        size == 16 ==> old(trans).ctx.endianness is Little,
        old(trans).wf(),
        old(trans).func().room(25),
        old(trans).func().has_type(addr, Type::I64),
        old(trans).func().has_type(value, translator::type_of_size(size)),
    ensures
        final(trans).func() == old(trans).func().store_host(
            old(trans).ctx.endianness,
            addr,
            value,
            translator::type_of_size(size),
        ),
        final(trans).same_but_func(old(trans)),
        old(trans).func().grows_to(final(trans).func(), 25),
{
    reveal(Func::store_host);
    let ty: Type = sized_int(size);
    let mut flags: MemFlags = MemFlags::trusted().with_heap();
    clif::set_endianness(&mut flags, trans.ctx.endianness);
    // Setting the endianness has no effect in the x86_64 backend of Cranelift, so the bytes are
    // swapped here.
    let mut value: Value = value;
    if trans.ctx.endianness != Endianness::Little {
        value = bswap(trans, value, ty);
    }
    clif::store(&mut trans.builder, flags, value, addr, 0);
}

/// Generate code that checks whether an access to `guest_addr`, whose value is `guest_addr_val`,
/// can be made without the emulator, and goes to `fallback_block` where it cannot. The result is
/// the host address of the access.
pub fn try_inline_access(
    trans: &mut Translator<'_>,
    guest_addr: pcode::Value,
    guest_addr_val: Value,
    size: u8,
    kind: AccessKind,
    fallback_block: Block,
) -> (host_addr: Value)
    requires
        translator::native_size(size),
        old(trans).wf(),
        old(trans).func().room(26),
        old(trans).func().has_type(guest_addr_val, Type::I64),
        old(trans).func().can_branch(fallback_block),
    ensures
        (final(trans).func(), host_addr) == old(trans).func().try_inline_access(
            old(trans).layout,
            old(trans).tlb_ptr,
            guest_addr,
            guest_addr_val,
            translator::type_of_size(size),
            kind,
            fallback_block,
        ),
        final(trans).same_but_func(old(trans)),
        old(trans).func().grows_to(final(trans).func(), 26),
        final(trans).func().has_type(host_addr, Type::I64),
{
    reveal(Func::try_inline_access);
    if let pcode::Value::Const(guest_addr, _) = guest_addr {
        return try_inline_access_const(trans, guest_addr, size, kind, fallback_block);
    }
    if size != 1 {
        // The JIT currently only supports fully aligned loads/stores, so check that here. This also
        // ensures that any loads/stores will not cross page boundaries.
        check_alignment(trans, guest_addr_val, size, fallback_block);
    }
    // Translate the guest address to a host address.
    let page_ptr: Value = tlb_lookup(trans, guest_addr_val, kind, fallback_block);
    let mask: i64 = trans.layout.page_offset_mask() as i64;
    let offset: Value = clif::band_imm(&mut trans.builder, guest_addr_val, mask);
    let host_addr: Value = clif::iadd(&mut trans.builder, page_ptr, offset);

    let perm: u8 = kind.perm(&trans.layout);
    check_perm(trans, host_addr, size, perm, fallback_block);

    host_addr
}

/// Generate code that checks whether an access to the constant address `guest_addr` can be made
/// without the emulator, and goes to `fallback_block` where it cannot. The result is the host
/// address of the access.
pub fn try_inline_access_const(
    trans: &mut Translator<'_>,
    guest_addr: u64,
    size: u8,
    kind: AccessKind,
    fallback_block: Block,
) -> (host_addr: Value)
    requires
        translator::native_size(size),
        old(trans).wf(),
        old(trans).func().room(18),
        old(trans).func().can_branch(fallback_block),
    ensures
        (final(trans).func(), host_addr) == old(trans).func().inline_access_const(
            old(trans).layout,
            old(trans).tlb_ptr,
            guest_addr,
            translator::type_of_size(size),
            kind,
            fallback_block,
        ),
        final(trans).same_but_func(old(trans)),
        old(trans).func().grows_to(final(trans).func(), 18),
        final(trans).func().has_type(host_addr, Type::I64),
{
    let page_ptr: Value = tlb_lookup_const(trans, guest_addr, kind, fallback_block);
    let mask: u64 = trans.layout.page_offset_mask();
    proof {
        layout::lemma_mask_is_mod(guest_addr, trans.layout.offset_bits as u64);
    }
    let offset: Value = clif::iconst(&mut trans.builder, Type::I64, (guest_addr & mask) as i64);
    let host_addr: Value = clif::iadd(&mut trans.builder, page_ptr, offset);

    let perm: u8 = kind.perm(&trans.layout);
    check_perm(trans, host_addr, size, perm, fallback_block);

    host_addr
}

/// Generate code for the bitwise or of `x` and `y`.
fn or(trans: &mut Translator<'_>, x: Value, y: Value) -> (r: Value)
    requires
        old(trans).func().open(),
        old(trans).func().room(1),
        old(trans).func().is_int(x),
        old(trans).func().has_type(y, old(trans).func().int_type(x)),
    ensures
        (final(trans).func(), r) == old(trans).func().or(x, y),
        final(trans).same_but_func(old(trans)),
        old(trans).func().grows_to(final(trans).func(), 1),
        final(trans).func().has_type(r, old(trans).func().int_type(x)),
{
    reveal(Func::or);
    clif::bor(&mut trans.builder, x, y)
}

/// Swaps the byteorder of `input`.
#[verifier::rlimit(60)]
#[verifier::spinoff_prover]
pub fn bswap(trans: &mut Translator<'_>, input: Value, ty: Type) -> (r: Value)
    requires
        !(ty is I128),
        old(trans).func().open(),
        old(trans).func().room(23),
        old(trans).func().has_type(input, ty),
    ensures
        (final(trans).func(), r) == old(trans).func().bswap(input, ty),
        final(trans).same_but_func(old(trans)),
        old(trans).func().grows_to(final(trans).func(), 23),
        final(trans).func().has_type(r, ty),
{
    match ty {
        Type::I16 => {
            let a: Value = rshift_and_mask(trans, input, 8, 0x00ff);
            let b: Value = lshift_and_mask(trans, input, 8, 0xff00);
            or(trans, a, b)
        },
        Type::I32 => {
            let a: Value = rshift_and_mask(trans, input, 24, 0x000000ff);
            let b: Value = rshift_and_mask(trans, input, 8, 0x0000ff00);
            let c: Value = lshift_and_mask(trans, input, 8, 0x00ff0000);
            let d: Value = lshift_and_mask(trans, input, 24, 0xff000000);
            let ab: Value = or(trans, a, b);
            let cd: Value = or(trans, c, d);
            or(trans, ab, cd)
        },
        Type::I64 => {
            let a: Value = rshift_and_mask(trans, input, 56, 0x00000000_000000ff);
            let b: Value = rshift_and_mask(trans, input, 40, 0x00000000_0000ff00);
            let c: Value = rshift_and_mask(trans, input, 24, 0x00000000_00ff0000);
            let d: Value = rshift_and_mask(trans, input, 8, 0x00000000_ff000000);

            let e: Value = lshift_and_mask(trans, input, 8, 0x000000ff_00000000);
            let f: Value = lshift_and_mask(trans, input, 24, 0x0000ff00_00000000);
            let g: Value = lshift_and_mask(trans, input, 40, 0x00ff0000_00000000);
            let h: Value = lshift_and_mask(trans, input, 56, 0xff000000_00000000_u64 as i64);

            let ab: Value = or(trans, a, b);
            let cd: Value = or(trans, c, d);
            let abcd: Value = or(trans, ab, cd);

            let ef: Value = or(trans, e, f);
            let gh: Value = or(trans, g, h);
            let efgh: Value = or(trans, ef, gh);

            or(trans, abcd, efgh)
        },
        _ => input,
    }
}

/// Whether `value` is a multiple of `size`, a power of two.
pub fn is_aligned(value: u64, size: u8) -> (r: bool)
    requires
        size > 0,
    ensures
        r == (value & ((size - 1) as u64) == 0),
        translator::native_size(size) ==> r == (value % (size as u64) == 0),
{
    proof {
        assert(value & 0 == 0 && value & 1 == value % 2 && value & 3 == value % 4 && value & 7
            == value % 8 && value & 15 == value % 16) by (bit_vector);
    }
    value & (size as u64 - 1) == 0
}

} // verus!
