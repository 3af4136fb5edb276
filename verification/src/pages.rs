//! How the bytes of an access lie in the pages of the guest and of the host.

use crate::access::Host;
use crate::bytes;
use crate::ir::{Endianness, Type};
use crate::layout;
use crate::layout::MemLayout;
use crate::machine;
use crate::mem::AccessKind;
use vstd::arithmetic::power2::pow2;
use vstd::prelude::*;

verus! {

/// The number of the page of `addr`.
pub open spec fn page_of(layout: MemLayout, addr: u64) -> int {
    addr as int / pow2(layout.offset_bits as nat) as int
}

/// An aligned access does not cross the boundary of a page.
pub proof fn lemma_aligned_in_page(layout: MemLayout, addr: u64, ty: Type)
    requires
        layout.wf(),
        ty.size() <= pow2(layout.offset_bits as nat),
        addr as int % ty.size() as int == 0,
    ensures
        layout.offset_in_page(addr) + ty.size() <= pow2(layout.offset_bits as nat),
{
    let o = layout.offset_bits as nat;
    let k: nat = match ty {
        Type::I8 => 0,
        Type::I16 => 1,
        Type::I32 => 2,
        Type::I64 => 3,
        Type::I128 => 4,
    };
    vstd::arithmetic::power2::lemma2_to64();
    let s = ty.size() as int;
    assert(s == pow2(k));
    assert(k <= o) by {
        if o < k {
            vstd::arithmetic::power2::lemma_pow2_strictly_increases(o, k);
        }
    }
    let q = pow2((o - k) as nat) as int;
    vstd::arithmetic::power2::lemma_pow2_adds(k, (o - k) as nat);
    vstd::arithmetic::power2::lemma_pow2_pos((o - k) as nat);
    let c = addr as int / s;
    vstd::arithmetic::div_mod::lemma_fundamental_div_mod(addr as int, s);
    vstd::arithmetic::div_mod::lemma_truncate_middle(c, s, q);
    let r = c % q;
    assert(s * r + s <= s * q) by (nonlinear_arith)
        requires
            r <= q - 1,
            s >= 0,
    ;
}

/// An address `i` bytes further in the same page has the same page number.
proof fn lemma_page_of(layout: MemLayout, addr: u64, i: int)
    requires
        layout.wf(),
        0 <= i,
        layout.offset_in_page(addr) + i < pow2(layout.offset_bits as nat),
    ensures
        addr + i <= u64::MAX,
        page_of(layout, (addr + i) as u64) == page_of(layout, addr),
        layout.offset_in_page((addr + i) as u64) == layout.offset_in_page(addr) + i,
{
    let o = layout.offset_bits as nat;
    let p = pow2(o) as int;
    layout::lemma_shl_one(layout.offset_bits as u64);
    vstd::arithmetic::power2::lemma_pow2_adds(o, (64 - o) as nat);
    vstd::arithmetic::power2::lemma2_to64();
    vstd::arithmetic::div_mod::lemma_fundamental_div_mod(addr as int, p);
    let c = addr as int / p;
    let r = addr as int % p;
    let q = pow2((64 - o) as nat) as int;
    vstd::arithmetic::div_mod::lemma_multiply_divide_lt(addr as int, p, q);
    assert(p * c + p <= p * q) by (nonlinear_arith)
        requires
            c <= q - 1,
            p >= 0,
    ;
    vstd::arithmetic::div_mod::lemma_fundamental_div_mod_converse(addr + i, p, c, r + i);
}

/// The index and the tag of an address are those of its page.
proof fn lemma_tag_of_page(layout: MemLayout, addr: u64)
    requires
        layout.wf(),
    ensures
        layout.tag_of(addr) == (page_of(layout, addr) / pow2(layout.tlb_index_bits as nat) as int) % (
        pow2(layout.tlb_tag_bits as nat) as int),
{
    let o = layout.offset_bits as nat;
    let i = layout.tlb_index_bits as nat;
    vstd::arithmetic::power2::lemma_pow2_pos(o);
    vstd::arithmetic::power2::lemma_pow2_pos(i);
    vstd::arithmetic::power2::lemma_pow2_adds(o, i);
    vstd::arithmetic::div_mod::lemma_div_denominator(addr as int, pow2(o) as int, pow2(i) as int);
}

/// Each byte of an access that the generated code makes by itself lies in the page of the address,
/// and stands in the host's memory as many bytes after the host address as it stands after the
/// address in the guest's.
pub proof fn lemma_access_in_page(host: Host, kind: AccessKind, addr: u64, ty: Type, i: int)
    requires
        host.layout.wf(),
        ty.size() <= pow2(host.layout.offset_bits as nat),
        host.is_inline(kind, addr, ty),
        0 <= i < ty.size(),
    ensures
        addr + i <= u64::MAX,
        page_of(host.layout, (addr + i) as u64) == page_of(host.layout, addr),
        host.is_cached(kind, (addr + i) as u64),
        host.host_addr(kind, (addr + i) as u64) == machine::offset_addr(
            host.host_addr(kind, addr) as int,
            i,
        ),
{
    let layout = host.layout;
    let next = (addr + i) as u64;
    lemma_aligned_in_page(layout, addr, ty);
    lemma_page_of(layout, addr, i);
    lemma_tag_of_page(layout, addr);
    lemma_tag_of_page(layout, next);
    assert(host.entry_addr(kind, next) == host.entry_addr(kind, addr));
    let base = host.page_addr(kind, addr) as int;
    let o = layout.offset_in_page(addr);
    vstd::arithmetic::div_mod::lemma_add_mod_noop(base + o, i, machine::two64());
    vstd::arithmetic::div_mod::lemma_small_mod(i as nat, machine::two64() as nat);
}

/// The tag and the pointer of the entry for `addr`, 8 bytes each, lie among the entries for the kind
/// of access, and outside of the entries for the other kind.
pub proof fn lemma_entry_in_array(layout: MemLayout, kind: AccessKind, addr: u64)
    requires
        layout.wf(),
    ensures
        ({
            let tag = kind.offset_in_tlb(layout) + layout.index_of(addr) * layout.tlb_entry_size;
            let ptr = tag + 8;
            let other = match kind {
                AccessKind::Load => AccessKind::Store.offset_in_tlb(layout),
                AccessKind::Store => AccessKind::Load.offset_in_tlb(layout),
            };
            &&& kind.offset_in_tlb(layout) <= tag
            &&& ptr + 8 <= kind.offset_in_tlb(layout) + layout.array_size()
            &&& ptr + 8 <= other || other + layout.array_size() <= tag
        }),
{
    reveal(MemLayout::array_size);
    layout::lemma_entry_offset_fits(layout, addr);
    let index = layout.index_of(addr);
    let n = pow2(layout.tlb_index_bits as nat) as int;
    let size = layout.tlb_entry_size as int;
    assert(index * size + size <= n * size) by (nonlinear_arith)
        requires
            index <= n - 1,
            size >= 0,
    ;
}

/// The loads of a lookup read the tag and the pointer of the entry where the layout has them.
pub proof fn lemma_entry_addr(host: Host, kind: AccessKind, addr: u64)
    requires
        host.layout.wf(),
    ensures
        ({
            let tag = kind.offset_in_tlb(host.layout) + host.layout.index_of(addr)
                * host.layout.tlb_entry_size;
            &&& host.entry_addr(kind, addr) == machine::offset_addr(host.tlb as int, tag)
            &&& machine::offset_addr(host.entry_addr(kind, addr) as int, 8)
                == machine::offset_addr(host.tlb as int, tag + 8)
        }),
{
}

/// Where the offset, the index and the tag make up the whole of an address, an entry of the
/// translation cache is for one page only.
pub proof fn lemma_cached_page(host: Host, kind: AccessKind, a: u64, b: u64)
    requires
        host.layout.wf(),
        host.layout.offset_bits + host.layout.tlb_index_bits + host.layout.tlb_tag_bits >= 64,
        host.layout.index_of(a) == host.layout.index_of(b),
        host.is_cached(kind, a),
        host.is_cached(kind, b),
    ensures
        page_of(host.layout, a) == page_of(host.layout, b),
{
    lemma_page_parts(host.layout, a);
    lemma_page_parts(host.layout, b);
}

/// The number of a page is made up of the index and the tag.
proof fn lemma_page_parts(layout: MemLayout, addr: u64)
    requires
        layout.wf(),
        layout.offset_bits + layout.tlb_index_bits + layout.tlb_tag_bits >= 64,
    ensures
        page_of(layout, addr) == pow2(layout.tlb_index_bits as nat) * layout.tag_of(addr)
            + layout.index_of(addr),
{
    let shift = (layout.offset_bits + layout.tlb_index_bits) as nat;
    let t = layout.tlb_tag_bits as nat;
    let n = pow2(layout.tlb_index_bits as nat) as int;
    let page = page_of(layout, addr);
    lemma_tag_of_page(layout, addr);
    vstd::arithmetic::power2::lemma_pow2_pos(layout.tlb_index_bits as nat);
    vstd::arithmetic::power2::lemma_pow2_pos(layout.offset_bits as nat);
    vstd::arithmetic::power2::lemma_pow2_pos(shift);
    vstd::arithmetic::power2::lemma_pow2_adds(
        layout.offset_bits as nat,
        layout.tlb_index_bits as nat,
    );
    vstd::arithmetic::div_mod::lemma_div_denominator(
        addr as int,
        pow2(layout.offset_bits as nat) as int,
        n,
    );
    vstd::arithmetic::power2::lemma_pow2_adds(shift, t);
    vstd::arithmetic::power2::lemma2_to64();
    if shift + t > 64 {
        vstd::arithmetic::power2::lemma_pow2_strictly_increases(64, shift + t);
    }
    vstd::arithmetic::div_mod::lemma_multiply_divide_lt(
        addr as int,
        pow2(shift) as int,
        pow2(t) as int,
    );
    let tag = page / n;
    assert(0 <= page) by {
        vstd::arithmetic::div_mod::lemma_div_pos_is_pos(
            addr as int,
            pow2(layout.offset_bits as nat) as int,
        );
    }
    vstd::arithmetic::div_mod::lemma_div_pos_is_pos(page, n);
    vstd::arithmetic::div_mod::lemma_small_mod(tag as nat, pow2(t));
    vstd::arithmetic::div_mod::lemma_fundamental_div_mod(page, n);
}

/// What is stored at an address is there when it is loaded.
pub proof fn lemma_load_of_store(
    mem: spec_fn(u64) -> u8,
    addr: u64,
    endianness: Endianness,
    x: u128,
    ty: Type,
)
    requires
        x <= ty.mask(),
    ensures
        bytes::decode(
            endianness,
            machine::bytes_at(
                machine::with_bytes(mem, addr, bytes::encode(endianness, x as nat, ty.size())),
                addr,
                ty.size(),
            ),
        ) == x,
{
    let n = ty.size();
    vstd::arithmetic::power2::lemma2_to64();
    vstd::arithmetic::power2::lemma2_to64_rest();
    vstd::arithmetic::power2::lemma_pow2_adds(64, 64);
    bytes::lemma_decode_encode(endianness, x as nat, n);
    let stored = bytes::encode(endianness, x as nat, n);
    let after = machine::with_bytes(mem, addr, stored);
    assert forall|i: int| 0 <= i < n implies #[trigger] machine::bytes_at(after, addr, n)[i]
        == stored[i] by {
        let a = machine::offset_addr(addr as int, i);
        assert((a - addr) % machine::two64() == i);
    }
    assert(machine::bytes_at(after, addr, n) =~= stored);
}

/// A store leaves alone what does not overlap it.
pub proof fn lemma_store_elsewhere(
    mem: spec_fn(u64) -> u8,
    addr: u64,
    stored: Seq<u8>,
    other: u64,
    n: nat,
)
    requires
        stored.len() <= (other - addr) % machine::two64(),
        (other - addr) % machine::two64() + n <= machine::two64(),
    ensures
        machine::bytes_at(machine::with_bytes(mem, addr, stored), other, n) == machine::bytes_at(
            mem,
            other,
            n,
        ),
{
    let after = machine::with_bytes(mem, addr, stored);
    assert forall|i: int| 0 <= i < n implies #[trigger] machine::bytes_at(after, other, n)[i]
        == machine::bytes_at(mem, other, n)[i] by {
        let a = machine::offset_addr(other as int, i);
        let d = (other - addr) % machine::two64();
        assert((a - addr) % machine::two64() == d + i);
    }
    assert(machine::bytes_at(after, other, n) =~= machine::bytes_at(mem, other, n));
}

} // verus!
