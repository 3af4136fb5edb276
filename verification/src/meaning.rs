//! What the numbers that decide about an access mean: the bytes of an integer, the parts of an
//! address, the entry of the translation cache, and the permissions.

use crate::access::Host;
use crate::bytes;
use crate::code;
use crate::flow;
use crate::ir::{Block, Endianness, Func, Inst, MemFlag, Op, Type, Value};
use crate::laws;
use crate::layout;
use crate::layout::MemLayout;
use crate::machine;
use crate::machine::Machine;
use crate::mem::AccessKind;
use vstd::arithmetic::power2::pow2;
use vstd::prelude::*;

verus! {

/// A byte of an integer is a digit of it to the base 256.
pub proof fn lemma_to_le_byte(x: nat, n: nat, i: int)
    requires
        0 <= i < n,
    ensures
        bytes::to_le(x, n).len() == n,
        bytes::to_le(x, n)[i] as int == (x as int / pow2((8 * i) as nat) as int) % 256,
    decreases n,
{
    bytes::lemma_to_le_len(x, n);
    bytes::lemma_to_le_len(x / 256, (n - 1) as nat);
    vstd::arithmetic::power2::lemma2_to64();
    if i > 0 {
        let j = (8 * (i - 1)) as nat;
        lemma_to_le_byte(x / 256, (n - 1) as nat, i - 1);
        vstd::arithmetic::power2::lemma_pow2_adds(8, j);
        vstd::arithmetic::power2::lemma_pow2_pos(j);
        vstd::arithmetic::div_mod::lemma_div_denominator(x as int, 256, pow2(j) as int);
        assert((8 * i) as nat == 8 + j);
        assert((x as int / 256) / pow2(j) as int == x as int / pow2((8 * i) as nat) as int);
    } else {
        assert(x as int / pow2(0) as int == x);
    }
}

/// An integer whose digits to the base 256 are the bytes is the integer that the bytes are.
pub proof fn lemma_from_digits(s: Seq<u8>, x: nat)
    requires
        x < pow2(8 * s.len()),
        forall|i: int|
            0 <= i < s.len() ==> #[trigger] s[i] as int == (x as int / pow2((8 * i) as nat) as int)
                % 256,
    ensures
        bytes::from_le(s) == x,
{
    let t = bytes::to_le(x, s.len());
    bytes::lemma_to_le_len(x, s.len());
    assert forall|i: int| 0 <= i < s.len() implies #[trigger] t[i] == s[i] by {
        lemma_to_le_byte(x, s.len(), i);
    }
    assert(t =~= s);
    bytes::lemma_from_to_le(x, s.len());
}

/// The integer that bytes in memory are has these bytes as its digits to the base 256: the first byte
/// is the lowest digit in the little-endian order, and the highest in the big-endian order.
pub proof fn lemma_decode_digit(endianness: Endianness, s: Seq<u8>, i: int)
    requires
        0 <= i < s.len(),
    ensures
        bytes::decode(endianness, s) < pow2(8 * s.len()),
        (bytes::decode(endianness, s) as int / pow2((8 * i) as nat) as int) % 256 == s[if endianness
            == Endianness::Little {
            i
        } else {
            s.len() - 1 - i
        }],
{
    let t = if endianness == Endianness::Little {
        s
    } else {
        s.reverse()
    };
    bytes::lemma_from_le_bound(t);
    bytes::lemma_to_from_le(t);
    lemma_to_le_byte(bytes::from_le(t), t.len(), i);
}

/// The bytes of an integer in memory are its digits to the base 256: the lowest digit comes first in
/// the little-endian order, and last in the big-endian order.
pub proof fn lemma_encode_digit(endianness: Endianness, x: nat, n: nat, i: int)
    requires
        0 <= i < n,
    ensures
        bytes::encode(endianness, x, n).len() == n,
        bytes::encode(endianness, x, n)[if endianness == Endianness::Little {
            i
        } else {
            n - 1 - i
        }] as int == (x as int / pow2((8 * i) as nat) as int) % 256,
{
    bytes::lemma_to_le_len(x, n);
    lemma_to_le_byte(x, n, i);
}

/// An integer with its bytes swapped has the same digits to the base 256 in the opposite order.
pub proof fn lemma_swapped_digit(x: nat, n: nat, i: int)
    requires
        0 <= i < n,
    ensures
        bytes::swapped(x, n) < pow2(8 * n),
        (bytes::swapped(x, n) as int / pow2((8 * i) as nat) as int) % 256 == (x as int / pow2(
            (8 * (n - 1 - i)) as nat,
        ) as int) % 256,
{
    bytes::lemma_to_le_len(x, n);
    lemma_decode_digit(Endianness::Little, bytes::to_le(x, n).reverse(), i);
    lemma_to_le_byte(x, n, n - 1 - i);
}

/// A repeated byte is every digit to the base 256.
pub proof fn lemma_repeated_digit(value: u8, n: nat, i: int)
    requires
        0 <= i < n,
    ensures
        code::repeated(value, n) < pow2(8 * n),
        (code::repeated(value, n) as int / pow2((8 * i) as nat) as int) % 256 == value,
    decreases n,
{
    let x = code::repeated(value, n);
    code::lemma_repeated_fits(value, n);
    vstd::arithmetic::power2::lemma2_to64();
    if i > 0 {
        let j = (8 * (i - 1)) as nat;
        lemma_repeated_digit(value, (n - 1) as nat, i - 1);
        vstd::arithmetic::power2::lemma_pow2_adds(8, j);
        vstd::arithmetic::power2::lemma_pow2_pos(j);
        vstd::arithmetic::div_mod::lemma_div_denominator(x as int, 256, pow2(j) as int);
        assert((8 * i) as nat == 8 + j);
        assert((x as int / 256) / pow2(j) as int == x as int / pow2((8 * i) as nat) as int);
    } else {
        assert(x as int / pow2(0) as int == x);
    }
}

/// An address is made up of its offset in the page, its index, its tag and what is above the tag.
/// Each part is smaller than the power of two of the bits that it has, so there is one way only.
pub proof fn lemma_address_parts(layout: MemLayout, a: u64)
    requires
        layout.wf(),
    ensures
        ({
            let o = pow2(layout.offset_bits as nat) as int;
            let i = pow2(layout.tlb_index_bits as nat) as int;
            let t = pow2(layout.tlb_tag_bits as nat) as int;
            let above = a as int / (o * i * t);
            &&& 0 <= layout.offset_in_page(a) < o
            &&& 0 <= layout.index_of(a) < i
            &&& 0 <= layout.tag_of(a) < t
            &&& a == layout.offset_in_page(a) + o * (layout.index_of(a) + i * (layout.tag_of(a) + t
                * above))
        }),
{
    let o = pow2(layout.offset_bits as nat) as int;
    let i = pow2(layout.tlb_index_bits as nat) as int;
    let t = pow2(layout.tlb_tag_bits as nat) as int;
    vstd::arithmetic::power2::lemma_pow2_pos(layout.offset_bits as nat);
    vstd::arithmetic::power2::lemma_pow2_pos(layout.tlb_index_bits as nat);
    vstd::arithmetic::power2::lemma_pow2_pos(layout.tlb_tag_bits as nat);
    vstd::arithmetic::power2::lemma_pow2_adds(
        layout.offset_bits as nat,
        layout.tlb_index_bits as nat,
    );
    let x = a as int;
    let page = x / o;
    let high = page / i;
    vstd::arithmetic::div_mod::lemma_div_denominator(x, o, i);
    assert(o * i > 0) by (nonlinear_arith)
        requires
            o > 0,
            i > 0,
    ;
    vstd::arithmetic::div_mod::lemma_div_denominator(x, o * i, t);
    vstd::arithmetic::div_mod::lemma_fundamental_div_mod(x, o);
    vstd::arithmetic::div_mod::lemma_fundamental_div_mod(page, i);
    vstd::arithmetic::div_mod::lemma_fundamental_div_mod(high, t);
    vstd::arithmetic::div_mod::lemma_mod_bound(x, o);
    vstd::arithmetic::div_mod::lemma_mod_bound(page, i);
    vstd::arithmetic::div_mod::lemma_mod_bound(high, t);
}

/// A permission byte has what a load needs exactly if it has each of the bits for reading, for
/// initialised memory and for mapped memory, and what a store needs exactly if it has each of those
/// for writing and for mapped memory.
pub proof fn lemma_required(layout: MemLayout, byte: u8)
    ensures
        ({
            let load = AccessKind::Load.required(layout);
            let store = AccessKind::Store.required(layout);
            let perm = layout.perm;
            &&& byte & load == load <==> byte & perm.read == perm.read && byte & perm.init
                == perm.init && byte & perm.map == perm.map
            &&& byte & store == store <==> byte & perm.write == perm.write && byte & perm.map
                == perm.map
        }),
{
    let r = layout.perm.read;
    let w = layout.perm.write;
    let i = layout.perm.init;
    let p = layout.perm.map;
    assert(byte & (r | i | p) == (r | i | p) <==> byte & r == r && byte & i == i && byte & p == p)
        by (bit_vector);
    assert(byte & (w | p) == (w | p) <==> byte & w == w && byte & p == p) by (bit_vector);
}

/// The access that the generated code makes by itself, in terms of the bytes of the host's memory.
/// The entry for a guest address `a` stands as many entries after the first one for the kind of
/// access as the index says; it holds a tag, the bytes `tags`, and after it a pointer, the bytes
/// `ptr`, each with the lowest byte first. The access is made by itself exactly if `a` is a multiple
/// of the size, the tag is that of `a`, and each of the bytes `perms` beside the page has the
/// permissions; it is then made at the offset of `a` from the pointer.
pub proof fn lemma_host(
    host: Host,
    kind: AccessKind,
    a: u64,
    ty: Type,
    entry: int,
    tags: Seq<u8>,
    ptr: Seq<u8>,
    page: nat,
    target: int,
    perms: Seq<u8>,
)
    requires
        host.layout.wf(),
        entry == host.tlb + (if kind == AccessKind::Load {
            host.layout.tlb_read_offset
        } else {
            host.layout.tlb_write_offset
        }) + host.layout.index_of(a) * host.layout.tlb_entry_size,
        tags.len() == 8,
        forall|i: int|
            0 <= i < 8 ==> #[trigger] tags[i] == (host.mem)(
                ((entry + i) % 0x1_0000_0000_0000_0000) as u64,
            ),
        ptr.len() == 8,
        forall|i: int|
            0 <= i < 8 ==> #[trigger] ptr[i] == (host.mem)(
                ((entry + 8 + i) % 0x1_0000_0000_0000_0000) as u64,
            ),
        page < 0x1_0000_0000_0000_0000,
        forall|i: int|
            0 <= i < 8 ==> #[trigger] ptr[i] as int == (page as int / pow2((8 * i) as nat) as int)
                % 256,
        target == page + host.layout.offset_in_page(a),
        perms.len() == ty.size(),
        forall|i: int|
            0 <= i < ty.size() ==> #[trigger] perms[i] == (host.mem)(
                ((target + host.layout.perm_offset + i) % 0x1_0000_0000_0000_0000) as u64,
            ),
    ensures
        ({
            let needed = if kind == AccessKind::Load {
                host.layout.perm.read | host.layout.perm.init | host.layout.perm.map
            } else {
                host.layout.perm.write | host.layout.perm.map
            };
            let cached = forall|i: int|
                0 <= i < 8 ==> #[trigger] tags[i] as int == (host.layout.tag_of(a) / pow2(
                    (8 * i) as nat,
                ) as int) % 256;
            let permitted = forall|i: int|
                0 <= i < ty.size() ==> #[trigger] perms[i] & needed == needed;
            &&& host.page_addr(kind, a) == page
            &&& host.host_addr(kind, a) == target % 0x1_0000_0000_0000_0000
            &&& host.is_cached(kind, a) <==> cached
            &&& host.is_accessible(kind, a, ty) <==> cached && permitted
            &&& host.is_inline(kind, a, ty) <==> a as int % ty.size() as int == 0 && cached
                && permitted
        }),
{
    let first = if kind == AccessKind::Load {
        host.layout.tlb_read_offset
    } else {
        host.layout.tlb_write_offset
    };
    let eo = host.layout.index_of(a) * host.layout.tlb_entry_size;
    let t = host.layout.tag_of(a);
    let e = host.entry_addr(kind, a);
    vstd::arithmetic::power2::lemma2_to64();
    vstd::arithmetic::power2::lemma2_to64_rest();
    layout::lemma_tag_fits(host.layout, a);
    assert(e == machine::offset_addr(host.tlb + eo, first as int));

    let ptr_at = machine::bytes_at(host.mem, machine::offset_addr(e as int, 8), 8);
    assert forall|i: int| 0 <= i < 8 implies #[trigger] ptr_at[i] == ptr[i] by {
        lemma_offsets(host.tlb + eo, first as int, 8, i);
    }
    assert(ptr_at =~= ptr);
    lemma_from_digits(ptr, page);

    let tags_at = machine::bytes_at(host.mem, e, 8);
    assert forall|i: int| 0 <= i < 8 implies #[trigger] tags_at[i] == tags[i] by {
        lemma_offsets(host.tlb + eo, first as int, 0, i);
    }
    assert(tags_at =~= tags);
    if forall|i: int|
        0 <= i < 8 ==> #[trigger] tags[i] as int == (t / pow2((8 * i) as nat) as int) % 256 {
        lemma_from_digits(tags, t as nat);
    }
    if host.is_cached(kind, a) {
        bytes::lemma_to_from_le(tags);
        assert forall|i: int| 0 <= i < 8 implies #[trigger] tags[i] as int == (t / pow2(
            (8 * i) as nat,
        ) as int) % 256 by {
            lemma_to_le_byte(t as nat, 8, i);
        }
    }
    let perms_at = host.perm_bytes(host.host_addr(kind, a), ty.size());
    let p = host.layout.perm_offset as int;
    assert forall|i: int| 0 <= i < ty.size() implies #[trigger] perms_at[i] == perms[i] by {
        lemma_offsets(page as int, host.layout.offset_in_page(a), p, i);
    }
    assert(perms_at =~= perms);
}

/// Three offsets are one.
proof fn lemma_offsets(base: int, x: int, y: int, z: int)
    ensures
        machine::offset_addr(
            machine::offset_addr(machine::offset_addr(base, x) as int, y) as int,
            z,
        ) == ((base + x + y + z) % 0x1_0000_0000_0000_0000) as u64,
        machine::offset_addr(machine::offset_addr(base, x) as int, z) == ((base + x + z)
            % 0x1_0000_0000_0000_0000) as u64,
{
}

/// Bytes are permitted exactly if each of the bytes `perms`, which stand in the host's memory as far
/// after them as the layout says, has all of the bits of `perm`.
pub proof fn lemma_permitted(host: Host, host_addr: u64, perm: u8, perms: Seq<u8>)
    requires
        forall|i: int|
            0 <= i < perms.len() ==> #[trigger] perms[i] == (host.mem)(
                ((host_addr + host.layout.perm_offset + i) % 0x1_0000_0000_0000_0000) as u64,
            ),
    ensures
        host.is_permitted(host_addr, perms.len(), perm) <==> forall|i: int|
            0 <= i < perms.len() ==> #[trigger] perms[i] & perm == perm,
{
    let at = host.perm_bytes(host_addr, perms.len());
    assert(at =~= perms);
}

/// The sizes and the largest integers of the types.
pub proof fn lemma_types()
    ensures
        Type::I8.size() == 1 && Type::I8.mask() == 0xff,
        Type::I16.size() == 2 && Type::I16.mask() == 0xffff,
        Type::I32.size() == 4 && Type::I32.mask() == 0xffff_ffff,
        Type::I64.size() == 8 && Type::I64.mask() == 0xffff_ffff_ffff_ffff,
        Type::I128.size() == 16 && Type::I128.mask() == u128::MAX,
        forall|ty: Type| #[trigger] ty.bits() == 8 * ty.size(),
{
}

/// What each operation that defines a value computes from the values of its operands.
pub proof fn lemma_eval(m: Machine, ty: Type, x: Value, y: Value, imm: i64)
    ensures
        m.eval(Op::Iconst { ty, imm }) == ((imm as u64) as u128) & ty.mask(),
        m.eval(Op::BandImm { ty, x, imm }) == m.val(x) & ((imm as u64) as u128),
        m.eval(Op::UshrImm { ty, x, imm }) == m.val(x) >> (((imm as u64) as int % (8
            * ty.size() as int)) as u128),
        m.eval(Op::IshlImm { ty, x, imm }) == (m.val(x) << (((imm as u64) as int % (8
            * ty.size() as int)) as u128)) & ty.mask(),
        m.eval(Op::Iadd { ty, x, y }) == ((m.val(x) + m.val(y)) % (ty.mask() + 1)) as u128,
        m.eval(Op::Band { ty, x, y }) == m.val(x) & m.val(y),
        m.eval(Op::Bor { ty, x, y }) == m.val(x) | m.val(y),
        m.eval(Op::Iconcat { lo: x, hi: y }) == (m.val(x) + 0x1_0000_0000_0000_0000 * m.val(y))
            as u128,
{
}

/// What a load computes: the bytes from the address on, the lowest first, are the digits of the result
/// to the base 256.
pub proof fn lemma_eval_load(
    m: Machine,
    ty: Type,
    flags: Set<MemFlag>,
    addr: Value,
    offset: i32,
    i: int,
)
    requires
        0 <= i < ty.size(),
    ensures
        m.eval(Op::Load { ty, flags, addr, offset }) < pow2(8 * ty.size()),
        (m.eval(Op::Load { ty, flags, addr, offset }) as int / pow2((8 * i) as nat) as int) % 256
            == (m.mem)(((m.val(addr) + offset + i) % 0x1_0000_0000_0000_0000) as u64),
{
    let at = machine::offset_addr(m.val(addr) as int, offset as int);
    let s = machine::bytes_at(m.mem, at, ty.size());
    lemma_decode_digit(Endianness::Little, s, i);
    laws::lemma_type_mask(ty);
}

/// What a step does to the values and to the memory, and where it goes. A branch or a jump to a block
/// without parameters keeps every value; one to a block with one parameter sets it.
pub proof fn lemma_step(f: Func, m: Machine, inst: Inst, v: Value, b: u64)
    requires
        f.is_block(m.block),
        m.pc < f.blocks[m.block.index as int].insts.len(),
        inst == f.blocks[m.block.index as int].insts[m.pc as int],
    ensures
        ({
            let next = m.step(f);
            let to = next->0;
            let steps = next is Some && to.block == m.block && to.pc == m.pc + 1;
            &&& inst.op.computes() ==> {
                &&& steps
                &&& to.val(v) == if v == inst.results[0] {
                    m.eval(inst.op)
                } else {
                    m.val(v)
                }
                &&& (to.mem)(b) == (m.mem)(b)
            }
            &&& inst.op matches Op::Store { ty, value, addr, offset, .. } ==> {
                let d = (b - m.val(addr) - offset) % 0x1_0000_0000_0000_0000;
                &&& steps
                &&& to.val(v) == m.val(v)
                &&& (to.mem)(b) == if d < ty.size() {
                    (m.val(value) as int / pow2((8 * d) as nat) as int) % 256
                } else {
                    (m.mem)(b) as int
                }
            }
            &&& inst.op matches Op::Brnz { cond, target, args } ==> {
                &&& m.val(cond) == 0 ==> steps && to.env == m.env && to.mem == m.mem
                &&& m.val(cond) != 0 ==> next == m.enter(f, target, args)
            }
            &&& inst.op matches Op::BrInt { cc, x, y, target, args } ==> {
                let taken = (cc is Equal && m.val(x) == m.val(y)) || (cc is NotEqual && m.val(x)
                    != m.val(y));
                &&& !taken ==> steps && to.env == m.env && to.mem == m.mem
                &&& taken ==> next == m.enter(f, target, args)
            }
            &&& inst.op matches Op::Jump { target, args } ==> next == m.enter(f, target, args)
            &&& inst.op is Call || inst.op is Other ==> next is None
        }),
{
    match inst.op {
        Op::Store { ty, value, addr, offset, .. } => {
            let d = (b - m.val(addr) - offset) % 0x1_0000_0000_0000_0000;
            let at = machine::offset_addr(m.val(addr) as int, offset as int);
            bytes::lemma_to_le_len(m.val(value) as nat, ty.size());
            assert((b - at) % machine::two64() == d) by {
                assert(at == (m.val(addr) + offset) % machine::two64());
            }
            if d < ty.size() {
                lemma_to_le_byte(m.val(value) as nat, ty.size(), d);
            }
        },
        _ => {},
    }
}

/// Where a branch or a jump goes, and what it does to the values: the parameters of the block are set
/// to the arguments, and every other value and the memory are kept.
pub proof fn lemma_enter(f: Func, m: Machine, target: Block, args: Seq<Value>, v: Value)
    requires
        f.is_block(target),
        f.blocks[target.index as int].params.len() == args.len(),
    ensures
        ({
            let params = f.blocks[target.index as int].params;
            let next = m.enter(f, target, args);
            &&& next is Some
            &&& next->0.block == target && next->0.pc == 0
            &&& next->0.mem == m.mem
            &&& !params.contains(v) ==> next->0.val(v) == m.val(v)
            &&& params.len() == 1 && params[0] == v ==> next->0.val(v) == m.val(args[0])
        }),
{
    let params = f.blocks[target.index as int].params;
    if params.len() == 1 && params[0] == v {
        assert(params.contains(v));
        assert(params.index_of(v) == 0);
    }
}

/// What it means for a run to fall through or to leave: the machine takes steps in the code that has
/// been built up to `g`, each of them as that code says, until it is at the end of that code, or at
/// the start of the block `target`; every value that `f` has is kept.
pub proof fn lemma_runs(f: Func, m: Machine, g: Func, target: Block, m2: Machine)
    ensures
        flow::flows(f, m, g, m2) ==> {
            &&& m.reaches(g, m2)
            &&& g.cursor is Some && m2.block == g.cursor->0
            &&& m2.pc == g.blocks[m2.block.index as int].insts.len()
            &&& forall|v: Value| v.index < f.values.len() ==> #[trigger] m2.val(v) == m.val(v)
        },
        flow::leaves(f, m, g, target, m2) ==> {
            &&& m.reaches(g, m2)
            &&& m2.block == target && m2.pc == 0
            &&& forall|v: Value| v.index < f.values.len() ==> #[trigger] m2.val(v) == m.val(v)
        },
        m.reaches(g, m2) ==> m == m2 || (m.step(g) is Some && (m.step(g)->0).reaches(g, m2)),
{
    reveal(flow::flows);
    reveal(flow::leaves);
    if m.reaches(g, m2) {
        let n = choose|n: nat| #[trigger] m.run(g, n) == Some(m2);
        if n > 0 {
            assert((m.step(g)->0).run(g, (n - 1) as nat) == Some(m2));
        }
    }
}

} // verus!
