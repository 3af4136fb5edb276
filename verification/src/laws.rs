//! What the generated code does when it runs.

use crate::access::Host;
use crate::bytes;
use crate::code;
use crate::flow;
use crate::ir;
use crate::ir::{Block, Endianness, Func, IntCC, Op, Type, Value};
use crate::layout;
use crate::layout::MemLayout;
use crate::machine;
use crate::machine::Machine;
use crate::mem::AccessKind;
use vstd::arithmetic::power2::pow2;
use vstd::prelude::*;

verus! {

/// What a run that falls through keeps.
pub proof fn lemma_flows_keeps(f: Func, m: Machine, g: Func, m2: Machine)
    requires
        flow::flows(f, m, g, m2),
    ensures
        m2.at_end(g),
        m.agrees(f, m2),
{
    reveal(flow::flows);
}

/// The check of an address falls through where the address is a multiple of `bytes`, and leaves for
/// `target` where it is not.
pub proof fn lemma_check_alignment(
    f: Func,
    m: Machine,
    addr: Value,
    bytes: u8,
    target: Block,
) -> (m2: Machine)
    requires
        exists|k: nat| k < 8 && bytes == #[trigger] pow2(k),
        m.at_end(f),
        f.room(4),
        f.is_int(addr),
        f.can_branch(target),
        f.body(target).params.len() == 0,
    ensures
        m2.mem == m.mem,
        m2.val(addr) == m.val(addr),
        m.val(addr) % (bytes as u128) == 0 ==> flow::flows(
            f,
            m,
            f.check_alignment(addr, bytes, target),
            m2,
        ),
        m.val(addr) % (bytes as u128) != 0 ==> flow::leaves(
            f,
            m,
            f.check_alignment(addr, bytes, target),
            target,
            m2,
        ),
{
    let ty = f.int_type(addr);
    let g = f.check_alignment(addr, bytes, target);
    let a = m.val(addr);
    let k = choose|k: nat| k < 8 && bytes == #[trigger] pow2(k);
    vstd::arithmetic::power2::lemma2_to64();
    assert(a & 0 == 0 && a & 1 == a % 2 && a & 3 == a % 4 && a & 7 == a % 8 && a & 15 == a % 16 && a
        & 31 == a % 32 && a & 63 == a % 64 && a & 127 == a % 128) by (bit_vector);
    if bytes == 1 {
        assert(flow::flows(f, m, f, m)) by {
            reveal(flow::flows);
            assert(m.run(f, 0) == Some(m));
        }
        m
    } else {
        let imm = (bytes - 1) as i64;
        let band = Op::BandImm { ty, x: addr, imm };
        let g1 = f.define(band, ty);
        let m1 = m.set(f.next_value(), m.eval(band)).next();
        flow::lemma_flow_define(f, m, band, ty);
        lemma_flows_keeps(f, m, g1, m1);
        assert(m1.val(addr) == a);
        let br = Op::Brnz { cond: f.next_value(), target, args: seq![] };
        if a % (bytes as u128) == 0 {
            flow::lemma_flow_branch(g1, m1, br);
            let m2 = flow::entered(m1, g1.next_block());
            flow::lemma_flows_trans(f, m, g1, m1, g, m2);
            m2
        } else {
            flow::lemma_leave_branch(g1, m1, br, target);
            let m2 = flow::entered(m1, target);
            flow::lemma_flows_leaves(f, m, g1, m1, g, target, m2);
            m2
        }
    }
}

/// A shift to the right and a mask compute what they say.
pub proof fn lemma_rshift_and_mask(
    f: Func,
    m: Machine,
    x: Value,
    ty: Type,
    shift: i64,
    mask: i64,
) -> (m2: Machine)
    requires
        m.at_end(f),
        f.room(2),
        f.has_type(x, ty),
        0 <= shift < ty.bits(),
    ensures
        ({
            let (g, r) = f.rshift_and_mask(x, shift, mask);
            &&& flow::flows(f, m, g, m2)
            &&& m2.mem == m.mem
            &&& m2.val(r) == (m.val(x) >> (shift as u128)) & ((mask as u64) as u128)
            &&& m2.at_end(g)
            &&& m.agrees(f, m2)
            &&& f.grows_to(g, 2)
            &&& g.has_type(r, ty)
        }),
{
    reveal(Func::rshift_and_mask);
    let op = Op::UshrImm { ty, x, imm: shift };
    let g1 = f.define(op, ty);
    let m1 = m.set(f.next_value(), m.eval(op)).next();
    flow::lemma_flow_define(f, m, op, ty);
    lemma_flows_keeps(f, m, g1, m1);
    let op2 = Op::BandImm { ty, x: f.next_value(), imm: mask };
    let g = g1.define(op2, ty);
    let m2 = m1.set(g1.next_value(), m1.eval(op2)).next();
    flow::lemma_flow_define(g1, m1, op2, ty);
    flow::lemma_flows_trans(f, m, g1, m1, g, m2);
    lemma_flows_keeps(f, m, g, m2);
    assert((shift as u64) as int % ty.bits() == shift) by {
        vstd::arithmetic::div_mod::lemma_small_mod(shift as nat, ty.bits() as nat);
    }
    m2
}

/// A shift to the left and a mask compute what they say.
pub proof fn lemma_lshift_and_mask(
    f: Func,
    m: Machine,
    x: Value,
    ty: Type,
    shift: i64,
    mask: i64,
) -> (m2: Machine)
    requires
        m.at_end(f),
        f.room(2),
        f.has_type(x, ty),
        0 <= shift < ty.bits(),
    ensures
        ({
            let (g, r) = f.lshift_and_mask(x, shift, mask);
            &&& flow::flows(f, m, g, m2)
            &&& m2.mem == m.mem
            &&& m2.val(r) == ((m.val(x) << (shift as u128)) & ty.mask()) & ((mask as u64) as u128)
            &&& m2.at_end(g)
            &&& m.agrees(f, m2)
            &&& f.grows_to(g, 2)
            &&& g.has_type(r, ty)
        }),
{
    reveal(Func::lshift_and_mask);
    let op = Op::IshlImm { ty, x, imm: shift };
    let g1 = f.define(op, ty);
    let m1 = m.set(f.next_value(), m.eval(op)).next();
    flow::lemma_flow_define(f, m, op, ty);
    lemma_flows_keeps(f, m, g1, m1);
    let op2 = Op::BandImm { ty, x: f.next_value(), imm: mask };
    let g = g1.define(op2, ty);
    let m2 = m1.set(g1.next_value(), m1.eval(op2)).next();
    flow::lemma_flow_define(g1, m1, op2, ty);
    flow::lemma_flows_trans(f, m, g1, m1, g, m2);
    lemma_flows_keeps(f, m, g, m2);
    assert((shift as u64) as int % ty.bits() == shift) by {
        vstd::arithmetic::div_mod::lemma_small_mod(shift as nat, ty.bits() as nat);
    }
    m2
}

/// Shifts and masks by any numbers: the machine takes the number of bits modulo the bits of the type.
pub proof fn lemma_shifts(
    f: Func,
    m: Machine,
    x: Value,
    ty: Type,
    shift: i64,
    mask: i64,
) -> (ms: (Machine, Machine))
    requires
        m.at_end(f),
        f.room(2),
        f.has_type(x, ty),
    ensures
        ({
            let (right, r) = f.rshift_and_mask(x, shift, mask);
            let (left, l) = f.lshift_and_mask(x, shift, mask);
            let by = ((shift as u64) as int % (8 * ty.size() as int)) as u128;
            &&& flow::flows(f, m, right, ms.0)
            &&& ms.0.mem == m.mem
            &&& ms.0.val(r) == (m.val(x) >> by) & ((mask as u64) as u128)
            &&& right.has_type(r, ty)
            &&& flow::flows(f, m, left, ms.1)
            &&& ms.1.mem == m.mem
            &&& ms.1.val(l) == ((m.val(x) << by) & ty.mask()) & ((mask as u64) as u128)
            &&& left.has_type(l, ty)
        }),
{
    reveal(Func::rshift_and_mask);
    reveal(Func::lshift_and_mask);
    let and = Op::BandImm { ty, x: f.next_value(), imm: mask };
    let ushr = Op::UshrImm { ty, x, imm: shift };
    let f1 = f.define(ushr, ty);
    let m1 = lemma_define(f, m, ushr, ty);
    let m2 = lemma_define(f1, m1, and, ty);
    flow::lemma_flows_trans(f, m, f1, m1, f1.define(and, ty), m2);
    let ishl = Op::IshlImm { ty, x, imm: shift };
    let g1 = f.define(ishl, ty);
    let k1 = lemma_define(f, m, ishl, ty);
    let k2 = lemma_define(g1, k1, and, ty);
    flow::lemma_flows_trans(f, m, g1, k1, g1.define(and, ty), k2);
    (m2, k2)
}

/// The check of an address for any number of bytes: it falls through where the address has none of the
/// bits of one less than that number, and leaves for `target` where it has one.
pub proof fn lemma_check_alignment_bits(
    f: Func,
    m: Machine,
    addr: Value,
    bytes: u8,
    target: Block,
) -> (m2: Machine)
    requires
        bytes > 0,
        m.at_end(f),
        f.room(4),
        f.is_int(addr),
        f.can_branch(target),
        f.body(target).params.len() == 0,
    ensures
        ({
            let g = f.check_alignment(addr, bytes, target);
            let bits = m.val(addr) & ((bytes - 1) as u128);
            &&& m2.mem == m.mem
            &&& bits == 0 ==> flow::flows(f, m, g, m2)
            &&& bits != 0 ==> flow::leaves(f, m, g, target, m2)
        }),
{
    let ty = f.int_type(addr);
    let g = f.check_alignment(addr, bytes, target);
    let a = m.val(addr);
    if bytes == 1 {
        assert(a & 0 == 0) by (bit_vector);
        assert(flow::flows(f, m, f, m)) by {
            reveal(flow::flows);
            assert(m.run(f, 0) == Some(m));
        }
        m
    } else {
        let band = Op::BandImm { ty, x: addr, imm: (bytes - 1) as i64 };
        let g1 = f.define(band, ty);
        let m1 = lemma_define(f, m, band, ty);
        let br = Op::Brnz { cond: f.next_value(), target, args: seq![] };
        if a & ((bytes - 1) as u128) == 0 {
            flow::lemma_flow_branch(g1, m1, br);
            let m2 = flow::entered(m1, g1.next_block());
            flow::lemma_flows_trans(f, m, g1, m1, g, m2);
            m2
        } else {
            flow::lemma_leave_branch(g1, m1, br, target);
            let m2 = flow::entered(m1, target);
            flow::lemma_flows_leaves(f, m, g1, m1, g, target, m2);
            m2
        }
    }
}

/// A bitwise or computes what it says.
proof fn lemma_or(f: Func, m: Machine, x: Value, y: Value, ty: Type) -> (m2: Machine)
    requires
        m.at_end(f),
        f.room(1),
        f.has_type(x, ty),
    ensures
        ({
            let (g, r) = f.or(x, y);
            &&& flow::flows(f, m, g, m2)
            &&& m2.mem == m.mem
            &&& m2.val(r) == m.val(x) | m.val(y)
            &&& m2.at_end(g)
            &&& m.agrees(f, m2)
            &&& f.grows_to(g, 1)
            &&& g.has_type(r, ty)
        }),
{
    reveal(Func::or);
    let op = Op::Bor { ty, x, y };
    let m2 = m.set(f.next_value(), m.eval(op)).next();
    flow::lemma_flow_define(f, m, op, ty);
    lemma_flows_keeps(f, m, f.define(op, ty), m2);
    m2
}

/// The code for swapping the bytes of an integer of 16 bits swaps them.
#[verifier::rlimit(60)]
#[verifier::spinoff_prover]
proof fn lemma_bswap16(f: Func, m: Machine, x: Value) -> (m2: Machine)
    requires
        m.at_end(f),
        f.room(23),
        f.has_type(x, Type::I16),
        m.holds(x, Type::I16),
    ensures
        ({
            let (g, r) = f.bswap(x, Type::I16);
            &&& flow::flows(f, m, g, m2)
            &&& m2.mem == m.mem
            &&& m2.val(r) == bytes::swapped(m.val(x) as nat, 2)
            &&& f.grows_to(g, 23)
            &&& g.has_type(r, Type::I16)
        }),
{
    let ty = Type::I16;
    bytes::lemma_swapped16(m.val(x));
    let (f1, v1) = f.rshift_and_mask(x, 8, 0xff);
    let m1 = lemma_rshift_and_mask(f, m, x, ty, 8, 0xff);
    let (f2, v2) = f1.lshift_and_mask(x, 8, 0xff00);
    let m2 = lemma_lshift_and_mask(f1, m1, x, ty, 8, 0xff00);
    flow::lemma_flows_trans(f, m, f1, m1, f2, m2);
    let (f3, v3) = f2.or(v1, v2);
    let m3 = lemma_or(f2, m2, v1, v2, ty);
    flow::lemma_flows_trans(f, m, f2, m2, f3, m3);
    m3
}

/// The code for swapping the bytes of an integer of 32 bits swaps them.
#[verifier::rlimit(60)]
#[verifier::spinoff_prover]
proof fn lemma_bswap32(f: Func, m: Machine, x: Value) -> (m2: Machine)
    requires
        m.at_end(f),
        f.room(23),
        f.has_type(x, Type::I32),
        m.holds(x, Type::I32),
    ensures
        ({
            let (g, r) = f.bswap(x, Type::I32);
            &&& flow::flows(f, m, g, m2)
            &&& m2.mem == m.mem
            &&& m2.val(r) == bytes::swapped(m.val(x) as nat, 4)
            &&& f.grows_to(g, 23)
            &&& g.has_type(r, Type::I32)
        }),
{
    let ty = Type::I32;
    bytes::lemma_swapped32(m.val(x));
    let (f1, v1) = f.rshift_and_mask(x, 24, 0xff);
    let m1 = lemma_rshift_and_mask(f, m, x, ty, 24, 0xff);
    let (f2, v2) = f1.rshift_and_mask(x, 8, 0xff00);
    let m2 = lemma_rshift_and_mask(f1, m1, x, ty, 8, 0xff00);
    flow::lemma_flows_trans(f, m, f1, m1, f2, m2);
    let (f3, v3) = f2.lshift_and_mask(x, 8, 0xff0000);
    let m3 = lemma_lshift_and_mask(f2, m2, x, ty, 8, 0xff0000);
    flow::lemma_flows_trans(f, m, f2, m2, f3, m3);
    let (f4, v4) = f3.lshift_and_mask(x, 24, 0xff000000);
    let m4 = lemma_lshift_and_mask(f3, m3, x, ty, 24, 0xff000000);
    flow::lemma_flows_trans(f, m, f3, m3, f4, m4);
    let (f5, v5) = f4.or(v1, v2);
    let m5 = lemma_or(f4, m4, v1, v2, ty);
    flow::lemma_flows_trans(f, m, f4, m4, f5, m5);
    let (f6, v6) = f5.or(v3, v4);
    let m6 = lemma_or(f5, m5, v3, v4, ty);
    flow::lemma_flows_trans(f, m, f5, m5, f6, m6);
    let (f7, v7) = f6.or(v5, v6);
    let m7 = lemma_or(f6, m6, v5, v6, ty);
    flow::lemma_flows_trans(f, m, f6, m6, f7, m7);
    m7
}

/// The eight bytes of an integer of 64 bits, each at its place in the opposite order.
#[verifier::rlimit(60)]
#[verifier::spinoff_prover]
proof fn lemma_bswap64_bytes(f: Func, m: Machine, x: Value) -> (m2: Machine)
    requires
        m.at_end(f),
        f.room(23),
        f.has_type(x, Type::I64),
    ensures
        ({
            let (f1, v1) = f.rshift_and_mask(x, 56, 0xff);
            let (f2, v2) = f1.rshift_and_mask(x, 40, 0xff00);
            let (f3, v3) = f2.rshift_and_mask(x, 24, 0xff0000);
            let (f4, v4) = f3.rshift_and_mask(x, 8, 0xff000000);
            let (f5, v5) = f4.lshift_and_mask(x, 8, 0xff00000000);
            let (f6, v6) = f5.lshift_and_mask(x, 24, 0xff0000000000);
            let (f7, v7) = f6.lshift_and_mask(x, 40, 0xff000000000000);
            let (f8, v8) = f7.lshift_and_mask(x, 56, 0xff00000000000000u64 as i64);
            &&& flow::flows(f, m, f8, m2)
            &&& m2.mem == m.mem
            &&& m2.at_end(f8)
            &&& m.agrees(f, m2)
            &&& f.grows_to(f8, 16)
            &&& m2.val(v1) == (m.val(x) >> 56) & 0xff
            &&& f8.has_type(v1, Type::I64)
            &&& m2.val(v2) == (m.val(x) >> 40) & 0xff00
            &&& f8.has_type(v2, Type::I64)
            &&& m2.val(v3) == (m.val(x) >> 24) & 0xff0000
            &&& f8.has_type(v3, Type::I64)
            &&& m2.val(v4) == (m.val(x) >> 8) & 0xff000000
            &&& f8.has_type(v4, Type::I64)
            &&& m2.val(v5) == ((m.val(x) << 8) & 0xffff_ffff_ffff_ffff) & 0xff00000000
            &&& f8.has_type(v5, Type::I64)
            &&& m2.val(v6) == ((m.val(x) << 24) & 0xffff_ffff_ffff_ffff) & 0xff0000000000
            &&& f8.has_type(v6, Type::I64)
            &&& m2.val(v7) == ((m.val(x) << 40) & 0xffff_ffff_ffff_ffff) & 0xff000000000000
            &&& f8.has_type(v7, Type::I64)
            &&& m2.val(v8) == ((m.val(x) << 56) & 0xffff_ffff_ffff_ffff) & 0xff00000000000000
            &&& f8.has_type(v8, Type::I64)
        }),
{
    let ty = Type::I64;
    assert((0xff00000000000000u64 as i64) as u64 == 0xff00000000000000u64) by (bit_vector);
    let (f1, v1) = f.rshift_and_mask(x, 56, 0xff);
    let m1 = lemma_rshift_and_mask(f, m, x, ty, 56, 0xff);
    let (f2, v2) = f1.rshift_and_mask(x, 40, 0xff00);
    let m2 = lemma_rshift_and_mask(f1, m1, x, ty, 40, 0xff00);
    flow::lemma_flows_trans(f, m, f1, m1, f2, m2);
    let (f3, v3) = f2.rshift_and_mask(x, 24, 0xff0000);
    let m3 = lemma_rshift_and_mask(f2, m2, x, ty, 24, 0xff0000);
    flow::lemma_flows_trans(f, m, f2, m2, f3, m3);
    let (f4, v4) = f3.rshift_and_mask(x, 8, 0xff000000);
    let m4 = lemma_rshift_and_mask(f3, m3, x, ty, 8, 0xff000000);
    flow::lemma_flows_trans(f, m, f3, m3, f4, m4);
    let (f5, v5) = f4.lshift_and_mask(x, 8, 0xff00000000);
    let m5 = lemma_lshift_and_mask(f4, m4, x, ty, 8, 0xff00000000);
    flow::lemma_flows_trans(f, m, f4, m4, f5, m5);
    let (f6, v6) = f5.lshift_and_mask(x, 24, 0xff0000000000);
    let m6 = lemma_lshift_and_mask(f5, m5, x, ty, 24, 0xff0000000000);
    flow::lemma_flows_trans(f, m, f5, m5, f6, m6);
    let (f7, v7) = f6.lshift_and_mask(x, 40, 0xff000000000000);
    let m7 = lemma_lshift_and_mask(f6, m6, x, ty, 40, 0xff000000000000);
    flow::lemma_flows_trans(f, m, f6, m6, f7, m7);
    let (f8, v8) = f7.lshift_and_mask(x, 56, 0xff00000000000000u64 as i64);
    let m8 = lemma_lshift_and_mask(f7, m7, x, ty, 56, 0xff00000000000000u64 as i64);
    flow::lemma_flows_trans(f, m, f7, m7, f8, m8);
    lemma_flows_keeps(f, m, f8, m8);
    m8
}

/// The code for swapping the bytes of an integer of 64 bits swaps them.
#[verifier::rlimit(60)]
#[verifier::spinoff_prover]
proof fn lemma_bswap64(f: Func, m: Machine, x: Value) -> (m2: Machine)
    requires
        m.at_end(f),
        f.room(23),
        f.has_type(x, Type::I64),
        m.holds(x, Type::I64),
    ensures
        ({
            let (g, r) = f.bswap(x, Type::I64);
            &&& flow::flows(f, m, g, m2)
            &&& m2.mem == m.mem
            &&& m2.val(r) == bytes::swapped(m.val(x) as nat, 8)
            &&& f.grows_to(g, 23)
            &&& g.has_type(r, Type::I64)
        }),
{
    let ty = Type::I64;
    bytes::lemma_swapped64(m.val(x));
    let m8 = lemma_bswap64_bytes(f, m, x);
    let (f1, v1) = f.rshift_and_mask(x, 56, 0xff);
    let (f2, v2) = f1.rshift_and_mask(x, 40, 0xff00);
    let (f3, v3) = f2.rshift_and_mask(x, 24, 0xff0000);
    let (f4, v4) = f3.rshift_and_mask(x, 8, 0xff000000);
    let (f5, v5) = f4.lshift_and_mask(x, 8, 0xff00000000);
    let (f6, v6) = f5.lshift_and_mask(x, 24, 0xff0000000000);
    let (f7, v7) = f6.lshift_and_mask(x, 40, 0xff000000000000);
    let (f8, v8) = f7.lshift_and_mask(x, 56, 0xff00000000000000u64 as i64);
    let (f9, v9) = f8.or(v1, v2);
    let m9 = lemma_or(f8, m8, v1, v2, ty);
    flow::lemma_flows_trans(f, m, f8, m8, f9, m9);
    let (f10, v10) = f9.or(v3, v4);
    let m10 = lemma_or(f9, m9, v3, v4, ty);
    flow::lemma_flows_trans(f, m, f9, m9, f10, m10);
    let (f11, v11) = f10.or(v9, v10);
    let m11 = lemma_or(f10, m10, v9, v10, ty);
    flow::lemma_flows_trans(f, m, f10, m10, f11, m11);
    let (f12, v12) = f11.or(v5, v6);
    let m12 = lemma_or(f11, m11, v5, v6, ty);
    flow::lemma_flows_trans(f, m, f11, m11, f12, m12);
    let (f13, v13) = f12.or(v7, v8);
    let m13 = lemma_or(f12, m12, v7, v8, ty);
    flow::lemma_flows_trans(f, m, f12, m12, f13, m13);
    let (f14, v14) = f13.or(v12, v13);
    let m14 = lemma_or(f13, m13, v12, v13, ty);
    flow::lemma_flows_trans(f, m, f13, m13, f14, m14);
    let (f15, v15) = f14.or(v11, v14);
    let m15 = lemma_or(f14, m14, v11, v14, ty);
    flow::lemma_flows_trans(f, m, f14, m14, f15, m15);
    m15
}

/// The code for swapping the bytes of an integer swaps them.
pub proof fn lemma_bswap(f: Func, m: Machine, x: Value, ty: Type) -> (m2: Machine)
    requires
        !(ty is I128),
        m.at_end(f),
        f.room(23),
        f.has_type(x, ty),
        m.holds(x, ty),
    ensures
        ({
            let (g, r) = f.bswap(x, ty);
            &&& flow::flows(f, m, g, m2)
            &&& m2.mem == m.mem
            &&& m2.val(r) == bytes::swapped(m.val(x) as nat, ty.size())
            &&& f.grows_to(g, 23)
            &&& g.has_type(r, ty)
        }),
{
    match ty {
        Type::I16 => lemma_bswap16(f, m, x),
        Type::I32 => lemma_bswap32(f, m, x),
        Type::I64 => lemma_bswap64(f, m, x),
        _ => {
            assert(flow::flows(f, m, f, m)) by {
                reveal(flow::flows);
                assert(m.run(f, 0) == Some(m));
            }
            let n = m.val(x) as nat;
            assert(bytes::swapped(n, 1) == n) by {
                reveal_with_fuel(bytes::to_le, 2);
                reveal_with_fuel(bytes::from_le, 2);
                assert(bytes::to_le(n, 1).reverse() =~= seq![n as u8]);
            }
            m
        },
    }
}

/// An instruction that defines a value computes what it says.
proof fn lemma_define(f: Func, m: Machine, op: Op, ty: Type) -> (m2: Machine)
    requires
        m.at_end(f),
        f.room(1),
        op.computes(),
    ensures
        flow::flows(f, m, f.define(op, ty), m2),
        m2.mem == m.mem,
        m2.val(f.next_value()) == m.eval(op),
        m2.at_end(f.define(op, ty)),
        m.agrees(f, m2),
        f.grows_to(f.define(op, ty), 1),
        f.define(op, ty).has_type(f.next_value(), ty),
{
    flow::lemma_flow_define(f, m, op, ty);
    let m2 = m.set(f.next_value(), m.eval(op)).next();
    lemma_flows_keeps(f, m, f.define(op, ty), m2);
    m2
}

/// A comparison falls through where the two integers are equal, and leaves for `target` where they
/// are not.
proof fn lemma_require_equal(f: Func, m: Machine, x: Value, y: Value, target: Block) -> (m2: Machine)
    requires
        m.at_end(f),
        f.room(3),
        f.can_branch(target),
        f.body(target).params.len() == 0,
    ensures
        ({
            let g = f.require_equal(x, y, target);
            &&& m2.mem == m.mem
            &&& m2.env == m.env
            &&& f.grows_to(g, 3)
            &&& f.code_in(g)
            &&& m.val(x) == m.val(y) ==> flow::flows(f, m, g, m2) && m2.at_end(g)
            &&& m.val(x) != m.val(y) ==> flow::leaves(f, m, g, target, m2)
        }),
{
    let op = Op::BrInt { cc: IntCC::NotEqual, x, y, target, args: seq![] };
    let g = f.require_equal(x, y, target);
    if m.val(x) == m.val(y) {
        flow::lemma_flow_branch(f, m, op);
        let m2 = flow::entered(m, f.next_block());
        lemma_flows_keeps(f, m, g, m2);
        m2
    } else {
        flow::lemma_leave_branch(f, m, op, target);
        flow::entered(m, target)
    }
}

/// What the machine `m` has of the host's memory.
pub open spec fn host_of(layout: MemLayout, m: Machine, tlb_ptr: Value) -> Host {
    Host { layout, mem: m.mem, tlb: m.val(tlb_ptr) }
}

/// An integer of 64 bits fits in its type.
proof fn lemma_read64_fits(mem: spec_fn(u64) -> u8, addr: u64)
    ensures
        bytes::from_le(machine::bytes_at(mem, addr, 8)) < machine::two64(),
{
    bytes::lemma_from_le_bound(machine::bytes_at(mem, addr, 8));
    vstd::arithmetic::power2::lemma2_to64();
}

/// A constant of 64 bits is the number that it was made of.
proof fn lemma_const64(f: Func, m: Machine, imm: int) -> (m2: Machine)
    requires
        m.at_end(f),
        f.room(1),
        0 <= imm <= i64::MAX,
    ensures
        ({
            let (g, r) = f.const64(imm);
            &&& flow::flows(f, m, g, m2)
            &&& m2.mem == m.mem
            &&& m2.val(r) == imm
            &&& m2.at_end(g)
            &&& m.agrees(f, m2)
            &&& f.grows_to(g, 1)
            &&& g.has_type(r, Type::I64)
        }),
{
    let x = imm as u64;
    assert((x as u128) & 0xffff_ffff_ffff_ffff == x as u128) by (bit_vector);
    lemma_define(f, m, Op::Iconst { ty: Type::I64, imm: imm as i64 }, Type::I64)
}

/// The start of a lookup, from the offset of the entry on: the address of the entry for `a`, and the
/// tag that the entry holds.
proof fn lemma_load_tag(
    f: Func,
    m: Machine,
    host: Host,
    tlb_ptr: Value,
    entry_offset: Value,
    a: u64,
    kind: AccessKind,
) -> (m2: Machine)
    requires
        host.layout.wf(),
        host.mem == m.mem,
        host.tlb == m.val(tlb_ptr),
        m.at_end(f),
        f.room(2),
        m.holds(tlb_ptr, Type::I64),
        m.val(entry_offset) == host.layout.index_of(a) * host.layout.tlb_entry_size,
    ensures
        ({
            let (f1, tlb_addr) = f.add_addr(tlb_ptr, entry_offset);
            let (g, tag) = f1.load_tlb(tlb_addr, kind.offset_in_tlb(host.layout) as i32);
            &&& flow::flows(f, m, g, m2)
            &&& m2.mem == m.mem
            &&& m2.at_end(g)
            &&& m.agrees(f, m2)
            &&& f.grows_to(g, 2)
            &&& g.has_type(tlb_addr, Type::I64)
            &&& g.has_type(tag, Type::I64)
            &&& m2.val(tlb_addr) == (host.tlb + host.layout.index_of(a) * host.layout.tlb_entry_size)
                % machine::two64()
            &&& m2.val(tag) == host.read64(host.entry_addr(kind, a))
        }),
{
    let k = kind.offset_in_tlb(host.layout);
    let eo = host.layout.index_of(a) * host.layout.tlb_entry_size;
    let add = Op::Iadd { ty: Type::I64, x: tlb_ptr, y: entry_offset };
    let (f1, v1) = f.add_addr(tlb_ptr, entry_offset);
    let m1 = lemma_define(f, m, add, Type::I64);
    assert(m1.val(v1) == (host.tlb + eo) % machine::two64());

    let ld = Op::Load { ty: Type::I64, flags: code::vmctx_flags(), addr: v1, offset: k as i32 };
    let (g, v2) = f1.load_tlb(v1, k as i32);
    let m2 = lemma_define(f1, m1, ld, Type::I64);
    flow::lemma_flows_trans(f, m, f1, m1, g, m2);
    lemma_flows_keeps(f, m, g, m2);
    let entry = host.entry_addr(kind, a);
    assert(machine::offset_addr(m1.val(v1) as int, k as int) == entry);
    lemma_read64_fits(host.mem, entry);
    m2
}

/// Two offsets are one.
proof fn lemma_offset_twice(base: int, x: int, y: int)
    ensures
        machine::offset_addr((base + x) % machine::two64(), y) == machine::offset_addr(base, x + y),
{
}

/// The end of a lookup, from the two tags on: the address of the page's data where they are equal.
proof fn lemma_load_page(
    f: Func,
    m: Machine,
    host: Host,
    tlb_addr: Value,
    expected_tag: Value,
    tag: Value,
    a: u64,
    kind: AccessKind,
    not_found: Block,
) -> (m2: Machine)
    requires
        host.layout.wf(),
        host.mem == m.mem,
        m.at_end(f),
        f.room(4),
        tlb_addr.index < f.values.len(),
        m.val(tlb_addr) == (host.tlb + host.layout.index_of(a) * host.layout.tlb_entry_size)
            % machine::two64(),
        m.val(expected_tag) == host.read64(host.entry_addr(kind, a)),
        m.val(tag) == host.layout.tag_of(a),
        f.can_branch(not_found),
        f.body(not_found).params.len() == 0,
    ensures
        ({
            let (g, r) = f.require_equal(tag, expected_tag, not_found).load_tlb(
                tlb_addr,
                (kind.offset_in_tlb(host.layout) + 8) as i32,
            );
            &&& m2.mem == m.mem
            &&& f.grows_to(g, 4)
            &&& g.has_type(r, Type::I64)
            &&& host.is_cached(kind, a) ==> flow::flows(f, m, g, m2) && m2.val(r)
                == host.page_addr(kind, a)
            &&& !host.is_cached(kind, a) ==> flow::leaves(f, m, g, not_found, m2)
        }),
{
    let k = kind.offset_in_tlb(host.layout);
    let offset = (k + 8) as i32;
    let f1 = f.require_equal(tag, expected_tag, not_found);
    let m1 = lemma_require_equal(f, m, tag, expected_tag, not_found);
    let ld = Op::Load { ty: Type::I64, flags: code::vmctx_flags(), addr: tlb_addr, offset };
    let (g, r) = f1.load_tlb(tlb_addr, offset);
    ir::lemma_define_grows(f1, ld, Type::I64);
    ir::lemma_grows_trans(f, f1, g, 3, 1);
    if host.is_cached(kind, a) {
        let m2 = lemma_define(f1, m1, ld, Type::I64);
        flow::lemma_flows_trans(f, m, f1, m1, g, m2);
        let entry = host.entry_addr(kind, a);
        let eo = host.layout.index_of(a) * host.layout.tlb_entry_size;
        assert(m1.val(tlb_addr) == m.val(tlb_addr));
        lemma_offset_twice(host.tlb as int, eo, k + 8);
        lemma_offset_twice(host.tlb as int, eo + k, 8);
        lemma_read64_fits(host.mem, machine::offset_addr(entry as int, 8));
        m2
    } else {
        flow::lemma_extends_code_in(f1, g);
        flow::lemma_leaves_in(f, m, f1, g, not_found, m1);
        m1
    }
}

/// The lookup of an address in the translation cache falls through with the address of the page's
/// data where the entry is for the page of the address, and leaves for `not_found` where it is not.
pub proof fn lemma_tlb_lookup(
    f: Func,
    m: Machine,
    layout: MemLayout,
    tlb_ptr: Value,
    addr: Value,
    kind: AccessKind,
    not_found: Block,
) -> (m2: Machine)
    requires
        layout.wf(),
        m.at_end(f),
        f.room(10),
        f.has_type(addr, Type::I64),
        f.has_type(tlb_ptr, Type::I64),
        m.holds(addr, Type::I64),
        m.holds(tlb_ptr, Type::I64),
        f.can_branch(not_found),
        f.body(not_found).params.len() == 0,
    ensures
        ({
            let (g, r) = f.tlb_lookup(layout, tlb_ptr, addr, kind, not_found);
            let host = host_of(layout, m, tlb_ptr);
            let a = m.val(addr) as u64;
            &&& m2.mem == m.mem
            &&& f.grows_to(g, 10)
            &&& g.has_type(r, Type::I64)
            &&& host.is_cached(kind, a) ==> flow::flows(f, m, g, m2) && m2.val(r) == host.page_addr(kind, a)
            &&& !host.is_cached(kind, a) ==> flow::leaves(f, m, g, not_found, m2)
        }),
{
    let host = host_of(layout, m, tlb_ptr);
    let a = m.val(addr) as u64;
    let k = kind.offset_in_tlb(layout);
    let shift = (layout.offset_bits - layout.entry_bits()) as i64;
    let mask = layout.index_mask() as i64;
    layout::lemma_index_mask_fits(layout);
    layout::lemma_entry_offset(layout, a);
    layout::lemma_entry_offset_fits(layout, a);
    let (f1, v1) = f.rshift_and_mask(addr, shift, mask);
    let m1 = lemma_rshift_and_mask(f, m, addr, Type::I64, shift, mask);
    let eo = layout.index_of(a) * layout.tlb_entry_size;
    assert(m1.val(v1) == eo);

    let (g2, tlb_addr) = f1.add_addr(tlb_ptr, v1);
    let (f2, expected_tag) = g2.load_tlb(tlb_addr, k as i32);
    let m2 = lemma_load_tag(f1, m1, host, tlb_ptr, v1, a, kind);
    flow::lemma_flows_trans(f, m, f1, m1, f2, m2);
    ir::lemma_grows_trans(f, f1, f2, 2, 2);

    let tag_shift = (layout.offset_bits + layout.tlb_index_bits) as i64;
    let tag_mask = (pow2(layout.tlb_tag_bits as nat) - 1) as i64;
    layout::lemma_tag_fits(layout, a);
    layout::lemma_shr_is_div(a, tag_shift as u64);
    layout::lemma_mask_is_mod(a >> (tag_shift as u64), layout.tlb_tag_bits as u64);
    let (f3, tag) = f2.rshift_and_mask(addr, tag_shift, tag_mask);
    assert(m2.val(addr) == m1.val(addr));
    let m3 = lemma_rshift_and_mask(f2, m2, addr, Type::I64, tag_shift, tag_mask);
    flow::lemma_flows_trans(f, m, f2, m2, f3, m3);
    ir::lemma_grows_trans(f, f2, f3, 4, 2);
    assert(m3.val(tag) == layout.tag_of(a));
    assert(m3.val(tlb_addr) == m2.val(tlb_addr));
    assert(m3.val(expected_tag) == m2.val(expected_tag));

    let (g, r) = f.tlb_lookup(layout, tlb_ptr, addr, kind, not_found);
    let m4 = lemma_load_page(f3, m3, host, tlb_addr, expected_tag, tag, a, kind, not_found);
    ir::lemma_grows_trans(f, f3, g, 6, 4);
    if host.is_cached(kind, a) {
        flow::lemma_flows_trans(f, m, f3, m3, g, m4);
    } else {
        flow::lemma_flows_leaves(f, m, f3, m3, g, not_found, m4);
    }
    m4
}

/// The lookup of an address that is known when the code is generated falls through with the address
/// of the page's data where the entry is for the page of the address, and leaves for `not_found`
/// where it is not.
pub proof fn lemma_tlb_lookup_const(
    f: Func,
    m: Machine,
    layout: MemLayout,
    tlb_ptr: Value,
    addr: u64,
    kind: AccessKind,
    not_found: Block,
) -> (m2: Machine)
    requires
        layout.wf(),
        m.at_end(f),
        f.room(8),
        f.has_type(tlb_ptr, Type::I64),
        m.holds(tlb_ptr, Type::I64),
        f.can_branch(not_found),
        f.body(not_found).params.len() == 0,
    ensures
        ({
            let (g, r) = f.tlb_lookup_const(layout, tlb_ptr, addr, kind, not_found);
            let host = host_of(layout, m, tlb_ptr);
            &&& m2.mem == m.mem
            &&& f.grows_to(g, 8)
            &&& g.has_type(r, Type::I64)
            &&& host.is_cached(kind, addr) ==> flow::flows(f, m, g, m2) && m2.val(r) == host.page_addr(
                kind,
                addr,
            )
            &&& !host.is_cached(kind, addr) ==> flow::leaves(f, m, g, not_found, m2)
        }),
{
    let host = host_of(layout, m, tlb_ptr);
    let k = kind.offset_in_tlb(layout);
    layout::lemma_entry_offset_fits(layout, addr);
    layout::lemma_tag_fits(layout, addr);
    let eo = layout.index_of(addr) * layout.tlb_entry_size;
    let (f1, v1) = f.const64(eo);
    let m1 = lemma_const64(f, m, eo);

    let (g2, tlb_addr) = f1.add_addr(tlb_ptr, v1);
    let (f2, expected_tag) = g2.load_tlb(tlb_addr, k as i32);
    let m2 = lemma_load_tag(f1, m1, host, tlb_ptr, v1, addr, kind);
    flow::lemma_flows_trans(f, m, f1, m1, f2, m2);
    ir::lemma_grows_trans(f, f1, f2, 1, 2);

    let (f3, tag) = f2.const64(layout.tag_of(addr));
    let m3 = lemma_const64(f2, m2, layout.tag_of(addr));
    flow::lemma_flows_trans(f, m, f2, m2, f3, m3);
    ir::lemma_grows_trans(f, f2, f3, 3, 1);
    assert(m3.val(tlb_addr) == m2.val(tlb_addr));
    assert(m3.val(expected_tag) == m2.val(expected_tag));

    let (g, r) = f.tlb_lookup_const(layout, tlb_ptr, addr, kind, not_found);
    let m4 = lemma_load_page(f3, m3, host, tlb_addr, expected_tag, tag, addr, kind, not_found);
    ir::lemma_grows_trans(f, f3, g, 4, 4);
    if host.is_cached(kind, addr) {
        flow::lemma_flows_trans(f, m, f3, m3, g, m4);
    } else {
        flow::lemma_flows_leaves(f, m, f3, m3, g, not_found, m4);
    }
    m4
}

/// A constant that repeats a byte holds that byte in each of its bytes.
pub proof fn lemma_splat_const(f: Func, m: Machine, value: u8, ty: Type) -> (m2: Machine)
    requires
        m.at_end(f),
        f.room(3),
    ensures
        ({
            let (g, r) = f.splat_const(value, ty);
            &&& flow::flows(f, m, g, m2)
            &&& m2.mem == m.mem
            &&& m2.val(r) == code::repeated(value, ty.size())
            &&& m2.at_end(g)
            &&& m.agrees(f, m2)
            &&& f.grows_to(g, 3)
            &&& g.has_type(r, ty)
        }),
{
    let n = if ty is I128 {
        8
    } else {
        ty.size()
    };
    let whole = code::repeated(value, n);
    code::lemma_repeated_fits(value, n);
    vstd::arithmetic::power2::lemma2_to64();
    vstd::arithmetic::power2::lemma2_to64_rest();
    let x = whole as u64;
    assert((x as i64) as u64 == x) by (bit_vector);
    let w = x as u128;
    assert((w <= 0xff ==> w & 0xff == w) && (w <= 0xffff ==> w & 0xffff == w) && (w <= 0xffff_ffff
        ==> w & 0xffff_ffff == w) && (w <= 0xffff_ffff_ffff_ffff ==> w & 0xffff_ffff_ffff_ffff == w))
        by (bit_vector);
    let imm = x as i64;
    if ty is I128 {
        let op = Op::Iconst { ty: Type::I64, imm };
        let f1 = f.define(op, Type::I64);
        let m1 = lemma_define(f, m, op, Type::I64);
        let f2 = f1.define(op, Type::I64);
        let m2 = lemma_define(f1, m1, op, Type::I64);
        flow::lemma_flows_trans(f, m, f1, m1, f2, m2);
        let cat = Op::Iconcat { lo: f.next_value(), hi: f1.next_value() };
        let f3 = f2.define(cat, Type::I128);
        let m3 = lemma_define(f2, m2, cat, Type::I128);
        flow::lemma_flows_trans(f, m, f2, m2, f3, m3);
        assert(m2.val(f.next_value()) == m1.val(f.next_value()));
        reveal_with_fuel(code::repeated, 17);
        lemma_flows_keeps(f, m, f3, m3);
        m3
    } else {
        lemma_define(f, m, Op::Iconst { ty, imm }, ty)
    }
}

/// The largest integer of a type is the one before the power of two of its bits.
pub proof fn lemma_type_mask(ty: Type)
    ensures
        pow2(8 * ty.size()) == ty.mask() + 1,
{
    vstd::arithmetic::power2::lemma2_to64();
    vstd::arithmetic::power2::lemma2_to64_rest();
    vstd::arithmetic::power2::lemma_pow2_adds(64, 64);
}

/// The integer that as many bytes as a type has hold is one of that type.
proof fn lemma_bytes_fit(seq: Seq<u8>, ty: Type)
    requires
        seq.len() == ty.size(),
    ensures
        bytes::from_le(seq) <= ty.mask(),
        pow2(8 * ty.size()) == ty.mask() + 1,
{
    bytes::lemma_from_le_bound(seq);
    vstd::arithmetic::power2::lemma2_to64();
    vstd::arithmetic::power2::lemma2_to64_rest();
    vstd::arithmetic::power2::lemma_pow2_adds(64, 64);
}

/// The check of the permissions of an access falls through where each byte has them, and leaves for
/// `target` where one does not.
#[verifier::rlimit(30)]
pub proof fn lemma_check_perm(
    f: Func,
    m: Machine,
    host: Host,
    host_addr: Value,
    ty: Type,
    perm: u8,
    target: Block,
) -> (m2: Machine)
    requires
        host.layout.wf(),
        host.mem == m.mem,
        m.at_end(f),
        f.room(8),
        f.has_type(host_addr, Type::I64),
        m.holds(host_addr, Type::I64),
        f.can_branch(target),
        f.body(target).params.len() == 0,
    ensures
        ({
            let g = f.check_perm(host.layout, host_addr, ty, perm, target);
            let permitted = host.is_permitted(m.val(host_addr) as u64, ty.size(), perm);
            &&& m2.mem == m.mem
            &&& f.grows_to(g, 8)
            &&& permitted ==> flow::flows(f, m, g, m2)
            &&& !permitted ==> flow::leaves(f, m, g, target, m2)
        }),
{
    let layout = host.layout;
    let h = m.val(host_addr) as u64;
    let g = f.check_perm(layout, host_addr, ty, perm, target);
    let ld = Op::Load {
        ty,
        flags: code::heap_flags(),
        addr: host_addr,
        offset: layout.perm_offset as i32,
    };
    let held = f.next_value();
    let f1 = f.define(ld, ty);
    let m1 = lemma_define(f, m, ld, ty);
    let perms = host.perm_bytes(h, ty.size());
    lemma_bytes_fit(perms, ty);
    assert(m1.val(held) == bytes::from_le(perms));

    let (f2, wanted) = f1.splat_const(perm, ty);
    let m2 = lemma_splat_const(f1, m1, perm, ty);
    flow::lemma_flows_trans(f, m, f1, m1, f2, m2);
    assert(m2.val(held) == m1.val(held));

    let and = Op::Band { ty, x: held, y: wanted };
    let f3 = f2.define(and, ty);
    let m3 = lemma_define(f2, m2, and, ty);
    flow::lemma_flows_trans(f, m, f2, m2, f3, m3);
    assert(m3.val(wanted) == m2.val(wanted));
    code::lemma_has_repeated(perms, perm);

    let m4 = lemma_require_equal(f3, m3, f2.next_value(), wanted, target);
    if host.is_permitted(h, ty.size(), perm) {
        flow::lemma_flows_trans(f, m, f3, m3, g, m4);
    } else {
        flow::lemma_flows_leaves(f, m, f3, m3, g, target, m4);
    }
    m4
}

/// The end of an access, from the address of the page's data on: the host address is the sum of
/// that address and the offset, and the permissions are checked there.
#[verifier::rlimit(30)]
proof fn lemma_access_page(
    f: Func,
    m: Machine,
    host: Host,
    page_ptr: Value,
    offset: Value,
    ty: Type,
    perm: u8,
    target: Block,
) -> (m2: Machine)
    requires
        host.layout.wf(),
        host.mem == m.mem,
        m.at_end(f),
        f.room(9),
        f.has_type(page_ptr, Type::I64),
        f.has_type(offset, Type::I64),
        f.can_branch(target),
        f.body(target).params.len() == 0,
    ensures
        ({
            let (f1, r) = f.add_addr(page_ptr, offset);
            let g = f1.check_perm(host.layout, r, ty, perm, target);
            let h = machine::offset_addr(m.val(page_ptr) as int, m.val(offset) as int);
            let permitted = host.is_permitted(h, ty.size(), perm);
            &&& m2.mem == m.mem
            &&& f.grows_to(g, 9)
            &&& g.has_type(r, Type::I64)
            &&& permitted ==> flow::flows(f, m, g, m2) && m2.val(r) == h
            &&& !permitted ==> flow::leaves(f, m, g, target, m2)
        }),
{
    let (f1, r) = f.add_addr(page_ptr, offset);
    let g = f1.check_perm(host.layout, r, ty, perm, target);
    let h = machine::offset_addr(m.val(page_ptr) as int, m.val(offset) as int);
    let m1 = lemma_define(f, m, Op::Iadd { ty: Type::I64, x: page_ptr, y: offset }, Type::I64);
    assert(m1.val(r) == h);
    let m2 = lemma_check_perm(f1, m1, host, r, ty, perm, target);
    if host.is_permitted(h, ty.size(), perm) {
        lemma_flows_keeps(f1, m1, g, m2);
        flow::lemma_flows_trans(f, m, f1, m1, g, m2);
    } else {
        flow::lemma_flows_leaves(f, m, f1, m1, g, target, m2);
    }
    m2
}

/// The checks of an access to an address fall through with the host address where the address is
/// aligned, its page is cached and every byte is permitted, and leave for `fallback` where not.
#[verifier::rlimit(60)]
#[verifier::spinoff_prover]
pub proof fn lemma_inline_access(
    f: Func,
    m: Machine,
    layout: MemLayout,
    tlb_ptr: Value,
    addr: Value,
    ty: Type,
    kind: AccessKind,
    fallback: Block,
) -> (m2: Machine)
    requires
        layout.wf(),
        m.at_end(f),
        f.room(26),
        f.has_type(addr, Type::I64),
        f.has_type(tlb_ptr, Type::I64),
        m.holds(addr, Type::I64),
        m.holds(tlb_ptr, Type::I64),
        f.can_branch(fallback),
        f.body(fallback).params.len() == 0,
    ensures
        ({
            let (g, r) = f.inline_access(layout, tlb_ptr, addr, ty, kind, fallback);
            let host = host_of(layout, m, tlb_ptr);
            let a = m.val(addr) as u64;
            &&& m2.mem == m.mem
            &&& f.grows_to(g, 24)
            &&& g.has_type(r, Type::I64)
            &&& host.is_inline(kind, a, ty) ==> flow::flows(f, m, g, m2) && m2.val(r) == host.host_addr(
                kind,
                a,
            )
            &&& !host.is_inline(kind, a, ty) ==> flow::leaves(f, m, g, fallback, m2)
        }),
{
    let host = host_of(layout, m, tlb_ptr);
    let a = m.val(addr) as u64;
    let size = ty.size() as u8;
    let perm = kind.required(layout);
    let (g, r) = f.inline_access(layout, tlb_ptr, addr, ty, kind, fallback);
    vstd::arithmetic::power2::lemma2_to64();
    assert(exists|k: nat| k < 8 && size == #[trigger] pow2(k)) by {
        let k: nat = match ty {
            Type::I8 => 0,
            Type::I16 => 1,
            Type::I32 => 2,
            Type::I64 => 3,
            Type::I128 => 4,
        };
        assert(size == pow2(k));
    }
    let f1 = f.check_alignment(addr, size, fallback);
    let m1 = lemma_check_alignment(f, m, addr, size, fallback);
    let (f2, page_ptr) = f1.tlb_lookup(layout, tlb_ptr, addr, kind, fallback);
    let and = Op::BandImm { ty: Type::I64, x: addr, imm: (pow2(layout.offset_bits as nat) - 1) as i64 };
    let f3 = f2.define(and, Type::I64);
    let offset = f2.next_value();
    lemma_alignment_grows(f, addr, size, fallback);
    // The growth of the code does not depend on where it is run from.
    let n1 = Machine { block: f1.here(), pc: f1.body(f1.here()).insts.len(), ..m };
    let n2 = lemma_tlb_lookup(f1, n1, layout, tlb_ptr, addr, kind, fallback);
    let n3 = Machine { block: f3.here(), pc: f3.body(f3.here()).insts.len(), ..m };
    ir::lemma_define_grows(f2, and, Type::I64);
    let n4 = lemma_access_page(f3, n3, host, page_ptr, offset, ty, perm, fallback);
    ir::lemma_grows_trans(f2, f3, g, 1, 9);
    ir::lemma_grows_trans(f1, f2, g, 10, 10);
    ir::lemma_grows_trans(f, f1, g, 4, 20);
    if a as int % ty.size() as int != 0 {
        flow::lemma_extends_code_in(f1, g);
        flow::lemma_leaves_in(f, m, f1, g, fallback, m1);
        m1
    } else {
        lemma_flows_keeps(f, m, f1, m1);
        assert(m1.val(tlb_ptr) == m.val(tlb_ptr));
        let m2 = lemma_tlb_lookup(f1, m1, layout, tlb_ptr, addr, kind, fallback);
        if !host.is_cached(kind, a) {
            flow::lemma_flows_leaves(f, m, f1, m1, f2, fallback, m2);
            flow::lemma_extends_code_in(f2, g);
            flow::lemma_leaves_in(f, m, f2, g, fallback, m2);
            m2
        } else {
            lemma_flows_keeps(f1, m1, f2, m2);
            flow::lemma_flows_trans(f, m, f1, m1, f2, m2);
            assert(m2.val(addr) == m.val(addr));
            let m3 = lemma_define(f2, m2, and, Type::I64);
            flow::lemma_flows_trans(f, m, f2, m2, f3, m3);
            layout::lemma_mask_is_mod(a, layout.offset_bits as u64);
            layout::lemma_offset_mask_fits(layout);
            assert(m3.val(offset) == layout.offset_in_page(a));
            assert(m3.val(page_ptr) == m2.val(page_ptr));
            let m4 = lemma_access_page(f3, m3, host, page_ptr, offset, ty, perm, fallback);
            if host.is_inline(kind, a, ty) {
                flow::lemma_flows_trans(f, m, f3, m3, g, m4);
            } else {
                flow::lemma_flows_leaves(f, m, f3, m3, g, fallback, m4);
            }
            m4
        }
    }
}

/// The checks of an access to an address that is known when the code is generated fall through with
/// the host address where the page of the address is cached and every byte is permitted, and leave
/// for `fallback` where not.
#[verifier::rlimit(60)]
#[verifier::spinoff_prover]
pub proof fn lemma_inline_access_const(
    f: Func,
    m: Machine,
    layout: MemLayout,
    tlb_ptr: Value,
    addr: u64,
    ty: Type,
    kind: AccessKind,
    fallback: Block,
) -> (m2: Machine)
    requires
        layout.wf(),
        m.at_end(f),
        f.room(18),
        f.has_type(tlb_ptr, Type::I64),
        m.holds(tlb_ptr, Type::I64),
        f.can_branch(fallback),
        f.body(fallback).params.len() == 0,
    ensures
        ({
            let (g, r) = f.inline_access_const(layout, tlb_ptr, addr, ty, kind, fallback);
            let host = host_of(layout, m, tlb_ptr);
            &&& m2.mem == m.mem
            &&& f.grows_to(g, 18)
            &&& g.has_type(r, Type::I64)
            &&& host.is_accessible(kind, addr, ty) ==> flow::flows(f, m, g, m2) && m2.val(r)
                == host.host_addr(kind, addr)
            &&& !host.is_accessible(kind, addr, ty) ==> flow::leaves(f, m, g, fallback, m2)
        }),
{
    let host = host_of(layout, m, tlb_ptr);
    let perm = kind.required(layout);
    let (g, r) = f.inline_access_const(layout, tlb_ptr, addr, ty, kind, fallback);
    let (f1, page_ptr) = f.tlb_lookup_const(layout, tlb_ptr, addr, kind, fallback);
    let m1 = lemma_tlb_lookup_const(f, m, layout, tlb_ptr, addr, kind, fallback);
    let o = layout.offset_in_page(addr);
    layout::lemma_offset_mask_fits(layout);
    vstd::arithmetic::div_mod::lemma_mod_bound(addr as int, pow2(layout.offset_bits as nat) as int);
    let (f2, offset) = f1.const64(o);
    // The growth of the code does not depend on where it is run from.
    let op = Op::Iconst { ty: Type::I64, imm: o as i64 };
    let n2 = Machine { block: f2.here(), pc: f2.body(f2.here()).insts.len(), ..m };
    ir::lemma_define_grows(f1, op, Type::I64);
    let n3 = lemma_access_page(f2, n2, host, page_ptr, offset, ty, perm, fallback);
    ir::lemma_grows_trans(f1, f2, g, 1, 9);
    ir::lemma_grows_trans(f, f1, g, 8, 10);
    if !host.is_cached(kind, addr) {
        flow::lemma_extends_code_in(f1, g);
        flow::lemma_leaves_in(f, m, f1, g, fallback, m1);
        m1
    } else {
        lemma_flows_keeps(f, m, f1, m1);
        let m2 = lemma_const64(f1, m1, o);
        flow::lemma_flows_trans(f, m, f1, m1, f2, m2);
        assert(m2.val(page_ptr) == m1.val(page_ptr));
        let m3 = lemma_access_page(f2, m2, host, page_ptr, offset, ty, perm, fallback);
        if host.is_accessible(kind, addr, ty) {
            flow::lemma_flows_trans(f, m, f2, m2, g, m3);
        } else {
            flow::lemma_flows_leaves(f, m, f2, m2, g, fallback, m3);
        }
        m3
    }
}

/// A load from host memory gives the integer that the bytes there are in the byte order of the guest.
pub proof fn lemma_load_host(
    f: Func,
    m: Machine,
    endianness: Endianness,
    addr: Value,
    ty: Type,
) -> (m2: Machine)
    requires
        ty is I128 ==> endianness is Little,
        m.at_end(f),
        f.room(25),
        f.has_type(addr, Type::I64),
        m.holds(addr, Type::I64),
    ensures
        ({
            let (g, r) = f.load_host(endianness, addr, ty);
            let guest = machine::bytes_at(m.mem, m.val(addr) as u64, ty.size());
            &&& flow::flows(f, m, g, m2)
            &&& m2.mem == m.mem
            &&& m2.val(r) == bytes::decode(endianness, guest)
            &&& f.grows_to(g, 24)
            &&& g.has_type(r, ty)
        }),
{
    reveal(Func::load_host);
    let h = m.val(addr) as u64;
    let guest = machine::bytes_at(m.mem, h, ty.size());
    let ld = Op::Load { ty, flags: code::guest_flags(endianness), addr, offset: 0 };
    let f1 = f.define(ld, ty);
    let m1 = lemma_define(f, m, ld, ty);
    let v = f.next_value();
    assert(machine::offset_addr(h as int, 0) == h);
    lemma_bytes_fit(guest, ty);
    assert(m1.val(v) == bytes::from_le(guest));
    if endianness is Little {
        m1
    } else {
        let (g, r) = f1.bswap(v, ty);
        let m2 = lemma_bswap(f1, m1, v, ty);
        flow::lemma_flows_trans(f, m, f1, m1, g, m2);
        bytes::lemma_to_from_le(guest);
        ir::lemma_grows_trans(f, f1, g, 1, 23);
        m2
    }
}

/// A store to host memory leaves there the bytes of the integer in the byte order of the guest, and
/// leaves every other byte as it is.
pub proof fn lemma_store_host(
    f: Func,
    m: Machine,
    endianness: Endianness,
    addr: Value,
    value: Value,
    ty: Type,
) -> (m2: Machine)
    requires
        ty is I128 ==> endianness is Little,
        m.at_end(f),
        f.room(25),
        f.has_type(addr, Type::I64),
        m.holds(addr, Type::I64),
        f.has_type(value, ty),
        m.holds(value, ty),
    ensures
        ({
            let g = f.store_host(endianness, addr, value, ty);
            let guest = bytes::encode(endianness, m.val(value) as nat, ty.size());
            &&& flow::flows(f, m, g, m2)
            &&& m2.mem == machine::with_bytes(m.mem, m.val(addr) as u64, guest)
            &&& f.grows_to(g, 24)
        }),
{
    reveal(Func::store_host);
    let h = m.val(addr) as u64;
    let x = m.val(value) as nat;
    let guest = bytes::encode(endianness, x, ty.size());
    let g = f.store_host(endianness, addr, value, ty);
    assert(machine::offset_addr(h as int, 0) == h);
    let (f1, stored) = if endianness is Little {
        (f, value)
    } else {
        f.bswap(value, ty)
    };
    let m1 = if endianness is Little {
        assert(flow::flows(f, m, f, m)) by {
            reveal(flow::flows);
            assert(m.run(f, 0) == Some(m));
        }
        ir::lemma_grows_refl(f);
        m
    } else {
        bytes::lemma_to_le_len(x, ty.size());
        bytes::lemma_to_from_le(bytes::to_le(x, ty.size()).reverse());
        lemma_bswap(f, m, value, ty)
    };
    lemma_flows_keeps(f, m, f1, m1);
    let st = Op::Store { ty, flags: code::guest_flags(endianness), value: stored, addr, offset: 0 };
    let m2 = Machine { mem: machine::with_bytes(m.mem, h, guest), ..m1.next() };
    assert(m1.val(addr) == m.val(addr));
    assert(m1.step(g) == Some(m2));
    flow::lemma_flow_effect(f1, m1, st, m2);
    flow::lemma_flows_trans(f, m, f1, m1, g, m2);
    ir::lemma_effect_grows(f1, st);
    ir::lemma_grows_trans(f, f1, g, 23, 1);
    m2
}

/// The check of an address grows the code.
proof fn lemma_alignment_grows(f: Func, addr: Value, bytes: u8, target: Block)
    requires
        f.open(),
        f.room(4),
    ensures
        f.grows_to(f.check_alignment(addr, bytes, target), 4),
{
}

} // verus!
