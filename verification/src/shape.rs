//! The shape of the code that an access adds: which blocks it leaves behind and in which state, and
//! with which flags it accesses memory.

use crate::code;
use crate::ir;
use crate::ir::{
    Block, BlockBody, Endianness, Func, Inst, IntCC, MemFlag, Op, Type, Value,
};
use crate::laws;
use crate::layout::MemLayout;
use crate::machine::Machine;
use crate::mem::AccessKind;
use crate::pcode;
use crate::ram::{LoadRam, LoadStage, Reply, StoreRam};
use crate::translator::Translator;
use vstd::prelude::*;

verus! {

/// Whether the code that leads from `f` to `g` leaves its blocks complete: each new block is sealed,
/// is not cold and has no parameters, and the one in which the code ends is the only one that is not
/// filled. Each load and store among the new instructions has one of the sets of flags `allowed`.
pub open spec fn builds(f: Func, g: Func, allowed: Set<Set<MemFlag>>) -> bool {
    &&& f.open()
    &&& g.open()
    &&& f.extends_to(g)
    &&& g.here() == f.here() || g.here().index >= f.blocks.len()
    &&& g.here() == f.here() ==> g.blocks.len() == f.blocks.len()
    &&& g.here() != f.here() ==> g.body(f.here()).status is Filled
    &&& forall|i: int|
        f.blocks.len() <= i < g.blocks.len() ==> {
            &&& (#[trigger] g.blocks[i]).sealed
            &&& !g.blocks[i].cold
            &&& !g.blocks[i].pending
            &&& g.blocks[i].params.len() == 0
            &&& g.blocks[i].status is Filled <==> i != g.here().index
        }
    &&& forall|i: int, j: int|
        #![trigger g.blocks[i].insts[j]]
        0 <= i < g.blocks.len() && (if i < f.blocks.len() {
            f.blocks[i].insts.len() as int
        } else {
            0
        }) <= j < g.blocks[i].insts.len() ==> has_flags(g.blocks[i].insts[j].op, allowed)
}

/// Whether the operation accesses no memory, or does so with one of the sets of flags `allowed`.
pub open spec fn has_flags(op: Op, allowed: Set<Set<MemFlag>>) -> bool {
    match op {
        Op::Load { flags, .. } => allowed.contains(flags),
        Op::Store { flags, .. } => allowed.contains(flags),
        _ => true,
    }
}

/// Code after which more code follows.
proof fn lemma_builds_trans(f: Func, g: Func, h: Func, allowed: Set<Set<MemFlag>>)
    requires
        builds(f, g, allowed),
        builds(g, h, allowed),
    ensures
        builds(f, h, allowed),
{
    ir::lemma_grows_trans(
        f,
        g,
        h,
        (g.values.len() + g.results.len() + g.blocks.len()) as nat,
        (h.values.len() + h.results.len() + h.blocks.len()) as nat,
    );
    assert forall|i: int| f.blocks.len() <= i < h.blocks.len() implies {
        &&& (#[trigger] h.blocks[i]).sealed
        &&& !h.blocks[i].cold
        &&& !h.blocks[i].pending
        &&& h.blocks[i].params.len() == 0
        &&& h.blocks[i].status is Filled <==> i != h.here().index
    } by {
        if i < g.blocks.len() {
            let body = g.blocks[i];
            assert(body.sealed);
        }
    }
    assert forall|i: int, j: int|
        #![trigger h.blocks[i].insts[j]]
        0 <= i < h.blocks.len() && (if i < f.blocks.len() {
            f.blocks[i].insts.len() as int
        } else {
            0
        }) <= j < h.blocks[i].insts.len() implies has_flags(h.blocks[i].insts[j].op, allowed) by {
        if i < g.blocks.len() && j < g.blocks[i].insts.len() {
            assert(has_flags(g.blocks[i].insts[j].op, allowed));
            assert(h.blocks[i].insts[j] == g.blocks[i].insts[j]);
        }
    }
    if h.here() != f.here() && g.here() == f.here() {
        assert(h.body(g.here()).status is Filled);
    } else if g.here() != f.here() {
        let i = f.here().index as int;
        assert(h.blocks[i] == g.blocks[i]);
    }
}

/// More sets of flags.
proof fn lemma_builds_more(f: Func, g: Func, few: Set<Set<MemFlag>>, many: Set<Set<MemFlag>>)
    requires
        builds(f, g, few),
        few.subset_of(many),
    ensures
        builds(f, g, many),
{
    assert forall|i: int, j: int|
        #![trigger g.blocks[i].insts[j]]
        0 <= i < g.blocks.len() && (if i < f.blocks.len() {
            f.blocks[i].insts.len() as int
        } else {
            0
        }) <= j < g.blocks[i].insts.len() implies has_flags(g.blocks[i].insts[j].op, many) by {
        assert(has_flags(g.blocks[i].insts[j].op, few));
    }
}

/// An instruction that defines a value.
proof fn lemma_builds_define(f: Func, op: Op, ty: Type, allowed: Set<Set<MemFlag>>)
    requires
        f.open(),
        f.room(1),
        !(op is Jump),
        has_flags(op, allowed),
    ensures
        builds(f, f.define(op, ty), allowed),
{
    let g = f.define(op, ty);
    let here = f.here().index as int;
    assert(g.blocks[here].insts == f.blocks[here].insts.push(
        Inst { op, results: seq![f.next_value()] },
    ));
}

/// An instruction that defines no value.
proof fn lemma_builds_effect(f: Func, op: Op, allowed: Set<Set<MemFlag>>)
    requires
        f.open(),
        f.room(1),
        !(op is Jump),
        has_flags(op, allowed),
    ensures
        builds(f, f.effect(op), allowed),
{
    let g = f.effect(op);
    let here = f.here().index as int;
    assert(g.blocks[here].insts == f.blocks[here].insts.push(Inst { op, results: seq![] }));
}

/// A jump to the next block ends the current block and goes on in a new one: the new block comes after
/// all others, is sealed and not cold, and holds nothing yet.
pub proof fn lemma_jump_next(f: Func)
    requires
        f.open(),
        f.room(2),
    ensures
        ({
            let g = f.jump_next();
            let here = f.cursor->0.index as int;
            let next = Block { index: f.blocks.len() as u32 };
            &&& builds(f, g, Set::empty())
            &&& g.cursor == Some(next)
            &&& g.blocks.len() == f.blocks.len() + 1
            &&& g.values == f.values
            &&& g.blocks[here].insts == f.blocks[here].insts.push(
                Inst { op: Op::Jump { target: next, args: seq![] }, results: seq![] },
            )
            &&& g.blocks[f.blocks.len() as int].insts.len() == 0
            &&& forall|i: int|
                0 <= i < f.blocks.len() && i != here ==> #[trigger] g.blocks[i] == f.blocks[i]
        }),
{
    let g = f.jump_next();
    let here = f.here().index as int;
    let next = f.next_block();
    assert(g.blocks[here].insts =~= f.blocks[here].insts.push(
        Inst { op: Op::Jump { target: next, args: seq![] }, results: seq![] },
    ));
    assert(g.blocks[f.blocks.len() as int] =~= BlockBody { sealed: true, ..BlockBody::fresh() });
}

/// A check, followed by the jump to the next block.
proof fn lemma_builds_branch(f: Func, op: Op, allowed: Set<Set<MemFlag>>)
    requires
        f.open(),
        f.room(3),
        op is Brnz || op is BrInt,
    ensures
        builds(f, f.effect(op).jump_next(), allowed),
{
    let g = f.effect(op);
    lemma_builds_effect(f, op, allowed);
    lemma_jump_next(g);
    lemma_builds_more(g, g.jump_next(), Set::empty(), allowed);
    lemma_builds_trans(f, g, g.jump_next(), allowed);
}

/// A check of the alignment accesses no memory.
pub proof fn lemma_alignment_shape(f: Func, addr: Value, bytes: u8, target: Block)
    requires
        f.open(),
        f.room(4),
    ensures
        builds(f, f.check_alignment(addr, bytes, target), Set::empty()),
{
    if bytes != 1 {
        let ty = f.int_type(addr);
        let op = Op::BandImm { ty, x: addr, imm: (bytes - 1) as i64 };
        let g = f.define(op, ty);
        let br = Op::Brnz { cond: f.next_value(), target, args: seq![] };
        lemma_builds_define(f, op, ty, Set::empty());
        lemma_builds_branch(g, br, Set::empty());
        lemma_builds_trans(f, g, g.effect(br).jump_next(), Set::empty());
    }
}

/// A shift and a mask access no memory.
proof fn lemma_shift_shape(f: Func, x: Value, shift: i64, mask: i64, allowed: Set<Set<MemFlag>>)
    requires
        f.open(),
        f.room(2),
    ensures
        builds(f, f.rshift_and_mask(x, shift, mask).0, allowed),
        f.rshift_and_mask(x, shift, mask).0.values.len() == f.values.len() + 2,
        f.rshift_and_mask(x, shift, mask).0.results.len() == f.results.len() + 2,
        f.rshift_and_mask(x, shift, mask).0.blocks.len() == f.blocks.len(),
        builds(f, f.lshift_and_mask(x, shift, mask).0, allowed),
        f.lshift_and_mask(x, shift, mask).0.values.len() == f.values.len() + 2,
        f.lshift_and_mask(x, shift, mask).0.results.len() == f.results.len() + 2,
        f.lshift_and_mask(x, shift, mask).0.blocks.len() == f.blocks.len(),
{
    reveal(Func::rshift_and_mask);
    reveal(Func::lshift_and_mask);
    let ty = f.int_type(x);
    let and = Op::BandImm { ty, x: f.next_value(), imm: mask };
    let ushr = Op::UshrImm { ty, x, imm: shift };
    let g = f.define(ushr, ty);
    lemma_builds_define(f, ushr, ty, allowed);
    lemma_builds_define(g, and, ty, allowed);
    lemma_builds_trans(f, g, g.define(and, ty), allowed);
    let ishl = Op::IshlImm { ty, x, imm: shift };
    let h = f.define(ishl, ty);
    lemma_builds_define(f, ishl, ty, allowed);
    lemma_builds_define(h, and, ty, allowed);
    lemma_builds_trans(f, h, h.define(and, ty), allowed);
}

/// The end of a lookup.
proof fn lemma_lookup_end_shape(
    f: Func,
    tag: Value,
    expected: Value,
    not_found: Block,
    tlb_addr: Value,
    offset: i32,
    allowed: Set<Set<MemFlag>>,
)
    requires
        f.open(),
        f.room(4),
        allowed.contains(code::vmctx_flags()),
    ensures
        builds(
            f,
            f.require_equal(tag, expected, not_found).load_tlb(tlb_addr, offset).0,
            allowed,
        ),
{
    let br = Op::BrInt {
        cc: IntCC::NotEqual,
        x: tag,
        y: expected,
        target: not_found,
        args: seq![],
    };
    let g = f.require_equal(tag, expected, not_found);
    lemma_builds_branch(f, br, allowed);
    let ld = Op::Load {
        ty: Type::I64,
        flags: code::vmctx_flags(),
        addr: tlb_addr,
        offset,
    };
    lemma_builds_define(g, ld, Type::I64, allowed);
    lemma_builds_trans(f, g, g.define(ld, Type::I64), allowed);
}

/// A lookup in the translation cache accesses memory with the flags of the "vmctx" part only: it
/// does not trap, it is aligned, and it does not alias with accesses to pages.
pub proof fn lemma_lookup_shape(
    f: Func,
    layout: MemLayout,
    tlb_ptr: Value,
    addr: Value,
    a: u64,
    kind: AccessKind,
    not_found: Block,
)
    requires
        f.open(),
        f.room(10),
    ensures
        ({
            let vmctx = set![MemFlag::Notrap, MemFlag::Aligned, MemFlag::Vmctx];
            let g = f.tlb_lookup(layout, tlb_ptr, addr, kind, not_found).0;
            let h = f.tlb_lookup_const(layout, tlb_ptr, a, kind, not_found).0;
            &&& builds(
                f,
                f.tlb_lookup(layout, tlb_ptr, addr, kind, not_found).0,
                set![vmctx],
            )
            &&& builds(
                f,
                f.tlb_lookup_const(layout, tlb_ptr, a, kind, not_found).0,
                set![vmctx],
            )
            &&& forall|i: int, j: int|
                #![trigger g.blocks[i].insts[j]]
                0 <= i < g.blocks.len() && (if i < f.blocks.len() {
                    f.blocks[i].insts.len() as int
                } else {
                    0
                }) <= j < g.blocks[i].insts.len() ==> match g.blocks[i].insts[j].op {
                    Op::Load { flags, .. } => flags == vmctx,
                    Op::Store { flags, .. } => flags == vmctx,
                    _ => true,
                }
            &&& forall|i: int, j: int|
                #![trigger h.blocks[i].insts[j]]
                0 <= i < h.blocks.len() && (if i < f.blocks.len() {
                    f.blocks[i].insts.len() as int
                } else {
                    0
                }) <= j < h.blocks[i].insts.len() ==> match h.blocks[i].insts[j].op {
                    Op::Load { flags, .. } => flags == vmctx,
                    Op::Store { flags, .. } => flags == vmctx,
                    _ => true,
                }
        }),
{
    let vmctx = set![MemFlag::Notrap, MemFlag::Aligned, MemFlag::Vmctx];
    let all = set![vmctx];
    assert(code::vmctx_flags() =~= vmctx);
    let k = kind.offset_in_tlb(layout);
    let shift = (layout.offset_bits - layout.entry_bits()) as i64;
    let (f1, v1) = f.rshift_and_mask(addr, shift, layout.index_mask() as i64);
    lemma_shift_shape(f, addr, shift, layout.index_mask() as i64, all);
    let (f2, v2) = lemma_entry_shape(f1, tlb_ptr, v1, k as i32, all);
    lemma_builds_trans(f, f1, f2, all);
    let tag_shift = (layout.offset_bits + layout.tlb_index_bits) as i64;
    let tag_mask = (vstd::arithmetic::power2::pow2(layout.tlb_tag_bits as nat) - 1) as i64;
    let (f3, v3) = f2.rshift_and_mask(addr, tag_shift, tag_mask);
    lemma_shift_shape(f2, addr, tag_shift, tag_mask, all);
    lemma_builds_trans(f, f2, f3, all);
    let (g1, tlb_addr) = f1.add_addr(tlb_ptr, v1);
    lemma_lookup_end_shape(f3, v3, v2, not_found, tlb_addr, (k + 8) as i32, all);
    lemma_builds_trans(f, f3, f.tlb_lookup(layout, tlb_ptr, addr, kind, not_found).0, all);

    let eo = layout.index_of(a) * layout.tlb_entry_size;
    let (c1, w1) = f.const64(eo);
    lemma_builds_define(f, Op::Iconst { ty: Type::I64, imm: eo as i64 }, Type::I64, all);
    let (c2, w2) = lemma_entry_shape(c1, tlb_ptr, w1, k as i32, all);
    lemma_builds_trans(f, c1, c2, all);
    let t = layout.tag_of(a);
    let (c3, w3) = c2.const64(t);
    lemma_builds_define(c2, Op::Iconst { ty: Type::I64, imm: t as i64 }, Type::I64, all);
    lemma_builds_trans(f, c2, c3, all);
    let (g2, tlb_addr2) = c1.add_addr(tlb_ptr, w1);
    lemma_lookup_end_shape(c3, w3, w2, not_found, tlb_addr2, (k + 8) as i32, all);
    lemma_builds_trans(f, c3, f.tlb_lookup_const(layout, tlb_ptr, a, kind, not_found).0, all);
}

/// The address of an entry and the load of its tag.
proof fn lemma_entry_shape(
    f: Func,
    tlb_ptr: Value,
    entry_offset: Value,
    offset: i32,
    allowed: Set<Set<MemFlag>>,
) -> (r: (Func, Value))
    requires
        f.open(),
        f.room(2),
        allowed.contains(code::vmctx_flags()),
    ensures
        ({
            let (g, tlb_addr) = f.add_addr(tlb_ptr, entry_offset);
            r == g.load_tlb(tlb_addr, offset)
        }),
        builds(f, r.0, allowed),
        r.0.values.len() == f.values.len() + 2,
        r.0.results.len() == f.results.len() + 2,
        r.0.blocks.len() == f.blocks.len(),
{
    let (g, tlb_addr) = f.add_addr(tlb_ptr, entry_offset);
    let add = Op::Iadd { ty: Type::I64, x: tlb_ptr, y: entry_offset };
    lemma_builds_define(f, add, Type::I64, allowed);
    let ld = Op::Load {
        ty: Type::I64,
        flags: code::vmctx_flags(),
        addr: tlb_addr,
        offset,
    };
    lemma_builds_define(g, ld, Type::I64, allowed);
    lemma_builds_trans(f, g, g.define(ld, Type::I64), allowed);
    g.load_tlb(tlb_addr, offset)
}

/// A check of the permissions accesses memory with the flags of the "heap" part only.
pub proof fn lemma_perm_shape(
    f: Func,
    layout: MemLayout,
    host_addr: Value,
    ty: Type,
    perm: u8,
    target: Block,
)
    requires
        f.open(),
        f.room(8),
    ensures
        ({
            let heap = set![MemFlag::Notrap, MemFlag::Aligned, MemFlag::Heap];
            let g = f.check_perm(layout, host_addr, ty, perm, target);
            &&& builds(f, g, set![heap])
            &&& forall|i: int, j: int|
                #![trigger g.blocks[i].insts[j]]
                0 <= i < g.blocks.len() && (if i < f.blocks.len() {
                    f.blocks[i].insts.len() as int
                } else {
                    0
                }) <= j < g.blocks[i].insts.len() ==> match g.blocks[i].insts[j].op {
                    Op::Load { flags, .. } => flags == heap,
                    Op::Store { flags, .. } => flags == heap,
                    _ => true,
                }
        }),
{
    let heap = set![MemFlag::Notrap, MemFlag::Aligned, MemFlag::Heap];
    let all = set![heap];
    assert(code::heap_flags() =~= heap);
    let ld = Op::Load {
        ty,
        flags: code::heap_flags(),
        addr: host_addr,
        offset: layout.perm_offset as i32,
    };
    let f1 = f.define(ld, ty);
    lemma_builds_define(f, ld, ty, all);
    let (f2, wanted) = f1.splat_const(perm, ty);
    lemma_splat_shape(f1, perm, ty, all);
    lemma_builds_trans(f, f1, f2, all);
    let and = Op::Band { ty, x: f.next_value(), y: wanted };
    let f3 = f2.define(and, ty);
    lemma_builds_define(f2, and, ty, all);
    lemma_builds_trans(f, f2, f3, all);
    let br = Op::BrInt {
        cc: IntCC::NotEqual,
        x: f2.next_value(),
        y: wanted,
        target,
        args: seq![],
    };
    lemma_builds_branch(f3, br, all);
    lemma_builds_trans(f, f3, f3.effect(br).jump_next(), all);
}

/// A repeated byte accesses no memory.
proof fn lemma_splat_shape(f: Func, value: u8, ty: Type, allowed: Set<Set<MemFlag>>)
    requires
        f.open(),
        f.room(3),
    ensures
        builds(f, f.splat_const(value, ty).0, allowed),
        f.splat_const(value, ty).0.values.len() <= f.values.len() + 3,
        f.splat_const(value, ty).0.results.len() <= f.results.len() + 3,
        f.splat_const(value, ty).0.blocks.len() == f.blocks.len(),
{
    if ty is I128 {
        let op = Op::Iconst {
            ty: Type::I64,
            imm: code::repeated(value, 8) as u64 as i64,
        };
        let g = f.define(op, Type::I64);
        let h = g.define(op, Type::I64);
        let cat = Op::Iconcat { lo: f.next_value(), hi: g.next_value() };
        lemma_builds_define(f, op, Type::I64, allowed);
        lemma_builds_define(g, op, Type::I64, allowed);
        lemma_builds_trans(f, g, h, allowed);
        lemma_builds_define(h, cat, Type::I128, allowed);
        lemma_builds_trans(f, h, h.define(cat, Type::I128), allowed);
    } else {
        let op = Op::Iconst {
            ty,
            imm: code::repeated(value, ty.size()) as u64 as i64,
        };
        lemma_builds_define(f, op, ty, allowed);
    }
}

/// Whether the code that leads from `f` to `g` stays in the block that it starts in and accesses no
/// memory.
spec fn computes(f: Func, g: Func, n: nat) -> bool {
    &&& forall|allowed: Set<Set<MemFlag>>| #[trigger] builds(f, g, allowed)
    &&& g.blocks.len() == f.blocks.len()
    &&& g.values.len() == f.values.len() + n
    &&& g.results.len() == f.results.len() + n
}

/// A computation after which another follows.
proof fn lemma_computes_trans(f: Func, g: Func, h: Func, n: nat, m: nat)
    requires
        computes(f, g, n),
        computes(g, h, m),
    ensures
        computes(f, h, n + m),
{
    assert forall|allowed: Set<Set<MemFlag>>| #[trigger] builds(f, h, allowed) by {
        assert(builds(f, g, allowed) && builds(g, h, allowed));
        lemma_builds_trans(f, g, h, allowed);
    }
}

/// A shift to the right and a mask, after other computations.
proof fn lemma_rshift_computes(f: Func, g: Func, n: nat, x: Value, shift: i64, mask: i64) -> (r: (
    Func,
    Value,
))
    requires
        f.open(),
        f.room(n + 2),
        computes(f, g, n),
    ensures
        r == g.rshift_and_mask(x, shift, mask),
        computes(f, r.0, n + 2),
{
    let r = g.rshift_and_mask(x, shift, mask);
    assert(builds(f, g, Set::empty()));
    assert forall|allowed: Set<Set<MemFlag>>| #[trigger] builds(g, r.0, allowed) by {
        lemma_shift_shape(g, x, shift, mask, allowed);
    }
    lemma_shift_shape(g, x, shift, mask, Set::empty());
    lemma_computes_trans(f, g, r.0, n, 2);
    r
}

/// A shift to the left and a mask, after other computations.
proof fn lemma_lshift_computes(f: Func, g: Func, n: nat, x: Value, shift: i64, mask: i64) -> (r: (
    Func,
    Value,
))
    requires
        f.open(),
        f.room(n + 2),
        computes(f, g, n),
    ensures
        r == g.lshift_and_mask(x, shift, mask),
        computes(f, r.0, n + 2),
{
    let r = g.lshift_and_mask(x, shift, mask);
    assert(builds(f, g, Set::empty()));
    assert forall|allowed: Set<Set<MemFlag>>| #[trigger] builds(g, r.0, allowed) by {
        lemma_shift_shape(g, x, shift, mask, allowed);
    }
    lemma_shift_shape(g, x, shift, mask, Set::empty());
    lemma_computes_trans(f, g, r.0, n, 2);
    r
}

/// A bitwise or, after other computations.
proof fn lemma_or_computes(f: Func, g: Func, n: nat, x: Value, y: Value) -> (r: (Func, Value))
    requires
        f.open(),
        f.room(n + 1),
        computes(f, g, n),
    ensures
        r == g.or(x, y),
        computes(f, r.0, n + 1),
{
    reveal(Func::or);
    let r = g.or(x, y);
    assert(builds(f, g, Set::empty()));
    let op = Op::Bor { ty: g.int_type(x), x, y };
    assert forall|allowed: Set<Set<MemFlag>>| #[trigger] builds(g, r.0, allowed) by {
        lemma_builds_define(g, op, g.int_type(x), allowed);
    }
    lemma_computes_trans(f, g, r.0, n, 1);
    r
}

/// Nothing is a computation.
proof fn lemma_nothing_computes(f: Func)
    requires
        f.open(),
    ensures
        computes(f, f, 0),
{
}

/// Swapping bytes accesses no memory and stays in its block.
pub proof fn lemma_bswap_shape(f: Func, x: Value, ty: Type)
    requires
        f.open(),
        f.room(23),
    ensures
        builds(f, f.bswap(x, ty).0, Set::empty()),
        f.bswap(x, ty).0.blocks.len() == f.blocks.len(),
        f.bswap(x, ty).0.values.len() <= f.values.len() + 23,
        f.bswap(x, ty).0.results.len() <= f.results.len() + 23,
{
    lemma_nothing_computes(f);
    match ty {
        Type::I16 => {
            let (g, a) = lemma_rshift_computes(f, f, 0, x, 8, 0x00ff);
            let (g, b) = lemma_lshift_computes(f, g, 2, x, 8, 0xff00);
            let (g, r) = lemma_or_computes(f, g, 4, a, b);
            assert(builds(f, g, Set::empty()));
        },
        Type::I32 => {
            let (g, a) = lemma_rshift_computes(f, f, 0, x, 24, 0x000000ff);
            let (g, b) = lemma_rshift_computes(f, g, 2, x, 8, 0x0000ff00);
            let (g, c) = lemma_lshift_computes(f, g, 4, x, 8, 0x00ff0000);
            let (g, d) = lemma_lshift_computes(f, g, 6, x, 24, 0xff000000);
            let (g, ab) = lemma_or_computes(f, g, 8, a, b);
            let (g, cd) = lemma_or_computes(f, g, 9, c, d);
            let (g, r) = lemma_or_computes(f, g, 10, ab, cd);
            assert(builds(f, g, Set::empty()));
        },
        Type::I64 => {
            let (g, a) = lemma_rshift_computes(f, f, 0, x, 56, 0x00000000_000000ff);
            let (g, b) = lemma_rshift_computes(f, g, 2, x, 40, 0x00000000_0000ff00);
            let (g, c) = lemma_rshift_computes(f, g, 4, x, 24, 0x00000000_00ff0000);
            let (g, d) = lemma_rshift_computes(f, g, 6, x, 8, 0x00000000_ff000000);
            let (g, e) = lemma_lshift_computes(f, g, 8, x, 8, 0x000000ff_00000000);
            let (g, h) = lemma_lshift_computes(f, g, 10, x, 24, 0x0000ff00_00000000);
            let (g, i) = lemma_lshift_computes(f, g, 12, x, 40, 0x00ff0000_00000000);
            let (g, j) = lemma_lshift_computes(f, g, 14, x, 56, 0xff000000_00000000u64 as i64);
            let (g, ab) = lemma_or_computes(f, g, 16, a, b);
            let (g, cd) = lemma_or_computes(f, g, 17, c, d);
            let (g, abcd) = lemma_or_computes(f, g, 18, ab, cd);
            let (g, eh) = lemma_or_computes(f, g, 19, e, h);
            let (g, ij) = lemma_or_computes(f, g, 20, i, j);
            let (g, ehij) = lemma_or_computes(f, g, 21, eh, ij);
            let (g, r) = lemma_or_computes(f, g, 22, abcd, ehij);
            assert(builds(f, g, Set::empty()));
        },
        _ => {
            assert(builds(f, f, Set::empty()));
        },
    }
}

/// A load from a page and a store to a page access memory with the flags of the "heap" part and of the
/// guest's byte order only, and stay in their block.
pub proof fn lemma_host_shape(
    f: Func,
    endianness: Endianness,
    addr: Value,
    value: Value,
    ty: Type,
)
    requires
        f.open(),
        f.room(25),
    ensures
        ({
            let page = set![
                MemFlag::Notrap,
                MemFlag::Aligned,
                MemFlag::Heap,
                if endianness == Endianness::Little {
                    MemFlag::LittleEndian
                } else {
                    MemFlag::BigEndian
                },
            ];
            let (loaded, _) = f.load_host(endianness, addr, ty);
            let stored = f.store_host(endianness, addr, value, ty);
            &&& builds(f, loaded, set![page])
            &&& loaded.blocks.len() == f.blocks.len()
            &&& builds(f, stored, set![page])
            &&& stored.blocks.len() == f.blocks.len()
            &&& forall|i: int, j: int|
                #![trigger loaded.blocks[i].insts[j]]
                0 <= i < loaded.blocks.len() && (if i < f.blocks.len() {
                    f.blocks[i].insts.len() as int
                } else {
                    0
                }) <= j < loaded.blocks[i].insts.len() ==> match loaded.blocks[i].insts[j].op {
                    Op::Load { flags, .. } => flags == page,
                    Op::Store { flags, .. } => flags == page,
                    _ => true,
                }
            &&& forall|i: int, j: int|
                #![trigger stored.blocks[i].insts[j]]
                0 <= i < stored.blocks.len() && (if i < f.blocks.len() {
                    f.blocks[i].insts.len() as int
                } else {
                    0
                }) <= j < stored.blocks[i].insts.len() ==> match stored.blocks[i].insts[j].op {
                    Op::Load { flags, .. } => flags == page,
                    Op::Store { flags, .. } => flags == page,
                    _ => true,
                }
        }),
{
    reveal(Func::load_host);
    reveal(Func::store_host);
    let flags = set![
        MemFlag::Notrap,
        MemFlag::Aligned,
        MemFlag::Heap,
        if endianness == Endianness::Little {
            MemFlag::LittleEndian
        } else {
            MemFlag::BigEndian
        },
    ];
    let all = set![flags];
    assert(code::guest_flags(endianness) =~= flags);
    let ld = Op::Load { ty, flags: code::guest_flags(endianness), addr, offset: 0 };
    let g = f.define(ld, ty);
    lemma_builds_define(f, ld, ty, all);
    if !(endianness is Little) {
        lemma_bswap_shape(g, f.next_value(), ty);
        let h = g.bswap(f.next_value(), ty).0;
        lemma_builds_more(g, h, Set::empty(), all);
        lemma_builds_trans(f, g, h, all);
    }
    let (h, stored) = if endianness is Little {
        (f, value)
    } else {
        f.bswap(value, ty)
    };
    lemma_bswap_shape(f, value, ty);
    if endianness is Little {
        lemma_nothing_computes(f);
        assert(builds(f, h, Set::empty()));
    }
    lemma_builds_more(f, h, Set::empty(), all);
    let st = Op::Store {
        ty,
        flags: code::guest_flags(endianness),
        value: stored,
        addr,
        offset: 0,
    };
    lemma_builds_effect(h, st, all);
    lemma_builds_trans(f, h, h.effect(st), all);
}

/// A machine that is about to run what is added next to `f`.
spec fn idle(f: Func) -> Machine {
    Machine {
        block: f.here(),
        pc: f.body(f.here()).insts.len(),
        env: Map::empty(),
        mem: |a: u64| 0u8,
    }
}

/// The checks of an access access memory with the flags of the "vmctx" part or those of the "heap"
/// part only.
pub proof fn lemma_inline_shape(
    f: Func,
    layout: MemLayout,
    tlb_ptr: Value,
    guest_addr: pcode::Value,
    addr: Value,
    ty: Type,
    kind: AccessKind,
    fallback: Block,
)
    requires
        layout.wf(),
        f.open(),
        f.room(26),
        f.has_type(addr, Type::I64),
        f.has_type(tlb_ptr, Type::I64),
        f.can_branch(fallback),
        f.body(fallback).params.len() == 0,
    ensures
        builds(
            f,
            f.try_inline_access(layout, tlb_ptr, guest_addr, addr, ty, kind, fallback).0,
            set![
                set![MemFlag::Notrap, MemFlag::Aligned, MemFlag::Vmctx],
                set![MemFlag::Notrap, MemFlag::Aligned, MemFlag::Heap],
            ],
        ),
{
    reveal(Func::try_inline_access);
    let vmctx = set![MemFlag::Notrap, MemFlag::Aligned, MemFlag::Vmctx];
    let heap = set![MemFlag::Notrap, MemFlag::Aligned, MemFlag::Heap];
    let all = set![vmctx, heap];
    let perm = kind.required(layout);
    match guest_addr {
        pcode::Value::Const(a, _) => {
            let (f1, page_ptr) = f.tlb_lookup_const(layout, tlb_ptr, a, kind, fallback);
            let m = laws::lemma_tlb_lookup_const(
                f,
                idle(f),
                layout,
                tlb_ptr,
                a,
                kind,
                fallback,
            );
            lemma_lookup_shape(f, layout, tlb_ptr, addr, a, kind, fallback);
            lemma_builds_more(f, f1, set![vmctx], all);
            let o = layout.offset_in_page(a);
            let op = Op::Iconst { ty: Type::I64, imm: o as i64 };
            let f2 = f1.define(op, Type::I64);
            lemma_builds_define(f1, op, Type::I64, all);
            lemma_builds_trans(f, f1, f2, all);
            lemma_page_shape(f2, layout, page_ptr, f1.next_value(), ty, perm, fallback, all);
            let (f3, host_addr) = f2.add_addr(page_ptr, f1.next_value());
            lemma_builds_trans(
                f,
                f2,
                f3.check_perm(layout, host_addr, ty, perm, fallback),
                all,
            );
        },
        pcode::Value::Var(_) => {
            let size = ty.size() as u8;
            let f0 = f.check_alignment(addr, size, fallback);
            lemma_alignment_shape(f, addr, size, fallback);
            lemma_builds_more(f, f0, Set::empty(), all);
            assert(f0.blocks[fallback.index as int].params == f.blocks[fallback.index as int].params
                && f0.blocks[fallback.index as int].sealed
                == f.blocks[fallback.index as int].sealed);
            let (f1, page_ptr) = f0.tlb_lookup(layout, tlb_ptr, addr, kind, fallback);
            let m = laws::lemma_tlb_lookup(
                f0,
                idle(f0),
                layout,
                tlb_ptr,
                addr,
                kind,
                fallback,
            );
            lemma_lookup_shape(f0, layout, tlb_ptr, addr, 0, kind, fallback);
            lemma_builds_more(f0, f1, set![vmctx], all);
            lemma_builds_trans(f, f0, f1, all);
            let op = Op::BandImm {
                ty: Type::I64,
                x: addr,
                imm: (vstd::arithmetic::power2::pow2(layout.offset_bits as nat) - 1) as i64,
            };
            let f2 = f1.define(op, Type::I64);
            lemma_builds_define(f1, op, Type::I64, all);
            lemma_builds_trans(f, f1, f2, all);
            lemma_page_shape(f2, layout, page_ptr, f1.next_value(), ty, perm, fallback, all);
            let (f3, host_addr) = f2.add_addr(page_ptr, f1.next_value());
            lemma_builds_trans(
                f,
                f2,
                f3.check_perm(layout, host_addr, ty, perm, fallback),
                all,
            );
        },
    }
}

/// The host address and the check of the permissions there.
proof fn lemma_page_shape(
    f: Func,
    layout: MemLayout,
    page_ptr: Value,
    offset: Value,
    ty: Type,
    perm: u8,
    fallback: Block,
    allowed: Set<Set<MemFlag>>,
)
    requires
        f.open(),
        f.room(9),
        allowed.contains(set![MemFlag::Notrap, MemFlag::Aligned, MemFlag::Heap]),
    ensures
        ({
            let (g, host_addr) = f.add_addr(page_ptr, offset);
            builds(f, g.check_perm(layout, host_addr, ty, perm, fallback), allowed)
        }),
{
    let (g, host_addr) = f.add_addr(page_ptr, offset);
    lemma_builds_define(
        f,
        Op::Iadd { ty: Type::I64, x: page_ptr, y: offset },
        Type::I64,
        allowed,
    );
    lemma_perm_shape(g, layout, host_addr, ty, perm, fallback);
    let h = g.check_perm(layout, host_addr, ty, perm, fallback);
    lemma_builds_more(
        g,
        h,
        set![set![MemFlag::Notrap, MemFlag::Aligned, MemFlag::Heap]],
        allowed,
    );
    lemma_builds_trans(f, g, h, allowed);
}

/// The blocks of a load with an inline path. The block in which the load ends comes first and takes an
/// integer of the size of the output; it is not sealed yet. The block of the slow path comes next; it
/// is cold and sealed, and the slow path is built there. All other new blocks are sealed, complete
/// and not cold, the block in which the load started is complete, and no other block has changed.
/// Each access to memory has the flags of the "vmctx" part, those of the "heap" part, or the latter
/// with the guest's byte order.
pub proof fn lemma_load_blocks<'a>(
    load: LoadRam,
    start: &Translator<'a>,
    addr: Value,
)
    requires
        load.stage is ReadAddress,
        load.can_resume(start, Reply::Value(addr)),
        !(load.guest_addr is Const && load.guest_addr->Const_0 as int % load.output.size as int
            != 0),
    ensures
        ({
            let (g, _) = load.after(start, Reply::Value(addr));
            let f = start.func();
            let s = f.blocks.len() as int;
            let here = f.cursor->0.index as int;
            let order = if start.ctx.endianness == Endianness::Little {
                MemFlag::LittleEndian
            } else {
                MemFlag::BigEndian
            };
            let allowed = set![
                set![MemFlag::Notrap, MemFlag::Aligned, MemFlag::Vmctx],
                set![MemFlag::Notrap, MemFlag::Aligned, MemFlag::Heap],
                set![MemFlag::Notrap, MemFlag::Aligned, MemFlag::Heap, order],
            ];
            &&& g.blocks.len() >= s + 2
            &&& g.cursor is Some && g.cursor->0.index == s + 1
            &&& g.blocks[s].params.len() == 1
            &&& g.values[g.blocks[s].params[0].index as int] is Some
            &&& g.values[g.blocks[s].params[0].index as int]->0.size() == load.output.size
            &&& g.blocks[s].insts.len() == 0 && g.blocks[s].status is Empty
            &&& !g.blocks[s].sealed && !g.blocks[s].cold && !g.blocks[s].pending
            &&& g.blocks[s + 1].params.len() == 0
            &&& g.blocks[s + 1].insts.len() == 0 && g.blocks[s + 1].status is Empty
            &&& g.blocks[s + 1].sealed && g.blocks[s + 1].cold && !g.blocks[s + 1].pending
            &&& forall|i: int|
                s + 2 <= i < g.blocks.len() ==> {
                    &&& (#[trigger] g.blocks[i]).sealed && !g.blocks[i].cold && !g.blocks[i].pending
                    &&& g.blocks[i].params.len() == 0
                    &&& g.blocks[i].status is Filled
                }
            &&& g.blocks[here].status is Filled
            &&& g.blocks[here].sealed == f.blocks[here].sealed
            &&& g.blocks[here].cold == f.blocks[here].cold
            &&& forall|i: int| 0 <= i < s && i != here ==> #[trigger] g.blocks[i] == f.blocks[i]
            &&& forall|i: int, j: int|
                #![trigger g.blocks[i].insts[j]]
                0 <= i < g.blocks.len() && (if i < s {
                    f.blocks[i].insts.len() as int
                } else {
                    0
                }) <= j < g.blocks[i].insts.len() ==> match g.blocks[i].insts[j].op {
                    Op::Load { flags, .. } => allowed.contains(flags),
                    Op::Store { flags, .. } => allowed.contains(flags),
                    _ => true,
                }
        }),
{
    let f = start.func();
    let ty = load.ty();
    let f0 = f.load_blocks(ty);
    let operand = load.guest_addr;
    let kind = AccessKind::Load;
    let fallback = f.fallback_block();
    let order = if start.ctx.endianness == Endianness::Little {
        MemFlag::LittleEndian
    } else {
        MemFlag::BigEndian
    };
    let vmctx = set![MemFlag::Notrap, MemFlag::Aligned, MemFlag::Vmctx];
    let heap = set![MemFlag::Notrap, MemFlag::Aligned, MemFlag::Heap];
    let page = set![MemFlag::Notrap, MemFlag::Aligned, MemFlag::Heap, order];
    let all = set![vmctx, heap, page];
    let s = f.blocks.len() as int;
    let (f1, host_addr) = f0.try_inline_access(
        start.layout,
        start.tlb_ptr,
        operand,
        addr,
        ty,
        kind,
        fallback,
    );
    lemma_access_grows(f0, start.layout, start.tlb_ptr, operand, addr, ty, kind, fallback);
    lemma_inline_shape(f0, start.layout, start.tlb_ptr, operand, addr, ty, kind, fallback);
    lemma_builds_more(f0, f1, set![vmctx, heap], all);
    let (f2, loaded) = f1.load_host(start.ctx.endianness, host_addr, ty);
    lemma_host_shape(f1, start.ctx.endianness, host_addr, addr, ty);
    let jump = Op::Jump { target: f.next_block(), args: seq![loaded] };
    lemma_builds_more(f1, f2, set![page], all);
    lemma_builds_trans(f0, f1, f2, all);
    let f3 = f2.effect(jump);
    let g = f3.switch_to(fallback).seal(fallback);
    assert(g == load.after(start, Reply::Value(addr)).0);
    assert(f2.blocks[s] == f0.blocks[s] && f2.blocks[s + 1] == f0.blocks[s + 1]);
    let end = f2.here().index as int;
    assert(end != s && end != s + 1);
    assert(f3.blocks[end].insts == f2.blocks[end].insts.push(
        Inst { op: jump, results: seq![] },
    ));
    assert forall|i: int| s + 2 <= i < g.blocks.len() implies {
        &&& (#[trigger] g.blocks[i]).sealed && !g.blocks[i].cold && !g.blocks[i].pending
        &&& g.blocks[i].params.len() == 0
        &&& g.blocks[i].status is Filled
    } by {
        assert(f2.blocks[i].sealed);
    }
    assert forall|i: int, j: int|
        #![trigger g.blocks[i].insts[j]]
        0 <= i < g.blocks.len() && (if i < s {
            f.blocks[i].insts.len() as int
        } else {
            0
        }) <= j < g.blocks[i].insts.len() implies has_flags(g.blocks[i].insts[j].op, all) by {
        if i == end && j == f2.blocks[i].insts.len() {
            assert(g.blocks[i].insts[j].op == jump);
        } else {
            assert(g.blocks[i].insts[j] == f2.blocks[i].insts[j]);
            assert(has_flags(f2.blocks[i].insts[j].op, all));
        }
    }
    assert forall|i: int| 0 <= i < s && i != f.here().index implies #[trigger] g.blocks[i]
        == f.blocks[i] by {
        assert(f2.blocks[i] == f0.blocks[i]);
    }
}

/// The blocks of a store with an inline path. The block in which the store ends comes first and takes
/// nothing; it is not sealed yet. The block of the slow path comes next; it is cold and sealed, and the
/// slow path is built there. All other new blocks are sealed, complete and not cold, the block in
/// which the store started is complete, and no other block has changed. Each access to memory has the
/// flags of the "vmctx" part, those of the "heap" part, or the latter with the guest's byte order.
pub proof fn lemma_store_blocks<'a>(
    store: StoreRam,
    start: &Translator<'a>,
    value: Value,
)
    requires
        store.stage is ReadValue,
        store.can_resume(start, Reply::Value(value)),
        !(store.guest_addr is Const && store.guest_addr->Const_0 as int % store.value.bytes() as int
            != 0),
    ensures
        ({
            let (g, _) = store.after(start, Reply::Value(value));
            let f = start.func();
            let s = f.blocks.len() as int;
            let here = f.cursor->0.index as int;
            let order = if start.ctx.endianness == Endianness::Little {
                MemFlag::LittleEndian
            } else {
                MemFlag::BigEndian
            };
            let allowed = set![
                set![MemFlag::Notrap, MemFlag::Aligned, MemFlag::Vmctx],
                set![MemFlag::Notrap, MemFlag::Aligned, MemFlag::Heap],
                set![MemFlag::Notrap, MemFlag::Aligned, MemFlag::Heap, order],
            ];
            &&& g.blocks.len() >= s + 2
            &&& g.cursor is Some && g.cursor->0.index == s + 1
            &&& g.blocks[s].params.len() == 0
            &&& g.blocks[s].insts.len() == 0 && g.blocks[s].status is Empty
            &&& !g.blocks[s].sealed && !g.blocks[s].cold && !g.blocks[s].pending
            &&& g.blocks[s + 1].params.len() == 0
            &&& g.blocks[s + 1].insts.len() == 0 && g.blocks[s + 1].status is Empty
            &&& g.blocks[s + 1].sealed && g.blocks[s + 1].cold && !g.blocks[s + 1].pending
            &&& forall|i: int|
                s + 2 <= i < g.blocks.len() ==> {
                    &&& (#[trigger] g.blocks[i]).sealed && !g.blocks[i].cold && !g.blocks[i].pending
                    &&& g.blocks[i].params.len() == 0
                    &&& g.blocks[i].status is Filled
                }
            &&& g.blocks[here].status is Filled
            &&& g.blocks[here].sealed == f.blocks[here].sealed
            &&& g.blocks[here].cold == f.blocks[here].cold
            &&& forall|i: int| 0 <= i < s && i != here ==> #[trigger] g.blocks[i] == f.blocks[i]
            &&& forall|i: int, j: int|
                #![trigger g.blocks[i].insts[j]]
                0 <= i < g.blocks.len() && (if i < s {
                    f.blocks[i].insts.len() as int
                } else {
                    0
                }) <= j < g.blocks[i].insts.len() ==> match g.blocks[i].insts[j].op {
                    Op::Load { flags, .. } => allowed.contains(flags),
                    Op::Store { flags, .. } => allowed.contains(flags),
                    _ => true,
                }
        }),
{
    let f = start.func();
    let ty = store.ty();
    let f0 = f.store_blocks();
    let operand = store.guest_addr;
    let addr = store.stage->ReadValue_guest_addr;
    let kind = AccessKind::Store;
    let fallback = f.fallback_block();
    let order = if start.ctx.endianness == Endianness::Little {
        MemFlag::LittleEndian
    } else {
        MemFlag::BigEndian
    };
    let vmctx = set![MemFlag::Notrap, MemFlag::Aligned, MemFlag::Vmctx];
    let heap = set![MemFlag::Notrap, MemFlag::Aligned, MemFlag::Heap];
    let page = set![MemFlag::Notrap, MemFlag::Aligned, MemFlag::Heap, order];
    let all = set![vmctx, heap, page];
    let s = f.blocks.len() as int;
    let (f1, host_addr) = f0.try_inline_access(
        start.layout,
        start.tlb_ptr,
        operand,
        addr,
        ty,
        kind,
        fallback,
    );
    lemma_access_grows(f0, start.layout, start.tlb_ptr, operand, addr, ty, kind, fallback);
    lemma_inline_shape(f0, start.layout, start.tlb_ptr, operand, addr, ty, kind, fallback);
    lemma_builds_more(f0, f1, set![vmctx, heap], all);
    let f2 = f1.store_host(start.ctx.endianness, host_addr, value, ty);
    lemma_host_shape(f1, start.ctx.endianness, host_addr, value, ty);
    let jump = Op::Jump { target: f.next_block(), args: seq![] };
    lemma_builds_more(f1, f2, set![page], all);
    lemma_builds_trans(f0, f1, f2, all);
    let f3 = f2.effect(jump);
    let g = f3.switch_to(fallback).seal(fallback);
    assert(g == store.after(start, Reply::Value(value)).0);
    assert(f2.blocks[s] == f0.blocks[s] && f2.blocks[s + 1] == f0.blocks[s + 1]);
    let end = f2.here().index as int;
    assert(end != s && end != s + 1);
    assert(f3.blocks[end].insts == f2.blocks[end].insts.push(
        Inst { op: jump, results: seq![] },
    ));
    assert forall|i: int| s + 2 <= i < g.blocks.len() implies {
        &&& (#[trigger] g.blocks[i]).sealed && !g.blocks[i].cold && !g.blocks[i].pending
        &&& g.blocks[i].params.len() == 0
        &&& g.blocks[i].status is Filled
    } by {
        assert(f2.blocks[i].sealed);
    }
    assert forall|i: int, j: int|
        #![trigger g.blocks[i].insts[j]]
        0 <= i < g.blocks.len() && (if i < s {
            f.blocks[i].insts.len() as int
        } else {
            0
        }) <= j < g.blocks[i].insts.len() implies has_flags(g.blocks[i].insts[j].op, all) by {
        if i == end && j == f2.blocks[i].insts.len() {
            assert(g.blocks[i].insts[j].op == jump);
        } else {
            assert(g.blocks[i].insts[j] == f2.blocks[i].insts[j]);
            assert(has_flags(f2.blocks[i].insts[j].op, all));
        }
    }
    assert forall|i: int| 0 <= i < s && i != f.here().index implies #[trigger] g.blocks[i]
        == f.blocks[i] by {
        assert(f2.blocks[i] == f0.blocks[i]);
    }
}

/// What joins the two paths of a load: the exit is cold, the block in which the slow path ends jumps to
/// the block in which the load ends, with the integer that the slow path has loaded, and that block is
/// sealed and built next. Without an inline path only the exit is marked. Nothing else changes.
pub proof fn lemma_load_join<'a>(leave: LoadRam, exited: &Translator<'a>, exit: Block)
    requires
        leave.stage is Exit,
        leave.can_resume(exited, Reply::Block(exit)),
    ensures
        ({
            let (j, end) = leave.after(exited, Reply::Block(exit));
            let f = exited.func();
            let here = f.cursor->0.index as int;
            let value = leave.stage->Exit_value;
            let success = leave.stage->Exit_success;
            &&& j.values == f.values
            &&& j.blocks.len() == f.blocks.len()
            &&& j.cursor == (if success is Some {
                success
            } else {
                f.cursor
            })
            &&& forall|i: int|
                0 <= i < f.blocks.len() ==> {
                    &&& (#[trigger] j.blocks[i]).params == f.blocks[i].params
                    &&& j.blocks[i].pending == f.blocks[i].pending
                    &&& j.blocks[i].cold <==> f.blocks[i].cold || i == exit.index
                    &&& j.blocks[i].sealed <==> f.blocks[i].sealed || success is Some && i
                        == success->0.index
                    &&& success is Some && i == here ==> {
                        &&& j.blocks[i].status is Filled
                        &&& j.blocks[i].insts == f.blocks[i].insts.push(
                            Inst {
                                op: Op::Jump { target: success->0, args: seq![value] },
                                results: seq![],
                            },
                        )
                    }
                    &&& !(success is Some && i == here) ==> {
                        &&& j.blocks[i].status == f.blocks[i].status
                        &&& j.blocks[i].insts == f.blocks[i].insts
                    }
                }
            &&& success is Some ==> end.stage == LoadStage::Write {
                value: f.blocks[success->0.index as int].params[0],
            }
            &&& success is None ==> end.stage == LoadStage::Write { value }
        }),
{
}

/// What joins the two paths of a store: the same, without an integer.
pub proof fn lemma_store_join<'a>(leave: StoreRam, exited: &Translator<'a>, exit: Block)
    requires
        leave.stage is Exit,
        leave.can_resume(exited, Reply::Block(exit)),
    ensures
        ({
            let (j, end) = leave.after(exited, Reply::Block(exit));
            let f = exited.func();
            let here = f.cursor->0.index as int;
            let success = leave.stage->Exit_success;
            &&& j.values == f.values
            &&& j.blocks.len() == f.blocks.len()
            &&& j.cursor == (if success is Some {
                success
            } else {
                f.cursor
            })
            &&& forall|i: int|
                0 <= i < f.blocks.len() ==> {
                    &&& (#[trigger] j.blocks[i]).params == f.blocks[i].params
                    &&& j.blocks[i].pending == f.blocks[i].pending
                    &&& j.blocks[i].cold <==> f.blocks[i].cold || i == exit.index
                    &&& j.blocks[i].sealed <==> f.blocks[i].sealed || success is Some && i
                        == success->0.index
                    &&& success is Some && i == here ==> {
                        &&& j.blocks[i].status is Filled
                        &&& j.blocks[i].insts == f.blocks[i].insts.push(
                            Inst {
                                op: Op::Jump { target: success->0, args: seq![] },
                                results: seq![],
                            },
                        )
                    }
                    &&& !(success is Some && i == here) ==> {
                        &&& j.blocks[i].status == f.blocks[i].status
                        &&& j.blocks[i].insts == f.blocks[i].insts
                    }
                }
            &&& end.stage is Finished
        }),
{
}

/// The checks of an access grow the function by no more than they need.
pub proof fn lemma_access_grows(
    f: Func,
    layout: MemLayout,
    tlb_ptr: Value,
    guest_addr: pcode::Value,
    addr: Value,
    ty: Type,
    kind: AccessKind,
    fallback: Block,
)
    requires
        layout.wf(),
        f.open(),
        f.room(26),
        f.has_type(addr, Type::I64),
        f.has_type(tlb_ptr, Type::I64),
        f.can_branch(fallback),
        f.body(fallback).params.len() == 0,
    ensures
        f.grows_to(
            f.try_inline_access(layout, tlb_ptr, guest_addr, addr, ty, kind, fallback).0,
            24,
        ),
{
    reveal(Func::try_inline_access);
    match guest_addr {
        pcode::Value::Const(a, _) => {
            laws::lemma_inline_access_const(
                f,
                idle(f),
                layout,
                tlb_ptr,
                a,
                ty,
                kind,
                fallback,
            );
        },
        pcode::Value::Var(_) => {
            laws::lemma_inline_access(f, idle(f), layout, tlb_ptr, addr, ty, kind, fallback);
        },
    }
}

} // verus!
