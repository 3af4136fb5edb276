//! The code of an access, instruction by instruction: what is accessed in memory, where, and after
//! which checks.

use crate::code;
use crate::ir::{Block, Endianness, Func, Inst, IntCC, MemFlag, Op, Type, Value};
use crate::laws;
use crate::layout::MemLayout;
use crate::machine::Machine;
use crate::mem::AccessKind;
use crate::pcode;
use crate::ram::{LoadRam, Reply, StoreRam};
use crate::shape;
use crate::translator::Translator;
use vstd::arithmetic::power2::pow2;
use vstd::prelude::*;

verus! {

/// The value with a number.
pub open spec fn val(i: int) -> Value {
    Value { index: i as u32 }
}

/// An instruction that defines the value with a number.
pub open spec fn defines(op: Op, i: int) -> Inst {
    Inst { op, results: seq![val(i)] }
}

/// An instruction that defines nothing.
pub open spec fn acts(op: Op) -> Inst {
    Inst { op, results: seq![] }
}

/// Whether the code that leads from `f` to `g` is `list`, in the block that it starts in, and defines
/// `k` values.
pub open spec fn adds(f: Func, g: Func, list: Seq<Inst>, k: nat) -> bool {
    let here = f.here().index as int;
    &&& f.open()
    &&& g.open()
    &&& g.cursor == f.cursor
    &&& g.imports == f.imports
    &&& g.blocks.len() == f.blocks.len()
    &&& g.blocks[here].insts == f.blocks[here].insts + list
    &&& forall|i: int| 0 <= i < f.blocks.len() && i != here ==> #[trigger] g.blocks[i] == f.blocks[i]
    &&& g.values.len() == f.values.len() + k
    &&& forall|i: int| 0 <= i < f.values.len() ==> #[trigger] g.values[i] == f.values[i]
    &&& g.results.len() == f.results.len() + list.len()
}

/// Nothing.
proof fn lemma_adds_nothing(f: Func)
    requires
        f.open(),
    ensures
        adds(f, f, seq![], 0),
{
    let here = f.here().index as int;
    assert(f.blocks[here].insts + seq![] =~= f.blocks[here].insts);
}

/// One more instruction that defines a value.
proof fn lemma_adds_define(f: Func, g: Func, list: Seq<Inst>, k: nat, op: Op, ty: Type) -> (h: Func)
    requires
        adds(f, g, list, k),
        f.room(k + 1),
        !(op is Jump),
    ensures
        h == g.define(op, ty),
        adds(f, h, list.push(defines(op, (f.values.len() + k) as int)), k + 1),
        h.values[(f.values.len() + k) as int] == Some(ty),
{
    let h = g.define(op, ty);
    let here = f.here().index as int;
    let inst = defines(op, (f.values.len() + k) as int);
    assert(h.blocks[here].insts == g.blocks[here].insts.push(inst));
    assert(h.blocks[here].insts =~= f.blocks[here].insts + list.push(inst));
    h
}

/// One more instruction that defines nothing.
proof fn lemma_adds_effect(f: Func, g: Func, list: Seq<Inst>, k: nat, op: Op) -> (h: Func)
    requires
        adds(f, g, list, k),
        !(op is Jump),
    ensures
        h == g.effect(op),
        adds(f, h, list.push(acts(op)), k),
{
    let h = g.effect(op);
    let here = f.here().index as int;
    assert(h.blocks[here].insts == g.blocks[here].insts.push(acts(op)));
    assert(h.blocks[here].insts =~= f.blocks[here].insts + list.push(acts(op)));
    h
}

/// Whether the code that leads from `f` to `g` is `list` in the block that it starts in, and `rest` in
/// one new block, and defines `k` values.
pub open spec fn adds_two(f: Func, g: Func, list: Seq<Inst>, rest: Seq<Inst>, k: nat) -> bool {
    let here = f.here().index as int;
    let n = f.blocks.len() as int;
    &&& f.open()
    &&& g.open()
    &&& g.cursor == Some(Block { index: n as u32 })
    &&& g.imports == f.imports
    &&& g.blocks.len() == n + 1
    &&& g.blocks[here].insts == f.blocks[here].insts + list
    &&& g.blocks[n].insts == rest
    &&& forall|i: int| 0 <= i < n && i != here ==> #[trigger] g.blocks[i] == f.blocks[i]
    &&& g.values.len() == f.values.len() + k
    &&& forall|i: int| 0 <= i < f.values.len() ==> #[trigger] g.values[i] == f.values[i]
    &&& g.results.len() == f.results.len() + list.len() + rest.len()
}

/// The jump to the next block.
proof fn lemma_adds_jump(f: Func, g: Func, list: Seq<Inst>, k: nat) -> (h: Func)
    requires
        adds(f, g, list, k),
        f.room(1),
    ensures
        h == g.jump_next(),
        adds_two(
            f,
            h,
            list.push(
                acts(
                    Op::Jump { target: Block { index: f.blocks.len() as u32 }, args: seq![] },
                ),
            ),
            seq![],
            k,
        ),
{
    let h = g.jump_next();
    let here = f.here().index as int;
    let inst = acts(Op::Jump { target: g.next_block(), args: seq![] });
    assert(h.blocks[here].insts =~= g.blocks[here].insts.push(inst));
    assert(h.blocks[here].insts =~= f.blocks[here].insts + list.push(inst));
    assert(h.blocks[f.blocks.len() as int].insts =~= seq![]);
    h
}

/// Code in the new block.
proof fn lemma_adds_rest(
    f: Func,
    g: Func,
    list: Seq<Inst>,
    rest: Seq<Inst>,
    k: nat,
    h: Func,
    more: Seq<Inst>,
    j: nat,
)
    requires
        f.room(1),
        adds_two(f, g, list, rest, k),
        adds(g, h, more, j),
    ensures
        adds_two(f, h, list, rest + more, k + j),
{
    assert forall|i: int| 0 <= i < f.blocks.len() && i != f.here().index implies #[trigger] h.blocks[i]
        == f.blocks[i] by {
        assert(h.blocks[i] == g.blocks[i]);
    }
    assert forall|i: int| 0 <= i < f.values.len() implies #[trigger] h.values[i] == f.values[i] by {
        assert(h.values[i] == g.values[i]);
    }
}

/// The code of a lookup: the address of the entry, its tag, the tag of the address, the comparison,
/// and only where they are equal the pointer. These two loads of the entry are all that is accessed.
pub proof fn lemma_lookup_listing(
    f: Func,
    layout: MemLayout,
    tlb_ptr: Value,
    addr: Value,
    kind: AccessKind,
    not_found: Block,
)
    requires
        layout.wf(),
        f.open(),
        f.room(10),
        f.has_type(addr, Type::I64),
    ensures
        ({
            let v = f.values.len() as int;
            let (g, r) = f.tlb_lookup(layout, tlb_ptr, addr, kind, not_found);
            let flags = set![MemFlag::Notrap, MemFlag::Aligned, MemFlag::Vmctx];
            let ty = Type::I64;
            let first = if kind == AccessKind::Load {
                layout.tlb_read_offset
            } else {
                layout.tlb_write_offset
            };
            let mask = (pow2(layout.tlb_index_bits as nat) - 1) * layout.tlb_entry_size;
            let next = Block { index: f.blocks.len() as u32 };
            &&& r == val(v + 6)
            &&& adds_two(
                f,
                g,
                seq![
                    defines(Op::UshrImm { ty, x: addr, imm: (layout.offset_bits - layout.entry_bits()) as i64 }, v),
                    defines(Op::BandImm { ty, x: val(v), imm: mask as i64 }, v + 1),
                    defines(Op::Iadd { ty, x: tlb_ptr, y: val(v + 1) }, v + 2),
                    defines(
                        Op::Load { ty, flags, addr: val(v + 2), offset: first as i32 },
                        v + 3,
                    ),
                    defines(
                        Op::UshrImm {
                            ty,
                            x: addr,
                            imm: (layout.offset_bits + layout.tlb_index_bits) as i64,
                        },
                        v + 4,
                    ),
                    defines(
                        Op::BandImm {
                            ty,
                            x: val(v + 4),
                            imm: (pow2(layout.tlb_tag_bits as nat) - 1) as i64,
                        },
                        v + 5,
                    ),
                    acts(
                        Op::BrInt {
                            cc: IntCC::NotEqual,
                            x: val(v + 5),
                            y: val(v + 3),
                            target: not_found,
                            args: seq![],
                        },
                    ),
                    acts(Op::Jump { target: next, args: seq![] }),
                ],
                seq![
                    defines(
                        Op::Load {
                            ty,
                            flags,
                            addr: val(v + 2),
                            offset: (first + 8) as i32,
                        },
                        v + 6,
                    ),
                ],
                7,
            )
            &&& g.has_type(r, Type::I64)
        }),
{
    reveal(Func::rshift_and_mask);
    let v = f.values.len() as int;
    let ty = Type::I64;
    let flags = code::vmctx_flags();
    assert(flags =~= set![MemFlag::Notrap, MemFlag::Aligned, MemFlag::Vmctx]);
    let first = kind.offset_in_tlb(layout);
    let e = layout.entry_bits();
    let shift = (layout.offset_bits - e) as nat;
    let mask = layout.index_mask();
    let op1 = Op::UshrImm { ty, x: addr, imm: shift as i64 };
    let op2 = Op::BandImm { ty, x: val(v), imm: mask as i64 };
    let op3 = Op::Iadd { ty, x: tlb_ptr, y: val(v + 1) };
    let op4 = Op::Load { ty, flags, addr: val(v + 2), offset: first as i32 };
    let op5 = Op::UshrImm {
        ty,
        x: addr,
        imm: (layout.offset_bits + layout.tlb_index_bits) as i64,
    };
    let op6 = Op::BandImm {
        ty,
        x: val(v + 4),
        imm: (pow2(layout.tlb_tag_bits as nat) - 1) as i64,
    };
    let op7 = Op::BrInt {
        cc: IntCC::NotEqual,
        x: val(v + 5),
        y: val(v + 3),
        target: not_found,
        args: seq![],
    };
    let op8 = Op::Load { ty, flags, addr: val(v + 2), offset: (first + 8) as i32 };
    lemma_adds_nothing(f);
    let l0: Seq<Inst> = seq![];
    let g1 = lemma_adds_define(f, f, l0, 0, op1, ty);
    let l1 = l0.push(defines(op1, v));
    let g2 = lemma_adds_define(f, g1, l1, 1, op2, ty);
    let l2 = l1.push(defines(op2, v + 1));
    let g3 = lemma_adds_define(f, g2, l2, 2, op3, ty);
    let l3 = l2.push(defines(op3, v + 2));
    let g4 = lemma_adds_define(f, g3, l3, 3, op4, ty);
    let l4 = l3.push(defines(op4, v + 3));
    let g5 = lemma_adds_define(f, g4, l4, 4, op5, ty);
    let l5 = l4.push(defines(op5, v + 4));
    let g6 = lemma_adds_define(f, g5, l5, 5, op6, ty);
    let l6 = l5.push(defines(op6, v + 5));
    let g7 = lemma_adds_effect(f, g6, l6, 6, op7);
    let l7 = l6.push(acts(op7));
    let g8 = lemma_adds_jump(f, g7, l7, 6);
    let jump = acts(
        Op::Jump { target: Block { index: f.blocks.len() as u32 }, args: seq![] },
    );
    let l8 = l7.push(jump);
    lemma_adds_nothing(g8);
    let g9 = lemma_adds_define(g8, g8, l0, 0, op8, ty);
    let rest = l0.push(defines(op8, v + 6));
    lemma_adds_rest(f, g8, l8, l0, 6, g9, rest, 1);
    assert(l0 + rest =~= seq![defines(op8, v + 6)]);
    assert(l8 =~= seq![
        defines(op1, v),
        defines(op2, v + 1),
        defines(op3, v + 2),
        defines(op4, v + 3),
        defines(op5, v + 4),
        defines(op6, v + 5),
        acts(op7),
        jump,
    ]);
    assert(g9 == f.tlb_lookup(layout, tlb_ptr, addr, kind, not_found).0);
}

/// The code of a lookup for an address that is known when the code is generated: the same with the
/// offset of the entry and the tag as constants.
pub proof fn lemma_lookup_const_listing(
    f: Func,
    layout: MemLayout,
    tlb_ptr: Value,
    a: u64,
    kind: AccessKind,
    not_found: Block,
)
    requires
        layout.wf(),
        f.open(),
        f.room(8),
    ensures
        ({
            let v = f.values.len() as int;
            let (g, r) = f.tlb_lookup_const(layout, tlb_ptr, a, kind, not_found);
            let flags = set![MemFlag::Notrap, MemFlag::Aligned, MemFlag::Vmctx];
            let ty = Type::I64;
            let first = if kind == AccessKind::Load {
                layout.tlb_read_offset
            } else {
                layout.tlb_write_offset
            };
            let index = (a as int / pow2(layout.offset_bits as nat) as int) % (pow2(
                layout.tlb_index_bits as nat,
            ) as int);
            let tag = (a as int / pow2(
                (layout.offset_bits + layout.tlb_index_bits) as nat,
            ) as int) % (pow2(layout.tlb_tag_bits as nat) as int);
            let next = Block { index: f.blocks.len() as u32 };
            &&& r == val(v + 4)
            &&& adds_two(
                f,
                g,
                seq![
                    defines(Op::Iconst { ty, imm: (index * layout.tlb_entry_size) as i64 }, v),
                    defines(Op::Iadd { ty, x: tlb_ptr, y: val(v) }, v + 1),
                    defines(
                        Op::Load { ty, flags, addr: val(v + 1), offset: first as i32 },
                        v + 2,
                    ),
                    defines(Op::Iconst { ty, imm: tag as i64 }, v + 3),
                    acts(
                        Op::BrInt {
                            cc: IntCC::NotEqual,
                            x: val(v + 3),
                            y: val(v + 2),
                            target: not_found,
                            args: seq![],
                        },
                    ),
                    acts(Op::Jump { target: next, args: seq![] }),
                ],
                seq![
                    defines(
                        Op::Load { ty, flags, addr: val(v + 1), offset: (first + 8) as i32 },
                        v + 4,
                    ),
                ],
                5,
            )
            &&& g.has_type(r, Type::I64)
        }),
{
    let v = f.values.len() as int;
    let ty = Type::I64;
    let flags = code::vmctx_flags();
    assert(flags =~= set![MemFlag::Notrap, MemFlag::Aligned, MemFlag::Vmctx]);
    let first = kind.offset_in_tlb(layout);
    let eo = layout.index_of(a) * layout.tlb_entry_size;
    let op1 = Op::Iconst { ty, imm: eo as i64 };
    let op2 = Op::Iadd { ty, x: tlb_ptr, y: val(v) };
    let op3 = Op::Load { ty, flags, addr: val(v + 1), offset: first as i32 };
    let op4 = Op::Iconst { ty, imm: layout.tag_of(a) as i64 };
    let op5 = Op::BrInt {
        cc: IntCC::NotEqual,
        x: val(v + 3),
        y: val(v + 2),
        target: not_found,
        args: seq![],
    };
    let op6 = Op::Load { ty, flags, addr: val(v + 1), offset: (first + 8) as i32 };
    lemma_adds_nothing(f);
    let l0: Seq<Inst> = seq![];
    let g1 = lemma_adds_define(f, f, l0, 0, op1, ty);
    let l1 = l0.push(defines(op1, v));
    let g2 = lemma_adds_define(f, g1, l1, 1, op2, ty);
    let l2 = l1.push(defines(op2, v + 1));
    let g3 = lemma_adds_define(f, g2, l2, 2, op3, ty);
    let l3 = l2.push(defines(op3, v + 2));
    let g4 = lemma_adds_define(f, g3, l3, 3, op4, ty);
    let l4 = l3.push(defines(op4, v + 3));
    let g5 = lemma_adds_effect(f, g4, l4, 4, op5);
    let l5 = l4.push(acts(op5));
    let g6 = lemma_adds_jump(f, g5, l5, 4);
    let jump = acts(
        Op::Jump { target: Block { index: f.blocks.len() as u32 }, args: seq![] },
    );
    let l6 = l5.push(jump);
    lemma_adds_nothing(g6);
    let g7 = lemma_adds_define(g6, g6, l0, 0, op6, ty);
    let rest = l0.push(defines(op6, v + 4));
    lemma_adds_rest(f, g6, l6, l0, 4, g7, rest, 1);
    assert(l0 + rest =~= seq![defines(op6, v + 4)]);
    assert(l6 =~= seq![
        defines(op1, v),
        defines(op2, v + 1),
        defines(op3, v + 2),
        defines(op4, v + 3),
        acts(op5),
        jump,
    ]);
    assert(g7 == f.tlb_lookup_const(layout, tlb_ptr, a, kind, not_found).0);
}

/// The code of a check of the permissions, for integers of up to 64 bits: the permissions, the byte
/// that each of them is to have, their common bits, and the comparison. One load, of as many bytes as
/// the access has, is all that is accessed.
pub proof fn lemma_perm_listing(
    f: Func,
    layout: MemLayout,
    host_addr: Value,
    ty: Type,
    perm: u8,
    target: Block,
)
    requires
        f.open(),
        f.room(8),
        !(ty is I128),
    ensures
        ({
            let v = f.values.len() as int;
            let g = f.check_perm(layout, host_addr, ty, perm, target);
            let flags = set![MemFlag::Notrap, MemFlag::Aligned, MemFlag::Heap];
            let next = Block { index: f.blocks.len() as u32 };
            let offset = layout.perm_offset as i32;
            adds_two(
                f,
                g,
                seq![
                    defines(Op::Load { ty, flags, addr: host_addr, offset }, v),
                    defines(
                        Op::Iconst { ty, imm: code::repeated(perm, ty.size()) as u64 as i64 },
                        v + 1,
                    ),
                    defines(Op::Band { ty, x: val(v), y: val(v + 1) }, v + 2),
                    acts(
                        Op::BrInt {
                            cc: IntCC::NotEqual,
                            x: val(v + 2),
                            y: val(v + 1),
                            target,
                            args: seq![],
                        },
                    ),
                    acts(Op::Jump { target: next, args: seq![] }),
                ],
                seq![],
                3,
            )
        }),
{
    let v = f.values.len() as int;
    let flags = code::heap_flags();
    assert(flags =~= set![MemFlag::Notrap, MemFlag::Aligned, MemFlag::Heap]);
    let op1 = Op::Load { ty, flags, addr: host_addr, offset: layout.perm_offset as i32 };
    let op2 = Op::Iconst { ty, imm: code::repeated(perm, ty.size()) as u64 as i64 };
    let op3 = Op::Band { ty, x: val(v), y: val(v + 1) };
    let op4 = Op::BrInt {
        cc: IntCC::NotEqual,
        x: val(v + 2),
        y: val(v + 1),
        target,
        args: seq![],
    };
    lemma_adds_nothing(f);
    let l0: Seq<Inst> = seq![];
    let g1 = lemma_adds_define(f, f, l0, 0, op1, ty);
    let l1 = l0.push(defines(op1, v));
    let g2 = lemma_adds_define(f, g1, l1, 1, op2, ty);
    let l2 = l1.push(defines(op2, v + 1));
    let g3 = lemma_adds_define(f, g2, l2, 2, op3, ty);
    let l3 = l2.push(defines(op3, v + 2));
    let g4 = lemma_adds_effect(f, g3, l3, 3, op4);
    let l4 = l3.push(acts(op4));
    let g5 = lemma_adds_jump(f, g4, l4, 3);
    let jump = acts(
        Op::Jump { target: Block { index: f.blocks.len() as u32 }, args: seq![] },
    );
    assert(l4.push(jump) =~= seq![
        defines(op1, v),
        defines(op2, v + 1),
        defines(op3, v + 2),
        acts(op4),
        jump,
    ]);
    assert(g5 == f.check_perm(layout, host_addr, ty, perm, target));
}

/// The code of a check of the permissions, for integers of 128 bits: the same, with the byte repeated
/// in two halves.
pub proof fn lemma_perm128_listing(
    f: Func,
    layout: MemLayout,
    host_addr: Value,
    perm: u8,
    target: Block,
)
    requires
        f.open(),
        f.room(8),
    ensures
        ({
            let v = f.values.len() as int;
            let ty = Type::I128;
            let g = f.check_perm(layout, host_addr, ty, perm, target);
            let flags = set![MemFlag::Notrap, MemFlag::Aligned, MemFlag::Heap];
            let next = Block { index: f.blocks.len() as u32 };
            let offset = layout.perm_offset as i32;
            let half = code::repeated(perm, 8) as u64 as i64;
            adds_two(
                f,
                g,
                seq![
                    defines(Op::Load { ty, flags, addr: host_addr, offset }, v),
                    defines(Op::Iconst { ty: Type::I64, imm: half }, v + 1),
                    defines(Op::Iconst { ty: Type::I64, imm: half }, v + 2),
                    defines(Op::Iconcat { lo: val(v + 1), hi: val(v + 2) }, v + 3),
                    defines(Op::Band { ty, x: val(v), y: val(v + 3) }, v + 4),
                    acts(
                        Op::BrInt {
                            cc: IntCC::NotEqual,
                            x: val(v + 4),
                            y: val(v + 3),
                            target,
                            args: seq![],
                        },
                    ),
                    acts(Op::Jump { target: next, args: seq![] }),
                ],
                seq![],
                5,
            )
        }),
{
    let v = f.values.len() as int;
    let ty = Type::I128;
    let flags = code::heap_flags();
    assert(flags =~= set![MemFlag::Notrap, MemFlag::Aligned, MemFlag::Heap]);
    let half = code::repeated(perm, 8) as u64 as i64;
    let op1 = Op::Load { ty, flags, addr: host_addr, offset: layout.perm_offset as i32 };
    let op2 = Op::Iconst { ty: Type::I64, imm: half };
    let op3 = Op::Iconcat { lo: val(v + 1), hi: val(v + 2) };
    let op4 = Op::Band { ty, x: val(v), y: val(v + 3) };
    let op5 = Op::BrInt {
        cc: IntCC::NotEqual,
        x: val(v + 4),
        y: val(v + 3),
        target,
        args: seq![],
    };
    lemma_adds_nothing(f);
    let l0: Seq<Inst> = seq![];
    let g1 = lemma_adds_define(f, f, l0, 0, op1, ty);
    let l1 = l0.push(defines(op1, v));
    let g2 = lemma_adds_define(f, g1, l1, 1, op2, Type::I64);
    let l2 = l1.push(defines(op2, v + 1));
    let g3 = lemma_adds_define(f, g2, l2, 2, op2, Type::I64);
    let l3 = l2.push(defines(op2, v + 2));
    let g4 = lemma_adds_define(f, g3, l3, 3, op3, ty);
    let l4 = l3.push(defines(op3, v + 3));
    let g5 = lemma_adds_define(f, g4, l4, 4, op4, ty);
    let l5 = l4.push(defines(op4, v + 4));
    let g6 = lemma_adds_effect(f, g5, l5, 5, op5);
    let l6 = l5.push(acts(op5));
    let g7 = lemma_adds_jump(f, g6, l6, 5);
    let jump = acts(
        Op::Jump { target: Block { index: f.blocks.len() as u32 }, args: seq![] },
    );
    assert(l6.push(jump) =~= seq![
        defines(op1, v),
        defines(op2, v + 1),
        defines(op2, v + 2),
        defines(op3, v + 3),
        defines(op4, v + 4),
        acts(op5),
        jump,
    ]);
    assert(g7 == f.check_perm(layout, host_addr, ty, perm, target));
}

/// The order of the checks of an access: the alignment, where the address is not known, then the
/// lookup, and only after it, from what it gives, the permissions of the page. In between there are
/// the offset in the page and its sum with the pointer, and nothing else.
pub proof fn lemma_inline_order(
    f: Func,
    layout: MemLayout,
    tlb_ptr: Value,
    var: pcode::VarNode,
    c: u64,
    width: u8,
    addr: Value,
    ty: Type,
    kind: AccessKind,
    fallback: Block,
)
    requires
        layout.wf(),
        f.open(),
        f.room(26),
        f.has_type(addr, Type::I64),
        f.has_type(tlb_ptr, Type::I64),
        f.can_branch(fallback),
        f.body(fallback).params.len() == 0,
    ensures
        ({
            let aligned = f.check_alignment(addr, ty.size() as u8, fallback);
            let (found, ptr) = aligned.tlb_lookup(layout, tlb_ptr, addr, kind, fallback);
            let v = found.values.len() as int;
            let (g, r) = f.try_inline_access(
                layout,
                tlb_ptr,
                pcode::Value::Var(var),
                addr,
                ty,
                kind,
                fallback,
            );
            let mask = (pow2(layout.offset_bits as nat) - 1) as i64;
            &&& r == val(v + 1)
            &&& exists|page: Func|
                {
                    &&& adds(
                        found,
                        page,
                        seq![
                            defines(Op::BandImm { ty: Type::I64, x: addr, imm: mask }, v),
                            defines(Op::Iadd { ty: Type::I64, x: ptr, y: val(v) }, v + 1),
                        ],
                        2,
                    )
                    &&& g == #[trigger] page.check_perm(
                        layout,
                        val(v + 1),
                        ty,
                        kind.required(layout),
                        fallback,
                    )
                }
        }),
        ({
            let (found, ptr) = f.tlb_lookup_const(layout, tlb_ptr, c, kind, fallback);
            let v = found.values.len() as int;
            let (g, r) = f.try_inline_access(
                layout,
                tlb_ptr,
                pcode::Value::Const(c, width),
                addr,
                ty,
                kind,
                fallback,
            );
            let offset = (c as int % pow2(layout.offset_bits as nat) as int) as i64;
            &&& r == val(v + 1)
            &&& exists|page: Func|
                {
                    &&& adds(
                        found,
                        page,
                        seq![
                            defines(Op::Iconst { ty: Type::I64, imm: offset }, v),
                            defines(Op::Iadd { ty: Type::I64, x: ptr, y: val(v) }, v + 1),
                        ],
                        2,
                    )
                    &&& g == #[trigger] page.check_perm(
                        layout,
                        val(v + 1),
                        ty,
                        kind.required(layout),
                        fallback,
                    )
                }
        }),
{
    reveal(Func::try_inline_access);
    let ty64 = Type::I64;
    let l0: Seq<Inst> = seq![];

    let size = ty.size() as u8;
    let aligned = f.check_alignment(addr, size, fallback);
    shape::lemma_alignment_shape(f, addr, size, fallback);
    let i = fallback.index as int;
    assert(aligned.blocks[i].params == f.blocks[i].params && aligned.blocks[i].sealed
        == f.blocks[i].sealed);
    let (found, ptr) = aligned.tlb_lookup(layout, tlb_ptr, addr, kind, fallback);
    let m = laws::lemma_tlb_lookup(
        aligned,
        idle(aligned),
        layout,
        tlb_ptr,
        addr,
        kind,
        fallback,
    );
    let v = found.values.len() as int;
    let and = Op::BandImm {
        ty: ty64,
        x: addr,
        imm: (pow2(layout.offset_bits as nat) - 1) as i64,
    };
    let add = Op::Iadd { ty: ty64, x: ptr, y: val(v) };
    lemma_adds_nothing(found);
    let g1 = lemma_adds_define(found, found, l0, 0, and, ty64);
    let l1 = l0.push(defines(and, v));
    let page = lemma_adds_define(found, g1, l1, 1, add, ty64);
    assert(l1.push(defines(add, v + 1)) =~= seq![defines(and, v), defines(add, v + 1)]);
    assert(f.inline_access(layout, tlb_ptr, addr, ty, kind, fallback).0 == page.check_perm(
        layout,
        val(v + 1),
        ty,
        kind.required(layout),
        fallback,
    ));

    let (found, ptr) = f.tlb_lookup_const(layout, tlb_ptr, c, kind, fallback);
    let m = laws::lemma_tlb_lookup_const(f, idle(f), layout, tlb_ptr, c, kind, fallback);
    let v = found.values.len() as int;
    let offset = Op::Iconst { ty: ty64, imm: layout.offset_in_page(c) as i64 };
    let add = Op::Iadd { ty: ty64, x: ptr, y: val(v) };
    lemma_adds_nothing(found);
    let g1 = lemma_adds_define(found, found, l0, 0, offset, ty64);
    let l1 = l0.push(defines(offset, v));
    let page = lemma_adds_define(found, g1, l1, 1, add, ty64);
    assert(l1.push(defines(add, v + 1)) =~= seq![defines(offset, v), defines(add, v + 1)]);
    assert(f.inline_access_const(layout, tlb_ptr, c, ty, kind, fallback).0 == page.check_perm(
        layout,
        val(v + 1),
        ty,
        kind.required(layout),
        fallback,
    ));
}

/// A machine that is about to run what is added next to `f`.
spec fn idle(f: Func) -> Machine {
    Machine {
        block: f.here(),
        pc: f.body(f.here()).insts.len(),
        env: Map::empty(),
        mem: |a: u64| 0u8,
    }
}

/// A load from a page accesses memory once, at the host address and with its own size, and then swaps
/// the bytes where the guest's order is not that of the host; a store does so after the swap.
pub proof fn lemma_host_listing(
    f: Func,
    endianness: Endianness,
    addr: Value,
    value: Value,
    ty: Type,
)
    requires
        f.open(),
        f.room(25),
    ensures
        ({
            let v = f.values.len() as int;
            let flags = set![
                MemFlag::Notrap,
                MemFlag::Aligned,
                MemFlag::Heap,
                if endianness == Endianness::Little {
                    MemFlag::LittleEndian
                } else {
                    MemFlag::BigEndian
                },
            ];
            let load = defines(Op::Load { ty, flags, addr, offset: 0 }, v);
            let (loaded, r) = f.load_host(endianness, addr, ty);
            let stored = f.store_host(endianness, addr, value, ty);
            &&& endianness == Endianness::Little ==> {
                &&& adds(f, loaded, seq![load], 1)
                &&& r == val(v)
                &&& adds(
                    f,
                    stored,
                    seq![acts(Op::Store { ty, flags, value, addr, offset: 0 })],
                    0,
                )
            }
            &&& endianness == Endianness::Big ==> {
                &&& exists|g: Func|
                    adds(f, g, seq![load], 1) && (loaded, r) == #[trigger] g.bswap(val(v), ty)
                &&& ({
                    let (g, x) = f.bswap(value, ty);
                    adds(g, stored, seq![acts(Op::Store { ty, flags, value: x, addr, offset: 0 })], 0)
                })
            }
        }),
{
    reveal(Func::load_host);
    reveal(Func::store_host);
    let v = f.values.len() as int;
    let flags = code::guest_flags(endianness);
    assert(flags =~= set![
        MemFlag::Notrap,
        MemFlag::Aligned,
        MemFlag::Heap,
        if endianness == Endianness::Little {
            MemFlag::LittleEndian
        } else {
            MemFlag::BigEndian
        },
    ]);
    let l0: Seq<Inst> = seq![];
    let ld = Op::Load { ty, flags, addr, offset: 0 };
    lemma_adds_nothing(f);
    let g = lemma_adds_define(f, f, l0, 0, ld, ty);
    assert(l0.push(defines(ld, v)) =~= seq![defines(ld, v)]);
    let (h, x) = if endianness is Little {
        (f, value)
    } else {
        f.bswap(value, ty)
    };
    shape::lemma_bswap_shape(f, value, ty);
    let st = Op::Store { ty, flags, value: x, addr, offset: 0 };
    lemma_adds_nothing(h);
    let k = lemma_adds_effect(h, h, l0, 0, st);
    assert(l0.push(acts(st)) =~= seq![acts(st)]);
}

/// The order of the parts of a load with an inline path: the checks, in the block that the load
/// started in and with the two new blocks there, then the load at the address that they give, then a
/// jump to the first of the two blocks with what was loaded.
pub proof fn lemma_load_parts<'a>(load: LoadRam, start: &Translator<'a>, addr: Value)
    requires
        load.stage is ReadAddress,
        load.can_resume(start, Reply::Value(addr)),
        !(load.guest_addr is Const && load.guest_addr->Const_0 as int % load.output.size as int
            != 0),
    ensures
        ({
            let f = start.func();
            let (g, _) = load.after(start, Reply::Value(addr));
            let n = f.blocks.len() as int;
            let success = Block { index: n as u32 };
            let slow = Block { index: (n + 1) as u32 };
            exists|ready: Func, ty: Type|
                {
                    let (checked, host_addr) = #[trigger] ready.try_inline_access(
                        start.layout,
                        start.tlb_ptr,
                        load.guest_addr,
                        addr,
                        ty,
                        AccessKind::Load,
                        slow,
                    );
                    let (loaded, x) = checked.load_host(start.ctx.endianness, host_addr, ty);
                    let end = loaded.here().index as int;
                    &&& ty.size() == load.output.size
                    &&& ready.cursor == f.cursor
                    &&& ready.results == f.results
                    &&& ready.values == f.values.push(Some(ty))
                    &&& ready.blocks.len() == n + 2
                    &&& forall|i: int| 0 <= i < n ==> #[trigger] ready.blocks[i] == f.blocks[i]
                    &&& ready.blocks[n].insts.len() == 0 && ready.blocks[n + 1].insts.len() == 0
                    &&& g.values == loaded.values
                    &&& g.blocks.len() == loaded.blocks.len()
                    &&& g.blocks[end].insts == loaded.blocks[end].insts.push(
                        acts(Op::Jump { target: success, args: seq![x] }),
                    )
                    &&& forall|i: int|
                        0 <= i < g.blocks.len() && i != end ==> (#[trigger] g.blocks[i]).insts
                            == loaded.blocks[i].insts
                }
        }),
{
    let f = start.func();
    let ty = load.ty();
    let n = f.blocks.len() as int;
    let slow = Block { index: (n + 1) as u32 };
    let ready = f.load_blocks(ty);
    assert(slow == f.fallback_block());
    let (g, _) = load.after(start, Reply::Value(addr));
    let (checked, host_addr) = ready.try_inline_access(
        start.layout,
        start.tlb_ptr,
        load.guest_addr,
        addr,
        ty,
        AccessKind::Load,
        slow,
    );
    shape::lemma_access_grows(
        ready,
        start.layout,
        start.tlb_ptr,
        load.guest_addr,
        addr,
        ty,
        AccessKind::Load,
        slow,
    );
    shape::lemma_host_shape(checked, start.ctx.endianness, host_addr, addr, ty);
    let (loaded, x) = checked.load_host(start.ctx.endianness, host_addr, ty);
    let end = loaded.here().index as int;
    let jump = acts(Op::Jump { target: f.next_block(), args: seq![x] });
    assert(g.blocks[end].insts =~= loaded.blocks[end].insts.push(jump));
    assert(ready.values =~= f.values.push(Some(ty)));
}

/// The order of the parts of a store with an inline path: the checks, in the block that the store
/// started in and with the two new blocks there, then the store at the address that they give, then a
/// jump to the first of the two blocks.
pub proof fn lemma_store_parts<'a>(store: StoreRam, start: &Translator<'a>, value: Value)
    requires
        store.stage is ReadValue,
        store.can_resume(start, Reply::Value(value)),
        !(store.guest_addr is Const && store.guest_addr->Const_0 as int % store.value.bytes() as int
            != 0),
    ensures
        ({
            let f = start.func();
            let (g, _) = store.after(start, Reply::Value(value));
            let n = f.blocks.len() as int;
            let success = Block { index: n as u32 };
            let slow = Block { index: (n + 1) as u32 };
            exists|ready: Func, ty: Type|
                {
                    let (checked, host_addr) = #[trigger] ready.try_inline_access(
                        start.layout,
                        start.tlb_ptr,
                        store.guest_addr,
                        store.stage->ReadValue_guest_addr,
                        ty,
                        AccessKind::Store,
                        slow,
                    );
                    let stored = checked.store_host(start.ctx.endianness, host_addr, value, ty);
                    let end = stored.here().index as int;
                    &&& ty.size() == store.value.bytes()
                    &&& ready.cursor == f.cursor
                    &&& ready.results == f.results
                    &&& ready.values == f.values
                    &&& ready.blocks.len() == n + 2
                    &&& forall|i: int| 0 <= i < n ==> #[trigger] ready.blocks[i] == f.blocks[i]
                    &&& ready.blocks[n].insts.len() == 0 && ready.blocks[n + 1].insts.len() == 0
                    &&& g.values == stored.values
                    &&& g.blocks.len() == stored.blocks.len()
                    &&& g.blocks[end].insts == stored.blocks[end].insts.push(
                        acts(Op::Jump { target: success, args: seq![] }),
                    )
                    &&& forall|i: int|
                        0 <= i < g.blocks.len() && i != end ==> (#[trigger] g.blocks[i]).insts
                            == stored.blocks[i].insts
                }
        }),
{
    let f = start.func();
    let ty = store.ty();
    let addr = store.stage->ReadValue_guest_addr;
    let n = f.blocks.len() as int;
    let slow = Block { index: (n + 1) as u32 };
    let ready = f.store_blocks();
    assert(slow == f.fallback_block());
    let (g, _) = store.after(start, Reply::Value(value));
    let (checked, host_addr) = ready.try_inline_access(
        start.layout,
        start.tlb_ptr,
        store.guest_addr,
        addr,
        ty,
        AccessKind::Store,
        slow,
    );
    shape::lemma_access_grows(
        ready,
        start.layout,
        start.tlb_ptr,
        store.guest_addr,
        addr,
        ty,
        AccessKind::Store,
        slow,
    );
    shape::lemma_host_shape(checked, start.ctx.endianness, host_addr, value, ty);
    let stored = checked.store_host(start.ctx.endianness, host_addr, value, ty);
    let end = stored.here().index as int;
    let jump = acts(Op::Jump { target: f.next_block(), args: seq![] });
    assert(g.blocks[end].insts =~= stored.blocks[end].insts.push(jump));
}

} // verus!
