//! What whole loads and stores do when they run.

use crate::access::Host;
use crate::bytes;
use crate::flow;
use crate::ir;
use crate::ir::{Block, Endianness, Func, FuncRef, Type, Value};
use crate::laws;
use crate::layout::MemLayout;
use crate::machine;
use crate::machine::Machine;
use crate::mem::AccessKind;
use crate::pages;
use crate::pcode;
use crate::ram;
use crate::ram::{LoadRam, Reply, Request, StoreRam};
use crate::translator::Translator;
use vstd::prelude::*;

verus! {

/// Whether `addr` holds the guest address `guest_addr` when the generated code runs. An address
/// that is known when the code is generated is aligned: for others no such code is generated.
pub open spec fn is_address(
    m: Machine,
    guest_addr: pcode::Value,
    addr: Value,
    ty: Type,
) -> bool {
    &&& m.holds(addr, Type::I64)
    &&& match guest_addr {
        pcode::Value::Const(a, _) => m.val(addr) == a && a as int % ty.size() as int == 0,
        pcode::Value::Var(_) => true,
    }
}

/// The checks of an access fall through with the host address where the generated code can make the
/// access by itself, and leave for `fallback` where not. An address that is known when the code is
/// generated is the one that counts, and it is not checked for alignment; other than that, whether the
/// address is known makes no difference.
pub proof fn lemma_try_inline_access(
    f: Func,
    m: Machine,
    layout: MemLayout,
    tlb_ptr: Value,
    guest_addr: pcode::Value,
    addr: Value,
    ty: Type,
    kind: AccessKind,
    fallback: Block,
) -> (m2: Machine)
    requires
        layout.wf(),
        m.at_end(f),
        f.room(26),
        f.has_type(addr, Type::I64),
        f.has_type(tlb_ptr, Type::I64),
        m.holds(addr, Type::I64),
        m.holds(tlb_ptr, Type::I64),
        f.can_branch(fallback),
        f.body(fallback).params.len() == 0,
    ensures
        ({
            let (g, r) = f.try_inline_access(layout, tlb_ptr, guest_addr, addr, ty, kind, fallback);
            let host = laws::host_of(layout, m, tlb_ptr);
            let (a, hit) = match guest_addr {
                pcode::Value::Const(c, _) => (c, host.is_accessible(kind, c, ty)),
                pcode::Value::Var(_) => (
                    m.val(addr) as u64,
                    host.is_inline(kind, m.val(addr) as u64, ty),
                ),
            };
            &&& m2.mem == m.mem
            &&& f.grows_to(g, 24)
            &&& g.has_type(r, Type::I64)
            &&& hit ==> flow::flows(f, m, g, m2) && m2.val(r)
                == host.host_addr(kind, a)
            &&& !hit ==> flow::leaves(f, m, g, fallback, m2)
        }),
{
    reveal(Func::try_inline_access);
    match guest_addr {
        pcode::Value::Const(a, _) => laws::lemma_inline_access_const(
            f,
            m,
            layout,
            tlb_ptr,
            a,
            ty,
            kind,
            fallback,
        ),
        pcode::Value::Var(_) => laws::lemma_inline_access(
            f,
            m,
            layout,
            tlb_ptr,
            addr,
            ty,
            kind,
            fallback,
        ),
    }
}

/// A block with one parameter is entered with the parameter set and every other value kept.
proof fn lemma_enter_one(f: Func, m: Machine, b: Block, arg: Value) -> (m2: Machine)
    requires
        f.is_block(b),
        f.body(b).params.len() == 1,
    ensures
        m.enter(f, b, seq![arg]) == Some(m2),
        m2.at_start(b),
        m2.mem == m.mem,
        m2.val(f.body(b).params[0]) == m.val(arg),
        forall|v: Value| v != f.body(b).params[0] ==> #[trigger] m2.val(v) == m.val(v),
{
    let params = f.body(b).params;
    let p = params[0];
    assert(params.contains(p));
    assert(params.index_of(p) == 0);
    assert forall|v: Value| v != p implies !params.contains(v) by {}
    m.enter(f, b, seq![arg])->0
}

/// The inline path of a load ends in the block that is created first, whose parameter is then the
/// integer that the guest's memory holds at the address. Where the generated code cannot make the
/// load by itself, it goes on in the block of the slow path. The memory does not change.
pub proof fn lemma_load_inline(
    f: Func,
    m: Machine,
    layout: MemLayout,
    tlb_ptr: Value,
    endianness: Endianness,
    guest_addr: pcode::Value,
    addr: Value,
    ty: Type,
) -> (m2: Machine)
    requires
        layout.wf(),
        ty is I128 ==> endianness is Little,
        m.at_end(f),
        f.room(56),
        f.has_type(addr, Type::I64),
        f.has_type(tlb_ptr, Type::I64),
        m.holds(addr, Type::I64),
        m.holds(tlb_ptr, Type::I64),
    ensures
        ({
            let g = f.load_inline(layout, tlb_ptr, endianness, guest_addr, addr, ty);
            let host = laws::host_of(layout, m, tlb_ptr);
            let (a, hit) = match guest_addr {
                pcode::Value::Const(c, _) => (c, host.is_accessible(AccessKind::Load, c, ty)),
                pcode::Value::Var(_) => (
                    m.val(addr) as u64,
                    host.is_inline(AccessKind::Load, m.val(addr) as u64, ty),
                ),
            };
            let success = f.next_block();
            let guest = machine::bytes_at(m.mem, host.host_addr(AccessKind::Load, a), ty.size());
            &&& m2.mem == m.mem
            &&& hit ==> {
                &&& flow::leaves(f, m, g, success, m2)
                &&& m2.val(g.body(success).params[0]) == bytes::decode(endianness, guest)
            }
            &&& !hit ==> flow::flows(f, m, g, m2)
            &&& f.grows_to(g, 56)
            &&& ram::is_join(g, success, seq![ty])
        }),
{
    let success = f.next_block();
    let fallback = f.fallback_block();
    let host = laws::host_of(layout, m, tlb_ptr);
    let kind = AccessKind::Load;
    let hit = match guest_addr {
        pcode::Value::Const(c, _) => host.is_accessible(kind, c, ty),
        pcode::Value::Var(_) => host.is_inline(kind, m.val(addr) as u64, ty),
    };
    let f0 = f.load_blocks(ty);
    let g = f.load_inline(layout, tlb_ptr, endianness, guest_addr, addr, ty);
    let (f1, host_addr) = f0.try_inline_access(
        layout,
        tlb_ptr,
        guest_addr,
        addr,
        ty,
        kind,
        fallback,
    );
    let m1 = lemma_try_inline_access(
        f0,
        m,
        layout,
        tlb_ptr,
        guest_addr,
        addr,
        ty,
        kind,
        fallback,
    );
    let (f2, value) = f1.load_host(endianness, host_addr, ty);
    // The growth of the code does not depend on where it is run from.
    let n1 = Machine {
        block: f1.here(),
        pc: f1.body(f1.here()).insts.len(),
        env: m.env.insert(host_addr, 0),
        ..m
    };
    let n2 = laws::lemma_load_host(f1, n1, endianness, host_addr, ty);
    ir::lemma_grows_trans(f0, f1, f2, 24, 24);
    assert(f0.body(success).insts.len() == 0 && f0.body(fallback).insts.len() == 0);
    assert(f2.body(success) == f0.body(success) && f2.body(fallback) == f0.body(fallback));
    assert(f2.code_in(g));
    assert(f0.code_in(f2)) by {
        flow::lemma_extends_code_in(f0, f2);
    }
    assert(f.code_in(f0));
    flow::lemma_code_in_trans(f, f0, f2);
    flow::lemma_code_in_trans(f, f2, g);
    flow::lemma_extends_code_in(f1, f2);
    flow::lemma_code_in_trans(f1, f2, g);
    if hit {
        laws::lemma_flows_keeps(f0, m, f1, m1);
        let m2 = laws::lemma_load_host(f1, m1, endianness, host_addr, ty);
        flow::lemma_flows_trans(f0, m, f1, m1, f2, m2);
        laws::lemma_flows_keeps(f0, m, f2, m2);
        let m3 = lemma_enter_one(g, m2, success, value);
        assert(m2.step(g) == Some(m3));
        assert(flow::leaves(f, m, g, success, m3)) by {
            reveal(flow::flows);
            reveal(flow::leaves);
            flow::lemma_reaches_in(f2, g, m, m2);
            flow::lemma_reaches_step(g, m2, m3);
            flow::lemma_reaches_trans(g, m, m2, m3);
        }
        m3
    } else {
        assert(flow::flows(f, m, g, m1)) by {
            reveal(flow::flows);
            reveal(flow::leaves);
            flow::lemma_reaches_in(f1, g, m, m1);
        }
        m1
    }
}

/// The inline path of a store ends in the block that is created first, and leaves in the guest's
/// memory at the address the bytes of the integer. Where the generated code cannot make the store
/// by itself, it goes on in the block of the slow path, and the memory does not change.
pub proof fn lemma_store_inline(
    f: Func,
    m: Machine,
    layout: MemLayout,
    tlb_ptr: Value,
    endianness: Endianness,
    guest_addr: pcode::Value,
    addr: Value,
    value: Value,
    ty: Type,
) -> (m2: Machine)
    requires
        layout.wf(),
        ty is I128 ==> endianness is Little,
        m.at_end(f),
        f.room(56),
        f.has_type(addr, Type::I64),
        f.has_type(tlb_ptr, Type::I64),
        f.has_type(value, ty),
        m.holds(addr, Type::I64),
        m.holds(tlb_ptr, Type::I64),
        m.holds(value, ty),
    ensures
        ({
            let g = f.store_inline(layout, tlb_ptr, endianness, guest_addr, addr, value, ty);
            let host = laws::host_of(layout, m, tlb_ptr);
            let (a, hit) = match guest_addr {
                pcode::Value::Const(c, _) => (c, host.is_accessible(AccessKind::Store, c, ty)),
                pcode::Value::Var(_) => (
                    m.val(addr) as u64,
                    host.is_inline(AccessKind::Store, m.val(addr) as u64, ty),
                ),
            };
            let success = f.next_block();
            let guest = bytes::encode(endianness, m.val(value) as nat, ty.size());
            &&& hit ==> {
                &&& flow::leaves(f, m, g, success, m2)
                &&& m2.mem == machine::with_bytes(
                    m.mem,
                    host.host_addr(AccessKind::Store, a),
                    guest,
                )
            }
            &&& !hit ==> flow::flows(f, m, g, m2) && m2.mem
                == m.mem
            &&& f.grows_to(g, 56)
            &&& ram::is_join(g, success, seq![])
        }),
{
    let success = f.next_block();
    let fallback = f.fallback_block();
    let host = laws::host_of(layout, m, tlb_ptr);
    let kind = AccessKind::Store;
    let hit = match guest_addr {
        pcode::Value::Const(c, _) => host.is_accessible(kind, c, ty),
        pcode::Value::Var(_) => host.is_inline(kind, m.val(addr) as u64, ty),
    };
    let f0 = f.store_blocks();
    let g = f.store_inline(layout, tlb_ptr, endianness, guest_addr, addr, value, ty);
    let (f1, host_addr) = f0.try_inline_access(
        layout,
        tlb_ptr,
        guest_addr,
        addr,
        ty,
        kind,
        fallback,
    );
    let m1 = lemma_try_inline_access(
        f0,
        m,
        layout,
        tlb_ptr,
        guest_addr,
        addr,
        ty,
        kind,
        fallback,
    );
    let f2 = f1.store_host(endianness, host_addr, value, ty);
    // The growth of the code does not depend on where it is run from.
    let n1 = Machine {
        block: f1.here(),
        pc: f1.body(f1.here()).insts.len(),
        env: map![host_addr => 0, value => 0],
        ..m
    };
    let n2 = laws::lemma_store_host(f1, n1, endianness, host_addr, value, ty);
    ir::lemma_grows_trans(f0, f1, f2, 24, 24);
    assert(f0.body(success).insts.len() == 0 && f0.body(fallback).insts.len() == 0);
    assert(f2.body(success) == f0.body(success) && f2.body(fallback) == f0.body(fallback));
    assert(f2.code_in(g));
    flow::lemma_extends_code_in(f0, f2);
    assert(f.code_in(f0));
    flow::lemma_code_in_trans(f, f0, f2);
    flow::lemma_code_in_trans(f, f2, g);
    flow::lemma_extends_code_in(f1, f2);
    flow::lemma_code_in_trans(f1, f2, g);
    if hit {
        laws::lemma_flows_keeps(f0, m, f1, m1);
        assert(m1.val(value) == m.val(value));
        let m2 = laws::lemma_store_host(f1, m1, endianness, host_addr, value, ty);
        flow::lemma_flows_trans(f0, m, f1, m1, f2, m2);
        laws::lemma_flows_keeps(f0, m, f2, m2);
        let m3 = flow::entered(m2, success);
        flow::lemma_enter(g, m2, success);
        assert(m2.step(g) == Some(m3));
        assert(flow::leaves(f, m, g, success, m3)) by {
            reveal(flow::flows);
            reveal(flow::leaves);
            flow::lemma_reaches_in(f2, g, m, m2);
            flow::lemma_reaches_step(g, m2, m3);
            flow::lemma_reaches_trans(g, m, m2, m3);
            assert forall|v: Value| v.index < f.values.len() implies #[trigger] m3.val(v) == m.val(
                v,
            ) by {
                assert(m2.val(v) == m.val(v));
            }
        }
        m3
    } else {
        assert(flow::flows(f, m, g, m1)) by {
            reveal(flow::flows);
            reveal(flow::leaves);
            flow::lemma_reaches_in(f1, g, m, m1);
        }
        m1
    }
}

/// The slow path of a load goes on where the inline path goes on, with the integer that it loaded in
/// the place of the one that the inline path loads.
pub proof fn lemma_join_load(k: Func, m: Machine, success: Block, value: Value, ty: Type) -> (m2:
    Machine)
    requires
        m.at_end(k),
        ram::is_join(k, success, seq![ty]),
    ensures
        ({
            let j = k.join(success, seq![value]);
            let p = j.body(success).params[0];
            &&& m.reaches(j, m2)
            &&& m2.at_end(j)
            &&& m2.mem == m.mem
            &&& m2.val(p) == m.val(value)
            &&& forall|v: Value| v != p ==> #[trigger] m2.val(v) == m.val(v)
        }),
{
    let j = k.join(success, seq![value]);
    let m2 = lemma_enter_one(j, m, success, value);
    assert(m.step(j) == Some(m2));
    flow::lemma_reaches_step(j, m, m2);
    m2
}

/// The slow path of a store goes on where the inline path goes on.
pub proof fn lemma_join_store(k: Func, m: Machine, success: Block) -> (m2: Machine)
    requires
        m.at_end(k),
        ram::is_join(k, success, seq![]),
    ensures
        flow::flows(k, m, k.join(success, seq![]), m2),
        m2.mem == m.mem,
        m2.env == m.env,
{
    reveal(flow::flows);
    let j = k.join(success, seq![]);
    let m2 = flow::entered(m, success);
    flow::lemma_enter(j, m, success);
    assert(m.step(j) == Some(m2));
    flow::lemma_reaches_step(j, m, m2);
    m2
}

/// A block that an access ends in stays as it is while other code is added.
pub proof fn lemma_is_join_grows(f: Func, g: Func, n: nat, success: Block, tys: Seq<Type>)
    requires
        f.open(),
        f.grows_to(g, n),
        ram::is_join(f, success, tys),
    ensures
        ram::is_join(g, success, tys),
{
    assert(g.blocks[success.index as int] == f.blocks[success.index as int]);
}

/// What leaves for the block that an access ends in has come to the end of the access, once the slow
/// path is built too.
proof fn lemma_leaves_joins(
    f: Func,
    m: Machine,
    g: Func,
    k: Func,
    n: nat,
    exit: Block,
    success: Block,
    args: Seq<Value>,
    tys: Seq<Type>,
    m2: Machine,
)
    requires
        flow::leaves(f, m, g, success, m2),
        g.open(),
        ram::is_join(g, success, tys),
        g.grows_to(k, n),
        k.is_block(exit),
    ensures
        ({
            let j = k.set_cold(exit).join(success, args);
            &&& m.reaches(j, m2)
            &&& m2.at_end(j)
            &&& m.agrees(f, m2)
            &&& f.code_in(j)
            &&& j.body(success).params == g.body(success).params
        }),
{
    reveal(flow::leaves);
    let j = k.set_cold(exit).join(success, args);
    lemma_is_join_grows(g, k, n, success, tys);
    flow::lemma_extends_code_in(g, k);
    assert(k.code_in(j));
    flow::lemma_code_in_trans(g, k, j);
    flow::lemma_code_in_trans(f, g, j);
    flow::lemma_reaches_in(g, j, m, m2);
    assert(k.blocks[success.index as int] == g.blocks[success.index as int]);
}

/// A call grows the function.
proof fn lemma_call_grows(f: Func, func: FuncRef, args: Seq<Value>)
    requires
        f.open(),
        func.index < f.imports.len(),
    ensures
        f.grows_to(f.call(func, args), 1 + f.imports[func.index as int].returns.len()),
{
}

/// The translation of a load that has an inline path, from the reply with the address on: the
/// translator when the address has been read, when the program counter has been flushed and when the
/// exit after the slow path has been added, and how much the work of the last two has added at most.
pub struct LoadRun<'a> {
    pub load: LoadRam,
    pub start: Translator<'a>,
    pub addr: Value,
    pub flushed: Translator<'a>,
    pub exited: Translator<'a>,
    pub exit: Block,
    pub added: nat,
}

impl<'a> LoadRun<'a> {
    /// The function and the translation when the inline path is complete.
    pub open spec fn inlined(self) -> (Func, LoadRam) {
        self.load.after(&self.start, Reply::Value(self.addr))
    }

    /// The function and the translation when the emulator has been called.
    pub open spec fn called(self) -> (Func, LoadRam) {
        self.inlined().1.after(&self.flushed, Reply::Done)
    }

    /// The function and the translation when the two paths have met.
    pub open spec fn joined(self) -> (Func, LoadRam) {
        self.called().1.after(&self.exited, Reply::Block(self.exit))
    }

    /// Whether the translation can go on with each reply, and the work in between only adds code.
    pub open spec fn wf(self) -> bool {
        &&& self.load.stage is ReadAddress
        &&& !ram::is_unaligned_const(self.load.guest_addr, self.load.output.size)
        &&& self.load.can_resume(&self.start, Reply::Value(self.addr))
        &&& self.inlined().0.grows_to(self.flushed.func(), self.added)
        &&& self.flushed.same_but_func(&self.start)
        &&& self.inlined().1.can_resume(&self.flushed, Reply::Done)
        &&& self.called().0.grows_to(self.exited.func(), self.added)
        &&& self.exited.same_but_func(&self.start)
        &&& self.called().1.can_resume(&self.exited, Reply::Block(self.exit))
    }

    /// What the machine `m` has of the host's memory.
    pub open spec fn host(self, m: Machine) -> Host {
        laws::host_of(self.start.layout, m, self.start.tlb_ptr)
    }

    /// The guest address that is loaded from in the state `m`.
    pub open spec fn guest_addr(self, m: Machine) -> u64 {
        m.val(self.addr) as u64
    }

    /// Whether the generated code makes the load by itself when it runs from `m`.
    pub open spec fn is_inline(self, m: Machine) -> bool {
        &&& m.at_end(self.start.func())
        &&& is_address(m, self.load.guest_addr, self.addr, self.load.ty())
        &&& m.holds(self.start.tlb_ptr, Type::I64)
        &&& self.host(m).is_inline(AccessKind::Load, self.guest_addr(m), self.load.ty())
    }
}

/// Where the generated code can make a load by itself, it comes to the end of the load with the
/// integer that the guest's memory holds at the address as the value that is written to the output.
pub proof fn lemma_load<'a>(run: LoadRun<'a>, m: Machine) -> (m2: Machine)
    requires
        run.wf(),
        run.is_inline(m),
    ensures
        ({
            let (j, end) = run.joined();
            let host_addr = run.host(m).host_addr(AccessKind::Load, run.guest_addr(m));
            &&& end.stage is Write
            &&& end.wanted() == Request::Write(run.load.output, end.stage->Write_value)
            &&& m.reaches(j, m2)
            &&& m2.at_end(j)
            &&& m2.mem == m.mem
            &&& m.agrees(run.start.func(), m2)
            &&& run.start.func().code_in(j)
            &&& m2.val(end.stage->Write_value) == bytes::decode(
                run.start.ctx.endianness,
                machine::bytes_at(m.mem, host_addr, run.load.ty().size()),
            )
        }),
{
    let start = run.start;
    let load = run.load;
    let n = run.added;
    let f = start.func();
    let (g, flush) = run.inlined();
    let (h, leave) = run.called();
    let k = run.exited.func();
    let m2 = lemma_load_inline(
        f,
        m,
        start.layout,
        start.tlb_ptr,
        start.ctx.endianness,
        load.guest_addr,
        run.addr,
        load.ty(),
    );
    lemma_call_grows(
        run.flushed.func(),
        start.symbols.mmu.loader(load.ty()),
        seq![start.vm_ptr.0, run.addr],
    );
    ir::lemma_grows_trans(g, run.flushed.func(), h, n, 2);
    ir::lemma_grows_trans(g, h, k, n + 2, n);
    lemma_leaves_joins(
        f,
        m,
        g,
        k,
        n + 2 + n,
        run.exit,
        f.next_block(),
        seq![leave.stage->Exit_value],
        seq![load.ty()],
        m2,
    );
    m2
}

/// After the slow path of a load, the integer that the slow path loaded is the value that is written
/// to the output.
pub proof fn lemma_load_slow<'a>(
    leave: LoadRam,
    exited: &Translator<'a>,
    exit: Block,
    m: Machine,
) -> (m2: Machine)
    requires
        leave.stage is Exit,
        leave.can_resume(exited, Reply::Block(exit)),
        m.at_end(exited.func()),
    ensures
        ({
            let (j, end) = leave.after(exited, Reply::Block(exit));
            &&& end.stage is Write
            &&& end.wanted() == Request::Write(leave.output, end.stage->Write_value)
            &&& m.reaches(j, m2)
            &&& m2.at_end(j)
            &&& m2.mem == m.mem
            &&& m2.val(end.stage->Write_value) == m.val(leave.stage->Exit_value)
        }),
{
    let k = exited.func().set_cold(exit);
    assert(m.at_end(k));
    match leave.stage->Exit_success {
        Some(success) => lemma_join_load(k, m, success, leave.stage->Exit_value, leave.ty()),
        None => {
            assert(m.run(k, 0) == Some(m));
            m
        },
    }
}

/// The translation of a store that has an inline path, from the reply with the integer on: the
/// translator when the integer has been read, when the program counter has been flushed and when the
/// exit after the slow path has been added, and how much the work of the last two has added at most.
pub struct StoreRun<'a> {
    pub store: StoreRam,
    pub start: Translator<'a>,
    pub value: Value,
    pub flushed: Translator<'a>,
    pub exited: Translator<'a>,
    pub exit: Block,
    pub added: nat,
}

impl<'a> StoreRun<'a> {
    /// The value that holds the address.
    pub open spec fn addr(self) -> Value {
        self.store.stage->ReadValue_guest_addr
    }

    /// The function and the translation when the inline path is complete.
    pub open spec fn inlined(self) -> (Func, StoreRam) {
        self.store.after(&self.start, Reply::Value(self.value))
    }

    /// The function and the translation when the emulator has been called.
    pub open spec fn called(self) -> (Func, StoreRam) {
        self.inlined().1.after(&self.flushed, Reply::Done)
    }

    /// The function and the translation when the two paths have met.
    pub open spec fn joined(self) -> (Func, StoreRam) {
        self.called().1.after(&self.exited, Reply::Block(self.exit))
    }

    /// Whether the translation can go on with each reply, and the work in between only adds code.
    pub open spec fn wf(self) -> bool {
        &&& self.store.stage is ReadValue
        &&& !ram::is_unaligned_const(self.store.guest_addr, self.store.value.bytes())
        &&& self.store.can_resume(&self.start, Reply::Value(self.value))
        &&& self.inlined().0.grows_to(self.flushed.func(), self.added)
        &&& self.flushed.same_but_func(&self.start)
        &&& self.inlined().1.can_resume(&self.flushed, Reply::Done)
        &&& self.called().0.grows_to(self.exited.func(), self.added)
        &&& self.exited.same_but_func(&self.start)
        &&& self.called().1.can_resume(&self.exited, Reply::Block(self.exit))
    }

    /// What the machine `m` has of the host's memory.
    pub open spec fn host(self, m: Machine) -> Host {
        laws::host_of(self.start.layout, m, self.start.tlb_ptr)
    }

    /// The guest address that is stored to in the state `m`.
    pub open spec fn guest_addr(self, m: Machine) -> u64 {
        m.val(self.addr()) as u64
    }

    /// Whether the generated code makes the store by itself when it runs from `m`.
    pub open spec fn is_inline(self, m: Machine) -> bool {
        &&& m.at_end(self.start.func())
        &&& is_address(m, self.store.guest_addr, self.addr(), self.store.ty())
        &&& m.holds(self.start.tlb_ptr, Type::I64)
        &&& m.holds(self.value, self.store.ty())
        &&& self.host(m).is_inline(AccessKind::Store, self.guest_addr(m), self.store.ty())
    }

    /// The memory that the store leaves when it runs from `m` and the generated code makes it by
    /// itself: the bytes of the integer at the host address, and every other byte as it was.
    pub open spec fn stored(self, m: Machine) -> spec_fn(u64) -> u8 {
        machine::with_bytes(
            m.mem,
            self.host(m).host_addr(AccessKind::Store, self.guest_addr(m)),
            bytes::encode(
                self.start.ctx.endianness,
                m.val(self.value) as nat,
                self.store.ty().size(),
            ),
        )
    }
}

/// Where the generated code can make a store by itself, it comes to the end of the store with the
/// bytes of the integer in the guest's memory at the address, and every other byte as it was.
pub proof fn lemma_store<'a>(run: StoreRun<'a>, m: Machine) -> (m2: Machine)
    requires
        run.wf(),
        run.is_inline(m),
    ensures
        ({
            let (j, end) = run.joined();
            &&& end.stage is Finished
            &&& m.reaches(j, m2)
            &&& m2.at_end(j)
            &&& m2.mem == run.stored(m)
            &&& m.agrees(run.start.func(), m2)
            &&& run.start.func().code_in(j)
        }),
{
    let start = run.start;
    let store = run.store;
    let n = run.added;
    let f = start.func();
    let (g, flush) = run.inlined();
    let (h, leave) = run.called();
    let k = run.exited.func();
    let m2 = lemma_store_inline(
        f,
        m,
        start.layout,
        start.tlb_ptr,
        start.ctx.endianness,
        store.guest_addr,
        run.addr(),
        run.value,
        store.ty(),
    );
    lemma_call_grows(
        run.flushed.func(),
        start.symbols.mmu.storer(store.ty()),
        seq![start.vm_ptr.0, run.addr(), run.value],
    );
    ir::lemma_grows_trans(g, run.flushed.func(), h, n, 1);
    ir::lemma_grows_trans(g, h, k, n + 1, n);
    lemma_leaves_joins(
        f,
        m,
        g,
        k,
        n + 1 + n,
        run.exit,
        f.next_block(),
        seq![],
        seq![],
        m2,
    );
    m2
}

/// After the slow path of a store, the generated code goes on with every value and the memory kept.
pub proof fn lemma_store_slow<'a>(
    leave: StoreRam,
    exited: &Translator<'a>,
    exit: Block,
    m: Machine,
) -> (m2: Machine)
    requires
        leave.stage is Exit,
        leave.can_resume(exited, Reply::Block(exit)),
        m.at_end(exited.func()),
    ensures
        ({
            let (j, end) = leave.after(exited, Reply::Block(exit));
            &&& end.stage is Finished
            &&& m.reaches(j, m2)
            &&& m2.at_end(j)
            &&& m2.mem == m.mem
            &&& m2.env == m.env
        }),
{
    let k = exited.func().set_cold(exit);
    assert(m.at_end(k));
    match leave.stage->Exit_success {
        Some(success) => {
            let m2 = lemma_join_store(k, m, success);
            reveal(flow::flows);
            m2
        },
        None => {
            assert(m.run(k, 0) == Some(m));
            m
        },
    }
}

/// A load gives back what a store of the same size to the same address has stored, in either byte
/// order. The store runs from `m` and the load from `k`, in the memory that the store leaves; the
/// generated code makes both by itself, and the write entry that the store uses and the read entry
/// that the load uses hold the same page pointer. The states returned are those at the end of the
/// store and at the end of the load. Where the load is built after the store, and `k` is reached from
/// the end of the store, one run leads through both.
pub proof fn lemma_store_then_load<'a>(
    stores: StoreRun<'a>,
    loads: LoadRun<'a>,
    m: Machine,
    k: Machine,
) -> (ends: (Machine, Machine))
    requires
        stores.wf(),
        stores.is_inline(m),
        loads.wf(),
        loads.is_inline(k),
        loads.load.output.size == stores.store.value.bytes(),
        loads.start.same_but_func(&stores.start),
        k.mem == stores.stored(m),
        loads.guest_addr(k) == stores.guest_addr(m),
        loads.host(k).page_addr(AccessKind::Load, loads.guest_addr(k)) == stores.host(m).page_addr(
            AccessKind::Store,
            stores.guest_addr(m),
        ),
    ensures
        ({
            let (m2, k2) = ends;
            let (stored, _) = stores.joined();
            let (loaded, end) = loads.joined();
            &&& m.reaches(stored, m2)
            &&& m2.at_end(stored)
            &&& m2.mem == k.mem
            &&& k.reaches(loaded, k2)
            &&& k2.at_end(loaded)
            &&& k2.mem == k.mem
            &&& end.stage is Write
            &&& k2.val(end.stage->Write_value) == m.val(stores.value)
            &&& stored.code_in(loads.start.func()) && m2.reaches(loads.start.func(), k)
                ==> m.reaches(loaded, k2)
        }),
{
    let m2 = lemma_store(stores, m);
    let k2 = lemma_load(loads, k);
    let f = loads.start.func();
    let (stored, _) = stores.joined();
    let (loaded, _) = loads.joined();
    pages::lemma_load_of_store(
        m.mem,
        stores.host(m).host_addr(AccessKind::Store, stores.guest_addr(m)),
        stores.start.ctx.endianness,
        m.val(stores.value),
        stores.store.ty(),
    );
    if stored.code_in(f) && m2.reaches(f, k) {
        flow::lemma_reaches_in(stored, f, m, m2);
        flow::lemma_reaches_trans(f, m, m2, k);
        flow::lemma_reaches_in(f, loaded, m, k);
        flow::lemma_reaches_trans(loaded, m, k, k2);
    }
    (m2, k2)
}

} // verus!
