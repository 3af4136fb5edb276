//! Whole loads and stores, from the operands that they are started with to what they leave in the
//! memory and in the output, and to the call that they make where they leave it to the emulator.

use crate::access::Host;
use crate::bytes;
use crate::flow;
use crate::ir::{Block, Endianness, Inst, Op, Type, Value};
use crate::laws;
use crate::machine;
use crate::machine::Machine;
use crate::meaning;
use crate::mem::AccessKind;
use crate::paths;
use crate::paths::{LoadRun, StoreRun};
use crate::pcode;
use crate::ram::{LoadRam, LoadStage, Reply, Request, StoreRam};
use crate::translator;
use crate::translator::{MmuSymbols, Translator};
use vstd::arithmetic::power2::pow2;
use vstd::prelude::*;

verus! {

/// An operand has the width of its variable, or the width that the constant was made with.
pub proof fn lemma_operand_width(var: pcode::VarNode, x: u64, n: u8)
    ensures
        pcode::Value::Var(var).bytes() == var.size,
        pcode::Value::Const(x, n).bytes() == n,
{
}

/// The sizes of the integer types are the sizes that the generated code can hold in one value.
pub proof fn lemma_sizes(size: u8)
    ensures
        translator::native_size(size) <==> exists|ty: Type| #[trigger] ty.size() == size,
        translator::native_size(size) ==> translator::type_of_size(size).size() == size,
        translator::native_size(size) ==> size == 1 || size == 2 || size == 4 || size == 8 || size
            == 16,
        size == 1 || size == 2 || size == 4 || size == 8 || size == 16 ==> translator::native_size(
            size,
        ),
{
    if translator::native_size(size) {
        assert(translator::type_of_size(size).size() == size);
    }
}

/// Each size has its own function of the emulator for loads and its own for stores.
pub proof fn lemma_symbols(mmu: MmuSymbols)
    ensures
        mmu.loader(translator::type_of_size(1)) == mmu.load8,
        mmu.loader(translator::type_of_size(2)) == mmu.load16,
        mmu.loader(translator::type_of_size(4)) == mmu.load32,
        mmu.loader(translator::type_of_size(8)) == mmu.load64,
        mmu.loader(translator::type_of_size(16)) == mmu.load128,
        mmu.storer(translator::type_of_size(1)) == mmu.store8,
        mmu.storer(translator::type_of_size(2)) == mmu.store16,
        mmu.storer(translator::type_of_size(4)) == mmu.store32,
        mmu.storer(translator::type_of_size(8)) == mmu.store64,
        mmu.storer(translator::type_of_size(16)) == mmu.store128,
{
}

/// Each step of a load keeps its operands, and each request names one of them and the value that the
/// load has come to; nothing else of the operands has an influence on it. Around the interpreter, and
/// once the output is written, a load adds no code.
pub proof fn lemma_load_requests<'a>(load: LoadRam, trans: &Translator<'a>, reply: Reply)
    ensures
        load.after(trans, reply).1.guest_addr == load.guest_addr,
        load.after(trans, reply).1.output == load.output,
        load.stage is Interpret ==> load.wanted() == Request::Interpret(
            pcode::Instruction {
                output: Some(load.output),
                op: pcode::Op::Load(0),
                inputs: pcode::Inputs::One(load.guest_addr),
            },
        ),
        load.stage is ReadAddress ==> load.wanted() == Request::ReadZxt(load.guest_addr, 8),
        load.stage is Flush ==> load.wanted() == Request::FlushCurrentPc,
        load.stage is Exit || load.stage is ExitInterpreter ==> load.wanted()
            == Request::MaybeExitJit,
        load.stage matches LoadStage::Write { value } ==> load.wanted() == Request::Write(
            load.output,
            value,
        ),
        load.stage is Finished ==> load.wanted() == Request::Finished,
        load.stage is Interpret ==> load.after(trans, reply).0 == trans.func() && load.after(
            trans,
            reply,
        ).1.stage is ExitInterpreter,
        load.stage is ExitInterpreter || load.stage is Write ==> load.after(trans, reply).0
            == trans.func() && load.after(trans, reply).1.stage is Finished,
{
}

/// Each step of a store keeps its operands, and each request names one of them. Around the interpreter
/// a store adds no code.
pub proof fn lemma_store_requests<'a>(store: StoreRam, trans: &Translator<'a>, reply: Reply)
    ensures
        store.after(trans, reply).1.guest_addr == store.guest_addr,
        store.after(trans, reply).1.value == store.value,
        store.stage is Interpret ==> store.wanted() == Request::Interpret(
            pcode::Instruction {
                output: None,
                op: pcode::Op::Store(0),
                inputs: pcode::Inputs::Two(store.guest_addr, store.value),
            },
        ),
        store.stage is ReadAddress ==> store.wanted() == Request::ReadZxt(store.guest_addr, 8),
        store.stage is ReadValue ==> store.wanted() == Request::ReadInt(store.value),
        store.stage is Flush ==> store.wanted() == Request::FlushCurrentPc,
        store.stage is Exit || store.stage is ExitInterpreter ==> store.wanted()
            == Request::MaybeExitJit,
        store.stage is Finished ==> store.wanted() == Request::Finished,
        store.stage is Interpret ==> store.after(trans, reply).0 == trans.func() && store.after(
            trans,
            reply,
        ).1.stage is ExitInterpreter,
        store.stage is ExitInterpreter ==> store.after(trans, reply).0 == trans.func()
            && store.after(trans, reply).1.stage is Finished,
{
}

/// What the parts of an access leave alone: the settings, the pointers, the functions of the emulator
/// and the layout.
pub proof fn lemma_same_but_func<'a>(t1: &Translator<'a>, t2: &Translator<'a>)
    ensures
        t1.same_but_func(t2) <==> t1.ctx.endianness == t2.ctx.endianness && t1.ctx.disable_jit_mem
            == t2.ctx.disable_jit_mem && t1.vm_ptr.0 == t2.vm_ptr.0 && t1.tlb_ptr == t2.tlb_ptr
            && t1.symbols.mmu == t2.symbols.mmu && t1.layout == t2.layout,
{
}

/// The slow path of a load adds one instruction: a call of the emulator's function for the size of the
/// output, with the pointer to the emulator and the value that was given in reply to the request for
/// the address. The one value that the call defines is the one that the load goes on with.
pub proof fn lemma_load_call<'a>(
    load: LoadRam,
    start: &Translator<'a>,
    addr: Value,
    flushed: &Translator<'a>,
    reply: Reply,
)
    requires
        load.stage is ReadAddress,
        load.output.size == 1 || load.output.size == 2 || load.output.size == 4 || load.output.size
            == 8 || load.output.size == 16,
        flushed.wf(),
        flushed.func().room(2),
    ensures
        ({
            let (_, flush) = load.after(start, Reply::Value(addr));
            let (g, leave) = flush.after(flushed, reply);
            let f = flushed.func();
            let mmu = flushed.symbols.mmu;
            let here = f.cursor->0.index as int;
            let result = Value { index: f.values.len() as u32 };
            let func = if load.output.size == 1 {
                mmu.load8
            } else if load.output.size == 2 {
                mmu.load16
            } else if load.output.size == 4 {
                mmu.load32
            } else if load.output.size == 8 {
                mmu.load64
            } else {
                mmu.load128
            };
            &&& load.wanted() == Request::ReadZxt(load.guest_addr, 8)
            &&& flush.wanted() == Request::FlushCurrentPc
            &&& g.blocks[here].insts == f.blocks[here].insts.push(
                Inst {
                    op: Op::Call { func, args: seq![flushed.vm_ptr.0, addr] },
                    results: seq![result],
                },
            )
            &&& g.blocks.len() == f.blocks.len()
            &&& forall|i: int|
                0 <= i < f.blocks.len() && i != here ==> #[trigger] g.blocks[i] == f.blocks[i]
            &&& g.cursor == f.cursor
            &&& g.values.len() == f.values.len() + 1
            &&& g.values[f.values.len() as int] is Some
            &&& g.values[f.values.len() as int]->0.size() == load.output.size
            &&& leave.stage is Exit
            &&& leave.stage->Exit_value == result
            &&& leave.stage->Exit_success == flush.stage->Flush_success
        }),
{
    let f = flushed.func();
    let (_, flush) = load.after(start, Reply::Value(addr));
    let (g, _) = flush.after(flushed, reply);
    let func = flushed.symbols.mmu.loader(load.ty());
    let results = f.call_results(func);
    assert(f.imports[func.index as int].returns.len() == 1);
    assert(results =~= seq![f.next_value()]);
    assert(f.imports[func.index as int].returns[0] == Some(load.ty()));
}

/// The slow path of a store adds one instruction: a call of the emulator's function for the width of
/// the stored operand, with the pointer to the emulator, the value that was given in reply to the
/// request for the address, and the value that was given in reply to the request for the operand.
pub proof fn lemma_store_call<'a>(
    store: StoreRam,
    start: &Translator<'a>,
    addr: Value,
    read: &Translator<'a>,
    value: Value,
    flushed: &Translator<'a>,
    reply: Reply,
    width: u8,
)
    requires
        store.stage is ReadAddress,
        store.value matches pcode::Value::Var(var) ==> width == var.size,
        store.value matches pcode::Value::Const(_, n) ==> width == n,
        width == 1 || width == 2 || width == 4 || width == 8 || width == 16,
        flushed.wf(),
        flushed.func().room(1),
    ensures
        ({
            let (_, fetch) = store.after(start, Reply::Value(addr));
            let (_, flush) = fetch.after(read, Reply::Value(value));
            let (g, leave) = flush.after(flushed, reply);
            let f = flushed.func();
            let mmu = flushed.symbols.mmu;
            let here = f.cursor->0.index as int;
            let func = if width == 1 {
                mmu.store8
            } else if width == 2 {
                mmu.store16
            } else if width == 4 {
                mmu.store32
            } else if width == 8 {
                mmu.store64
            } else {
                mmu.store128
            };
            &&& store.wanted() == Request::ReadZxt(store.guest_addr, 8)
            &&& fetch.wanted() == Request::ReadInt(store.value)
            &&& flush.wanted() == Request::FlushCurrentPc
            &&& g.blocks[here].insts == f.blocks[here].insts.push(
                Inst {
                    op: Op::Call { func, args: seq![flushed.vm_ptr.0, addr, value] },
                    results: seq![],
                },
            )
            &&& g.blocks.len() == f.blocks.len()
            &&& forall|i: int|
                0 <= i < f.blocks.len() && i != here ==> #[trigger] g.blocks[i] == f.blocks[i]
            &&& g.cursor == f.cursor
            &&& g.values == f.values
            &&& leave.stage is Exit
            &&& leave.stage->Exit_success == flush.stage->Flush_success
        }),
{
    let f = flushed.func();
    let func = flushed.symbols.mmu.storer(translator::type_of_size(width));
    assert(f.imports[func.index as int].returns.len() == 0);
    assert(f.call_results(func) =~= seq![]);
    assert(f.values + f.imports[func.index as int].returns =~= f.values);
}

/// A load has an inline path exactly if its address is not a constant that is no multiple of the size.
/// Without one, nothing is added before the slow path; with one, the slow path ends in the block that
/// was created first.
pub proof fn lemma_load_has_inline<'a>(load: LoadRam, start: &Translator<'a>, addr: Value)
    requires
        load.stage is ReadAddress,
    ensures
        ({
            let (g, flush) = load.after(start, Reply::Value(addr));
            let slow_only = load.guest_addr is Const && load.guest_addr->Const_0 as int
                % load.output.size as int != 0;
            &&& flush.stage is Flush
            &&& flush.stage->Flush_guest_addr == addr
            &&& slow_only ==> g == start.func() && flush.stage->Flush_success is None
            &&& !slow_only ==> flush.stage->Flush_success is Some
                && flush.stage->Flush_success->0.index == start.func().blocks.len() as u32
        }),
{
}

/// The same for a store.
pub proof fn lemma_store_has_inline<'a>(
    store: StoreRam,
    start: &Translator<'a>,
    addr: Value,
    read: &Translator<'a>,
    value: Value,
    width: u8,
)
    requires
        store.stage is ReadAddress,
        store.value matches pcode::Value::Var(var) ==> width == var.size,
        store.value matches pcode::Value::Const(_, n) ==> width == n,
    ensures
        ({
            let (f, fetch) = store.after(start, Reply::Value(addr));
            let (g, flush) = fetch.after(read, Reply::Value(value));
            let slow_only = store.guest_addr is Const && store.guest_addr->Const_0 as int
                % width as int != 0;
            &&& f == start.func()
            &&& flush.stage is Flush
            &&& flush.stage->Flush_guest_addr == addr
            &&& flush.stage->Flush_value == value
            &&& slow_only ==> g == read.func() && flush.stage->Flush_success is None
            &&& !slow_only ==> flush.stage->Flush_success is Some
                && flush.stage->Flush_success->0.index == read.func().blocks.len() as u32
        }),
{
}

/// What a load writes to its output: `bytes`, the bytes of the guest's page at the guest address
/// `a`, as the digits of an integer to the base 256, whatever the output is. The address that counts
/// is the operand where that is a constant, and what the value that was given for it holds.
pub proof fn lemma_load_writes<'a>(
    run: LoadRun<'a>,
    m: Machine,
    a: u64,
    ty: Type,
    bytes: Seq<u8>,
) -> (m2: Machine)
    requires
        run.wf(),
        ty.size() == run.load.output.size,
        m.at_end(run.start.func()),
        m.val(run.addr) == a,
        run.load.guest_addr matches pcode::Value::Const(c, _) ==> c == a,
        m.val(run.start.tlb_ptr) <= u64::MAX,
        (Host {
            layout: run.start.layout,
            mem: m.mem,
            tlb: m.val(run.start.tlb_ptr),
        }).is_inline(AccessKind::Load, a, ty),
        bytes.len() == ty.size(),
        forall|i: int|
            0 <= i < ty.size() ==> #[trigger] bytes[i] == (m.mem)(
                (((Host {
                    layout: run.start.layout,
                    mem: m.mem,
                    tlb: m.val(run.start.tlb_ptr),
                }).host_addr(AccessKind::Load, a) + i) % 0x1_0000_0000_0000_0000) as u64,
            ),
    ensures
        ({
            let flush = run.load.after(&run.start, Reply::Value(run.addr)).1;
            let leave = flush.after(&run.flushed, Reply::Done).1;
            let (j, end) = leave.after(&run.exited, Reply::Block(run.exit));
            let written = m2.val(end.wanted()->Write_1);
            &&& end.wanted() is Write
            &&& end.wanted()->Write_0 == run.load.output
            &&& m.reaches(j, m2)
            &&& m2.at_end(j)
            &&& m2.mem == m.mem
            &&& m.agrees(run.start.func(), m2)
            &&& written < pow2(8 * ty.size())
            &&& forall|i: int|
                0 <= i < ty.size() ==> #[trigger] bytes[i] == (written as int / pow2(
                    (8 * (if run.start.ctx.endianness == Endianness::Little {
                        i
                    } else {
                        ty.size() - 1 - i
                    })) as nat,
                ) as int) % 256
        }),
{
    lemma_sizes(run.load.output.size);
    assert(ty == run.load.ty());
    let host = run.host(m);
    let h = host.host_addr(AccessKind::Load, a);
    let guest = machine::bytes_at(m.mem, h, ty.size());
    assert(guest =~= bytes);
    let m2 = paths::lemma_load(run, m);
    let e = run.start.ctx.endianness;
    let written = bytes::decode(e, bytes);
    meaning::lemma_decode_digit(e, bytes, 0);
    assert forall|i: int| 0 <= i < ty.size() implies #[trigger] bytes[i] == (written as int / pow2(
        (8 * (if e == Endianness::Little {
            i
        } else {
            ty.size() - 1 - i
        })) as nat,
    ) as int) % 256 by {
        if e == Endianness::Little {
            meaning::lemma_decode_digit(e, bytes, i);
        } else {
            meaning::lemma_decode_digit(e, bytes, ty.size() - 1 - i);
        }
    }
    m2
}

/// Where the generated code does not make a load by itself, it comes to the code that is added next,
/// that of the slow path, with the memory and every value as they were.
pub proof fn lemma_load_misses<'a>(
    load: LoadRam,
    start: &Translator<'a>,
    addr: Value,
    m: Machine,
    a: u64,
    ty: Type,
) -> (m2: Machine)
    requires
        load.stage is ReadAddress,
        load.can_resume(start, Reply::Value(addr)),
        ty.size() == load.output.size,
        m.at_end(start.func()),
        m.val(addr) == a,
        load.guest_addr matches pcode::Value::Const(c, _) ==> c == a,
        m.val(start.tlb_ptr) <= u64::MAX,
        !(Host { layout: start.layout, mem: m.mem, tlb: m.val(start.tlb_ptr) }).is_inline(
            AccessKind::Load,
            a,
            ty,
        ),
    ensures
        ({
            let (g, _) = load.after(start, Reply::Value(addr));
            &&& m.reaches(g, m2)
            &&& m2.at_end(g)
            &&& m2.mem == m.mem
            &&& m.agrees(start.func(), m2)
        }),
{
    lemma_sizes(load.output.size);
    assert(ty == load.ty());
    if load.guest_addr is Const && a as int % ty.size() as int != 0 {
        assert(m.run(start.func(), 0) == Some(m));
        m
    } else {
        reveal(flow::flows);
        paths::lemma_load_inline(
            start.func(),
            m,
            start.layout,
            start.tlb_ptr,
            start.ctx.endianness,
            load.guest_addr,
            addr,
            ty,
        )
    }
}

/// What the value holds that a load writes to its output after the slow path: what the value holds
/// that the call of the emulator's function has defined, whatever the output is.
pub proof fn lemma_load_writes_slow<'a>(
    load: LoadRam,
    start: &Translator<'a>,
    addr: Value,
    flushed: &Translator<'a>,
    exited: &Translator<'a>,
    exit: Block,
    m: Machine,
) -> (m2: Machine)
    requires
        load.stage is ReadAddress,
        ({
            let flush = load.after(start, Reply::Value(addr)).1;
            let leave = flush.after(flushed, Reply::Done).1;
            leave.can_resume(exited, Reply::Block(exit))
        }),
        m.at_end(exited.func()),
    ensures
        ({
            let flush = load.after(start, Reply::Value(addr)).1;
            let leave = flush.after(flushed, Reply::Done).1;
            let (j, end) = leave.after(exited, Reply::Block(exit));
            let result = Value { index: flushed.func().values.len() as u32 };
            &&& end.wanted() is Write
            &&& end.wanted()->Write_0 == load.output
            &&& m.reaches(j, m2)
            &&& m2.at_end(j)
            &&& m2.mem == m.mem
            &&& m2.val(end.wanted()->Write_1) == m.val(result)
        }),
{
    let flush = load.after(start, Reply::Value(addr)).1;
    let leave = flush.after(flushed, Reply::Done).1;
    paths::lemma_load_slow(leave, exited, exit, m)
}

/// What a store leaves in the memory: the digits to the base 256 of the integer, as many as the
/// operand is wide, in the guest's page at the guest address `a`, and every other byte as it was. The
/// store is followed from its start; the address that counts is the operand that it was started with
/// where that is a constant, and what the value that was given for it holds.
pub proof fn lemma_store_leaves<'a>(
    store: StoreRam,
    begin: &Translator<'a>,
    addr: Value,
    run: StoreRun<'a>,
    m: Machine,
    a: u64,
    ty: Type,
    width: u8,
) -> (m2: Machine)
    requires
        store.stage is ReadAddress,
        run.store == store.after(begin, Reply::Value(addr)).1,
        run.wf(),
        store.value matches pcode::Value::Var(var) ==> width == var.size,
        store.value matches pcode::Value::Const(_, n) ==> width == n,
        ty.size() == width,
        m.at_end(run.start.func()),
        m.val(addr) == a,
        store.guest_addr matches pcode::Value::Const(c, _) ==> c == a,
        m.val(run.start.tlb_ptr) <= u64::MAX,
        m.val(run.value) < pow2(8 * ty.size()),
        (Host {
            layout: run.start.layout,
            mem: m.mem,
            tlb: m.val(run.start.tlb_ptr),
        }).is_inline(AccessKind::Store, a, ty),
    ensures
        ({
            let flush = run.store.after(&run.start, Reply::Value(run.value)).1;
            let leave = flush.after(&run.flushed, Reply::Done).1;
            let (j, end) = leave.after(&run.exited, Reply::Block(run.exit));
            let h = (Host {
                layout: run.start.layout,
                mem: m.mem,
                tlb: m.val(run.start.tlb_ptr),
            }).host_addr(AccessKind::Store, a);
            &&& end.wanted() is Finished
            &&& m.reaches(j, m2)
            &&& m2.at_end(j)
            &&& m.agrees(run.start.func(), m2)
            &&& forall|b: u64|
                {
                    let d = (b - h) % 0x1_0000_0000_0000_0000;
                    #[trigger] (m2.mem)(b) == if d < width {
                        (m.val(run.value) as int / pow2(
                            (8 * (if run.start.ctx.endianness == Endianness::Little {
                                d
                            } else {
                                width - 1 - d
                            })) as nat,
                        ) as int) % 256
                    } else {
                        (m.mem)(b) as int
                    }
                }
        }),
{
    lemma_sizes(width);
    assert(ty == run.store.ty());
    laws::lemma_type_mask(ty);
    let m2 = paths::lemma_store(run, m);
    let e = run.start.ctx.endianness;
    let x = m.val(run.value) as nat;
    let h = run.host(m).host_addr(AccessKind::Store, a);
    let stored = bytes::encode(e, x, width as nat);
    meaning::lemma_encode_digit(e, x, width as nat, 0);
    assert forall|b: u64|
        {
            let d = (b - h) % 0x1_0000_0000_0000_0000;
            #[trigger] (m2.mem)(b) == if d < width {
                (x as int / pow2(
                    (8 * (if e == Endianness::Little {
                        d
                    } else {
                        width - 1 - d
                    })) as nat,
                ) as int) % 256
            } else {
                (m.mem)(b) as int
            }
        } by {
        let d = (b - h) % 0x1_0000_0000_0000_0000;
        if d < width {
            if e == Endianness::Little {
                meaning::lemma_encode_digit(e, x, width as nat, d);
            } else {
                meaning::lemma_encode_digit(e, x, width as nat, width - 1 - d);
            }
        }
    }
    m2
}

/// Where the generated code does not make a store by itself, it comes to the code that is added next,
/// that of the slow path, with the memory and every value as they were.
pub proof fn lemma_store_misses<'a>(
    store: StoreRam,
    begin: &Translator<'a>,
    addr: Value,
    start: &Translator<'a>,
    value: Value,
    m: Machine,
    a: u64,
    ty: Type,
    width: u8,
) -> (m2: Machine)
    requires
        store.stage is ReadAddress,
        store.after(begin, Reply::Value(addr)).1.can_resume(start, Reply::Value(value)),
        store.value matches pcode::Value::Var(var) ==> width == var.size,
        store.value matches pcode::Value::Const(_, n) ==> width == n,
        ty.size() == width,
        m.at_end(start.func()),
        m.val(addr) == a,
        store.guest_addr matches pcode::Value::Const(c, _) ==> c == a,
        m.val(start.tlb_ptr) <= u64::MAX,
        m.val(value) < pow2(8 * ty.size()),
        !(Host { layout: start.layout, mem: m.mem, tlb: m.val(start.tlb_ptr) }).is_inline(
            AccessKind::Store,
            a,
            ty,
        ),
    ensures
        ({
            let fetch = store.after(begin, Reply::Value(addr)).1;
            let (g, _) = fetch.after(start, Reply::Value(value));
            &&& m.reaches(g, m2)
            &&& m2.at_end(g)
            &&& m2.mem == m.mem
            &&& m.agrees(start.func(), m2)
        }),
{
    lemma_sizes(width);
    laws::lemma_type_mask(ty);
    let fetch = store.after(begin, Reply::Value(addr)).1;
    assert(ty == fetch.ty());
    if store.guest_addr is Const && a as int % ty.size() as int != 0 {
        assert(m.run(start.func(), 0) == Some(m));
        m
    } else {
        reveal(flow::flows);
        paths::lemma_store_inline(
            start.func(),
            m,
            start.layout,
            start.tlb_ptr,
            start.ctx.endianness,
            store.guest_addr,
            addr,
            value,
            ty,
        )
    }
}

} // verus!
