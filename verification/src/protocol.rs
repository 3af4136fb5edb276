//! The order in which the translation of an access asks for work.

use crate::ir::{Func, FuncRef};
use crate::paths;
use crate::pcode;
use crate::ram;
use crate::ram::{LoadRam, Reply, Request, StoreRam};
use crate::translator::Translator;
use vstd::prelude::*;

verus! {

/// Work that only adds code keeps the translation of a load valid.
pub proof fn lemma_load_stays_valid(load: LoadRam, f: Func, g: Func, n: nat)
    requires
        f.open(),
        f.grows_to(g, n),
        load.is_valid(f),
    ensures
        load.is_valid(g),
{
    match load.stage {
        ram::LoadStage::Flush { success: Some(success), .. } => {
            paths::lemma_is_join_grows(f, g, n, success, seq![load.ty()]);
        },
        ram::LoadStage::Exit { success: Some(success), .. } => {
            paths::lemma_is_join_grows(f, g, n, success, seq![load.ty()]);
        },
        _ => {},
    }
}

/// Work that only adds code keeps the translation of a store valid.
pub proof fn lemma_store_stays_valid(store: StoreRam, f: Func, g: Func, n: nat)
    requires
        f.open(),
        f.grows_to(g, n),
        store.is_valid(f),
    ensures
        store.is_valid(g),
{
    match store.stage {
        ram::StoreStage::Flush { success: Some(success), .. } => {
            paths::lemma_is_join_grows(f, g, n, success, seq![]);
        },
        ram::StoreStage::Exit { success: Some(success), .. } => {
            paths::lemma_is_join_grows(f, g, n, success, seq![]);
        },
        _ => {},
    }
}

/// A load that is left to the interpreter asks for the instruction to be interpreted, and then for
/// an exit where that has raised an exception. It adds no code of its own.
pub proof fn lemma_load_interpreted<'a>(
    load: LoadRam,
    t1: &Translator<'a>,
    t2: &Translator<'a>,
    r1: Reply,
    r2: Reply,
)
    requires
        load.stage is Interpret,
    ensures
        ({
            let (f1, next) = load.after(t1, r1);
            let (f2, last) = next.after(t2, r2);
            &&& load.wanted() == Request::Interpret(
                pcode::Instruction {
                    output: Some(load.output),
                    op: pcode::Op::Load(ram::RAM_SPACE),
                    inputs: pcode::Inputs::One(load.guest_addr),
                },
            )
            &&& next.wanted() is MaybeExitJit
            &&& last.wanted() is Finished
            &&& f1 == t1.func()
            &&& f2 == t2.func()
        }),
{
}

/// A store that is left to the interpreter asks for the instruction to be interpreted, and then for
/// an exit where that has raised an exception. It adds no code of its own.
pub proof fn lemma_store_interpreted<'a>(
    store: StoreRam,
    t1: &Translator<'a>,
    t2: &Translator<'a>,
    r1: Reply,
    r2: Reply,
)
    requires
        store.stage is Interpret,
    ensures
        ({
            let (f1, next) = store.after(t1, r1);
            let (f2, last) = next.after(t2, r2);
            &&& store.wanted() == Request::Interpret(
                pcode::Instruction {
                    output: None,
                    op: pcode::Op::Store(ram::RAM_SPACE),
                    inputs: pcode::Inputs::Two(store.guest_addr, store.value),
                },
            )
            &&& next.wanted() is MaybeExitJit
            &&& last.wanted() is Finished
            &&& f1 == t1.func()
            &&& f2 == t2.func()
        }),
{
}

/// Whether the code that leads from `f` to `g` is a call of `func`.
pub open spec fn adds_call(f: Func, g: Func, func: FuncRef) -> bool {
    exists|args| g == #[trigger] f.call(func, args)
}

/// Any other load reads its address, brings the program counter up to date before the call of the
/// emulator's function, asks for an exit after it, and writes the output last.
pub proof fn lemma_load_order<'a>(
    load: LoadRam,
    t1: &Translator<'a>,
    t2: &Translator<'a>,
    t3: &Translator<'a>,
    t4: &Translator<'a>,
    r1: Reply,
    r2: Reply,
    r3: Reply,
    r4: Reply,
)
    requires
        load.stage is ReadAddress,
    ensures
        ({
            let (_, flush) = load.after(t1, r1);
            let (called, leave) = flush.after(t2, r2);
            let (_, write) = leave.after(t3, r3);
            let (_, last) = write.after(t4, r4);
            &&& load.wanted() == Request::ReadZxt(load.guest_addr, ram::ADDRESS_SIZE)
            &&& flush.wanted() is FlushCurrentPc
            &&& adds_call(t2.func(), called, t2.symbols.mmu.loader(load.ty()))
            &&& leave.wanted() is MaybeExitJit
            &&& write.wanted() is Write && write.wanted()->Write_0 == load.output
            &&& last.wanted() is Finished
        }),
{
}

/// Any other store reads its address and its integer, brings the program counter up to date before
/// the call of the emulator's function, and asks for an exit after it.
pub proof fn lemma_store_order<'a>(
    store: StoreRam,
    t1: &Translator<'a>,
    t2: &Translator<'a>,
    t3: &Translator<'a>,
    t4: &Translator<'a>,
    r1: Reply,
    r2: Reply,
    r3: Reply,
    r4: Reply,
)
    requires
        store.stage is ReadAddress,
    ensures
        ({
            let (_, read) = store.after(t1, r1);
            let (_, flush) = read.after(t2, r2);
            let (called, leave) = flush.after(t3, r3);
            let (_, last) = leave.after(t4, r4);
            &&& store.wanted() == Request::ReadZxt(store.guest_addr, ram::ADDRESS_SIZE)
            &&& read.wanted() == Request::ReadInt(store.value)
            &&& flush.wanted() is FlushCurrentPc
            &&& adds_call(t3.func(), called, t3.symbols.mmu.storer(store.ty()))
            &&& leave.wanted() is MaybeExitJit
            &&& last.wanted() is Finished
        }),
{
}

/// An access to a constant address that is not aligned adds nothing before the slow path.
pub proof fn lemma_unaligned_const<'a>(
    load: LoadRam,
    store: StoreRam,
    t: &Translator<'a>,
    reply: Reply,
)
    requires
        load.stage is ReadAddress,
        store.stage is ReadValue,
    ensures
        ram::is_unaligned_const(load.guest_addr, load.output.size) ==> load.after(t, reply).0
            == t.func(),
        ram::is_unaligned_const(store.guest_addr, store.value.bytes()) ==> store.after(t, reply).0
            == t.func(),
{
}

} // verus!
