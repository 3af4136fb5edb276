//! Loads from and stores to guest memory.
//!
//! The translation of an access alternates with work of the translator that is not about memory:
//! reading and writing guest variables, keeping the program counter up to date and leaving the
//! generated code. A translation asks for such work with a [`Request`] and goes on with the
//! [`Reply`].

use crate::clif;
use crate::ir;
use crate::ir::{Block, Func, FuncRef, InstRef, Type, Value};
use crate::mem::{is_aligned, load_host, store_host, try_inline_access, AccessKind};
use crate::pcode;
use crate::pcode::{Instruction, VarNode};
use crate::translator;
use crate::translator::{is_native_size, sized_int, Translator};
use vstd::prelude::*;

verus! {

/// The space of guest memory.
pub const RAM_SPACE: u8 = 0;

/// The size of a guest address in bytes.
pub const ADDRESS_SIZE: u8 = 8;

/// Work that the translation of an access asks for. All of it adds code where the builder is.
#[derive(Clone, Copy, Debug, PartialEq, Eq, Structural)]
pub enum Request {
    /// Code that hands the instruction to the interpreter.
    Interpret(Instruction),
    /// Code that leaves the generated code where an exception is pending, and otherwise goes on.
    /// The reply is the block in which it leaves.
    MaybeExitJit,
    /// Code that reads the operand and extends it with zeros to the number of bytes. The reply is
    /// the value.
    ReadZxt(pcode::Value, u8),
    /// Code that reads the operand as an integer. The reply is the value.
    ReadInt(pcode::Value),
    /// Code that brings the program counter in memory up to date.
    FlushCurrentPc,
    /// Code that writes the value to the variable.
    Write(VarNode, Value),
    /// Nothing: the translation is complete.
    Finished,
}

/// What came of a request.
#[derive(Clone, Copy, Debug, PartialEq, Eq, Structural)]
pub enum Reply {
    Done,
    Value(Value),
    Block(Block),
}

impl Request {
    /// Whether the reply answers the request.
    pub open spec fn is_answered_by(self, reply: Reply) -> bool {
        match self {
            Request::Interpret(_) | Request::FlushCurrentPc | Request::Write(_, _) => reply is Done,
            Request::MaybeExitJit => reply is Block,
            Request::ReadZxt(_, _) | Request::ReadInt(_) => reply is Value,
            Request::Finished => false,
        }
    }
}

/// Whether an address is a constant that is not a multiple of `size`.
pub open spec fn is_unaligned_const(guest_addr: pcode::Value, size: u8) -> bool {
    match guest_addr {
        pcode::Value::Const(addr, _) => addr as int % size as int != 0,
        pcode::Value::Var(_) => false,
    }
}

/// Whether the block in which an access ends is as it was created, with parameters of types `tys`.
pub open spec fn is_join(f: Func, success: Block, tys: Seq<Type>) -> bool {
    &&& f.is_block(success)
    &&& f.here() != success
    &&& f.body(success).status is Empty
    &&& f.body(success).insts.len() == 0
    &&& !f.body(success).sealed
    &&& !f.body(success).pending
    &&& f.body(success).params.len() == tys.len()
    &&& forall|i: int|
        0 <= i < tys.len() ==> f.has_type(#[trigger] f.body(success).params[i], tys[i])
}

/// How far the translation of a load has come.
#[derive(Clone, Copy, Debug, PartialEq, Eq, Structural)]
pub enum LoadStage {
    /// The load is left to the interpreter.
    Interpret,
    /// The interpreter may have raised an exception.
    ExitInterpreter,
    /// The address is read.
    ReadAddress,
    /// The slow path starts.
    Flush { guest_addr: Value, success: Option<Block> },
    /// The slow path has loaded `value`.
    Exit { value: Value, success: Option<Block> },
    /// The loaded integer is written.
    Write { value: Value },
    Finished,
}

/// The translation of a load.
#[derive(Clone, Copy, Debug, PartialEq, Eq, Structural)]
pub struct LoadRam {
    pub guest_addr: pcode::Value,
    pub output: VarNode,
    pub stage: LoadStage,
}

/// Generate code for loading a value from RAM: starts the translation.
pub fn load_ram(trans: &Translator<'_>, guest_addr: pcode::Value, output: VarNode) -> (load: LoadRam)
    ensures
        load.guest_addr == guest_addr,
        load.output == output,
        load.stage is ReadAddress <==> !trans.ctx.disable_jit_mem && (output.size == 1
            || output.size == 2 || output.size == 4 || output.size == 8 || output.size == 16),
        load.stage == (if !translator::native_size(output.size) || trans.ctx.disable_jit_mem {
            LoadStage::Interpret
        } else {
            LoadStage::ReadAddress
        }),
{
    let size: u8 = output.size;
    let stage: LoadStage = if !is_native_size(size) || trans.ctx.disable_jit_mem {
        LoadStage::Interpret
    } else {
        LoadStage::ReadAddress
    };
    LoadRam { guest_addr, output, stage }
}

impl LoadRam {
    /// The type of the loaded integer.
    pub open spec fn ty(self) -> Type {
        translator::type_of_size(self.output.size)
    }

    /// The work that is asked for.
    pub open spec fn wanted(self) -> Request {
        match self.stage {
            LoadStage::Interpret => Request::Interpret(
                Instruction {
                    output: Some(self.output),
                    op: pcode::Op::Load(RAM_SPACE),
                    inputs: pcode::Inputs::One(self.guest_addr),
                },
            ),
            LoadStage::ExitInterpreter => Request::MaybeExitJit,
            LoadStage::ReadAddress => Request::ReadZxt(self.guest_addr, ADDRESS_SIZE),
            LoadStage::Flush { .. } => Request::FlushCurrentPc,
            LoadStage::Exit { .. } => Request::MaybeExitJit,
            LoadStage::Write { value } => Request::Write(self.output, value),
            LoadStage::Finished => Request::Finished,
        }
    }

    /// The number of replies until the translation is complete.
    pub open spec fn remaining(self) -> nat {
        match self.stage {
            LoadStage::Interpret => 2,
            LoadStage::ExitInterpreter => 1,
            LoadStage::ReadAddress => 4,
            LoadStage::Flush { .. } => 3,
            LoadStage::Exit { .. } => 2,
            LoadStage::Write { .. } => 1,
            LoadStage::Finished => 0,
        }
    }

    /// Whether the function that is being built has what the stage refers to.
    pub open spec fn is_valid(self, f: Func) -> bool {
        match self.stage {
            LoadStage::ReadAddress => translator::native_size(self.output.size),
            LoadStage::Flush { guest_addr, success } => {
                &&& translator::native_size(self.output.size)
                &&& f.has_type(guest_addr, Type::I64)
                &&& success is Some ==> is_join(f, success->0, seq![self.ty()])
            },
            LoadStage::Exit { value, success } => {
                &&& translator::native_size(self.output.size)
                &&& f.has_type(value, self.ty())
                &&& success is Some ==> is_join(f, success->0, seq![self.ty()])
            },
            LoadStage::Write { value } => f.has_type(value, self.ty()),
            _ => true,
        }
    }

    /// Whether the translation can go on with `reply`. Swapping the bytes of an integer of 128 bits
    /// is not supported.
    pub open spec fn can_resume(self, trans: &Translator<'_>, reply: Reply) -> bool {
        &&& self.wanted().is_answered_by(reply)
        &&& self.is_valid(trans.func())
        &&& match self.stage {
            LoadStage::ReadAddress => {
                &&& trans.func().has_type(reply->Value_0, Type::I64)
                &&& !is_unaligned_const(self.guest_addr, self.output.size) ==> {
                    &&& trans.wf()
                    &&& trans.func().room(56)
                    &&& self.output.size == 16 ==> trans.ctx.endianness is Little
                }
            },
            LoadStage::Flush { .. } => trans.wf() && trans.func().room(2),
            LoadStage::Exit { success, .. } => {
                &&& success is Some ==> trans.func().open()
                &&& trans.func().room(1)
                &&& trans.func().is_block(reply->Block_0)
            },
            _ => true,
        }
    }

    /// The function and the translation after `reply`.
    pub open spec fn after(self, trans: &Translator<'_>, reply: Reply) -> (Func, LoadRam) {
        let f = trans.func();
        match self.stage {
            LoadStage::Interpret => (f, LoadRam { stage: LoadStage::ExitInterpreter, ..self }),
            LoadStage::ReadAddress => {
                let addr = reply->Value_0;
                if is_unaligned_const(self.guest_addr, self.output.size) {
                    (
                        f,
                        LoadRam {
                            stage: LoadStage::Flush { guest_addr: addr, success: None },
                            ..self
                        },
                    )
                } else {
                    (
                        f.load_inline(
                            trans.layout,
                            trans.tlb_ptr,
                            trans.ctx.endianness,
                            self.guest_addr,
                            addr,
                            self.ty(),
                        ),
                        LoadRam {
                            stage: LoadStage::Flush {
                                guest_addr: addr,
                                success: Some(f.next_block()),
                            },
                            ..self
                        },
                    )
                }
            },
            LoadStage::Flush { guest_addr, success } => (
                f.call(
                    trans.symbols.mmu.loader(self.ty()),
                    seq![trans.vm_ptr.0, guest_addr],
                ),
                LoadRam { stage: LoadStage::Exit { value: f.next_value(), success }, ..self },
            ),
            LoadStage::Exit { value, success } => {
                let g = f.set_cold(reply->Block_0);
                match success {
                    Some(success) => (
                        g.join(success, seq![value]),
                        LoadRam {
                            stage: LoadStage::Write { value: g.body(success).params[0] },
                            ..self
                        },
                    ),
                    None => (g, LoadRam { stage: LoadStage::Write { value }, ..self }),
                }
            },
            _ => (f, LoadRam { stage: LoadStage::Finished, ..self }),
        }
    }

    /// The work that is asked for.
    pub fn request(&self) -> (request: Request)
        ensures
            request == self.wanted(),
            request is Finished <==> self.remaining() == 0,
            self.stage matches LoadStage::Write { value } ==> request == Request::Write(
                self.output,
                value,
            ),
            self.stage is ReadAddress ==> request == Request::ReadZxt(self.guest_addr, 8),
    {
        match self.stage {
            LoadStage::Interpret => Request::Interpret(
                Instruction {
                    output: Some(self.output),
                    op: pcode::Op::Load(RAM_SPACE),
                    inputs: pcode::Inputs::One(self.guest_addr),
                },
            ),
            LoadStage::ExitInterpreter => Request::MaybeExitJit,
            LoadStage::ReadAddress => Request::ReadZxt(self.guest_addr, ADDRESS_SIZE),
            LoadStage::Flush { .. } => Request::FlushCurrentPc,
            LoadStage::Exit { .. } => Request::MaybeExitJit,
            LoadStage::Write { value } => Request::Write(self.output, value),
            LoadStage::Finished => Request::Finished,
        }
    }

    /// Goes on with the translation.
    pub fn resume(self, trans: &mut Translator<'_>, reply: Reply) -> (next: LoadRam)
        requires
            self.can_resume(old(trans), reply),
        ensures
            (final(trans).func(), next) == self.after(old(trans), reply),
            final(trans).same_but_func(old(trans)),
            next.is_valid(final(trans).func()),
            next.remaining() == self.remaining() - 1,
            next.guest_addr == self.guest_addr,
            next.output == self.output,
            self.stage matches LoadStage::Flush { guest_addr, .. } ==> final(trans).func() == old(
                trans,
            ).func().call(
                old(trans).symbols.mmu.loader(translator::type_of_size(self.output.size)),
                seq![old(trans).vm_ptr.0, guest_addr],
            ),
    {
        let stage: LoadStage = match (self.stage, reply) {
            (LoadStage::Interpret, _) => {
                // Check for memory exceptions.
                LoadStage::ExitInterpreter
            },
            (LoadStage::ReadAddress, Reply::Value(guest_addr)) => {
                let size: u8 = self.output.size;
                let success: Option<Block> = if is_unaligned(self.guest_addr, size) {
                    None
                } else {
                    Some(load_inline(trans, self.guest_addr, guest_addr, size))
                };
                LoadStage::Flush { guest_addr, success }
            },
            (LoadStage::Flush { guest_addr, success }, _) => {
                let value: Value = load_fallback(trans, self.output, guest_addr);
                LoadStage::Exit { value, success }
            },
            (LoadStage::Exit { value, success }, Reply::Block(block)) => {
                clif::set_cold_block(&mut trans.builder, block);
                match success {
                    Some(success) => {
                        let args: Vec<Value> = vec![value];
                        assert(args@ =~= seq![value]);
                        join(trans, success, &args);
                        let params: Vec<Value> = clif::block_params(&trans.builder, success);
                        LoadStage::Write { value: params[0] }
                    },
                    None => LoadStage::Write { value },
                }
            },
            _ => LoadStage::Finished,
        };
        LoadRam { guest_addr: self.guest_addr, output: self.output, stage }
    }
}

/// Whether `guest_addr` is a constant that is not a multiple of `size`.
fn is_unaligned(guest_addr: pcode::Value, size: u8) -> (r: bool)
    requires
        translator::native_size(size),
    ensures
        r == is_unaligned_const(guest_addr, size),
{
    match guest_addr {
        pcode::Value::Const(addr, _) => !is_aligned(addr, size),
        pcode::Value::Var(_) => false,
    }
}

/// Generate code for loading a value with a function of the emulator.
pub fn load_fallback(trans: &mut Translator<'_>, output: VarNode, guest_addr: Value) -> (value:
    Value)
    requires
        translator::native_size(output.size),
        old(trans).wf(),
        old(trans).func().room(2),
        old(trans).func().has_type(guest_addr, Type::I64),
    ensures
        final(trans).func() == old(trans).func().call(
            old(trans).symbols.mmu.loader(translator::type_of_size(output.size)),
            seq![old(trans).vm_ptr.0, guest_addr],
        ),
        value == old(trans).func().next_value(),
        final(trans).same_but_func(old(trans)),
        old(trans).func().grows_to(final(trans).func(), 1),
        final(trans).func().has_type(value, translator::type_of_size(output.size)),
{
    let func: FuncRef = trans.symbols.mmu.load(output.size);
    let args: Vec<Value> = vec![trans.vm_ptr.0, guest_addr];
    assert(args@ =~= seq![trans.vm_ptr.0, guest_addr]);
    let call: InstRef = clif::call(&mut trans.builder, func, &args);
    let results: Vec<Value> = clif::inst_results(&trans.builder, call);
    results[0]
}

/// Generate code for loading a value where that needs no help of the emulator. Goes on in the block
/// of the slow path; the result is the block in which the load ends.
pub fn load_inline(
    trans: &mut Translator<'_>,
    guest_addr: pcode::Value,
    guest_addr_val: Value,
    size: u8,
) -> (success_block: Block)
    requires
        translator::native_size(size),
        size == 16 ==> old(trans).ctx.endianness is Little,
        old(trans).wf(),
        old(trans).func().room(56),
        old(trans).func().has_type(guest_addr_val, Type::I64),
    ensures
        success_block == old(trans).func().next_block(),
        final(trans).func() == old(trans).func().load_inline(
            old(trans).layout,
            old(trans).tlb_ptr,
            old(trans).ctx.endianness,
            guest_addr,
            guest_addr_val,
            translator::type_of_size(size),
        ),
        final(trans).same_but_func(old(trans)),
        old(trans).func().grows_to(final(trans).func(), 56),
        is_join(final(trans).func(), success_block, seq![translator::type_of_size(size)]),
{
    let ty: Type = sized_int(size);
    let success_block: Block = clif::create_block(&mut trans.builder);
    clif::append_block_param(&mut trans.builder, success_block, ty);

    let fallback_block: Block = clif::create_block(&mut trans.builder);
    clif::set_cold_block(&mut trans.builder, fallback_block);
    let ghost f = trans.func();
    assert(f == old(trans).func().load_blocks(ty));
    assert(trans.wf());

    let host_addr: Value = try_inline_access(
        trans,
        guest_addr,
        guest_addr_val,
        size,
        AccessKind::Load,
        fallback_block,
    );
    let ghost g = trans.func();

    // inline access (fallthrough):
    let value: Value = load_host(trans, host_addr, size);
    let ghost h = trans.func();
    proof {
        ir::lemma_grows_trans(f, g, h, 26, 25);
    }
    let args: Vec<Value> = vec![value];
    assert(args@ =~= seq![value]);
    clif::jump(&mut trans.builder, success_block, &args);

    // fallback:
    clif::switch_to_block(&mut trans.builder, fallback_block);
    clif::seal_block(&mut trans.builder, fallback_block);
    success_block
}

/// Ends the slow path in `success`, to which the inline path leads too, and goes on there.
fn join(trans: &mut Translator<'_>, success: Block, args: &Vec<Value>)
    requires
        old(trans).func().open(),
        old(trans).func().room(1),
        old(trans).func().is_block(success),
        old(trans).func().here() != success,
        !(old(trans).func().body(success).status is Filled),
        !old(trans).func().body(success).sealed,
        !old(trans).func().body(success).pending,
        old(trans).func().are_values(args@),
        args@.len() <= 4,
    ensures
        final(trans).func() == old(trans).func().join(success, args@),
        final(trans).same_but_func(old(trans)),
{
    clif::jump(&mut trans.builder, success, args);
    clif::switch_to_block(&mut trans.builder, success);
    clif::seal_block(&mut trans.builder, success);
}

/// How far the translation of a store has come.
#[derive(Clone, Copy, Debug, PartialEq, Eq, Structural)]
pub enum StoreStage {
    /// The store is left to the interpreter.
    Interpret,
    /// The interpreter may have raised an exception.
    ExitInterpreter,
    /// The address is read.
    ReadAddress,
    /// The integer is read.
    ReadValue { guest_addr: Value },
    /// The slow path starts.
    Flush { guest_addr: Value, value: Value, success: Option<Block> },
    /// The slow path has stored the integer.
    Exit { success: Option<Block> },
    Finished,
}

/// The translation of a store.
#[derive(Clone, Copy, Debug, PartialEq, Eq, Structural)]
pub struct StoreRam {
    pub guest_addr: pcode::Value,
    pub value: pcode::Value,
    pub stage: StoreStage,
}

/// Generate code for storing a value to RAM: starts the translation.
pub fn store_ram(trans: &Translator<'_>, guest_addr: pcode::Value, value: pcode::Value) -> (store:
    StoreRam)
    ensures
        store.guest_addr == guest_addr,
        store.value == value,
        store.stage is ReadAddress <==> !trans.ctx.disable_jit_mem && (value.bytes() == 1
            || value.bytes() == 2 || value.bytes() == 4 || value.bytes() == 8 || value.bytes() == 16),
        store.stage == (if !translator::native_size(value.bytes()) || trans.ctx.disable_jit_mem {
            StoreStage::Interpret
        } else {
            StoreStage::ReadAddress
        }),
{
    let size: u8 = value.size();
    let stage: StoreStage = if !is_native_size(size) || trans.ctx.disable_jit_mem {
        StoreStage::Interpret
    } else {
        StoreStage::ReadAddress
    };
    StoreRam { guest_addr, value, stage }
}

impl StoreRam {
    /// The type of the stored integer.
    pub open spec fn ty(self) -> Type {
        translator::type_of_size(self.value.bytes())
    }

    /// The work that is asked for.
    pub open spec fn wanted(self) -> Request {
        match self.stage {
            StoreStage::Interpret => Request::Interpret(
                Instruction {
                    output: None,
                    op: pcode::Op::Store(RAM_SPACE),
                    inputs: pcode::Inputs::Two(self.guest_addr, self.value),
                },
            ),
            StoreStage::ExitInterpreter => Request::MaybeExitJit,
            StoreStage::ReadAddress => Request::ReadZxt(self.guest_addr, ADDRESS_SIZE),
            StoreStage::ReadValue { .. } => Request::ReadInt(self.value),
            StoreStage::Flush { .. } => Request::FlushCurrentPc,
            StoreStage::Exit { .. } => Request::MaybeExitJit,
            StoreStage::Finished => Request::Finished,
        }
    }

    /// The number of replies until the translation is complete.
    pub open spec fn remaining(self) -> nat {
        match self.stage {
            StoreStage::Interpret => 2,
            StoreStage::ExitInterpreter => 1,
            StoreStage::ReadAddress => 4,
            StoreStage::ReadValue { .. } => 3,
            StoreStage::Flush { .. } => 2,
            StoreStage::Exit { .. } => 1,
            StoreStage::Finished => 0,
        }
    }

    /// Whether the function that is being built has what the stage refers to.
    pub open spec fn is_valid(self, f: Func) -> bool {
        match self.stage {
            StoreStage::ReadAddress => translator::native_size(self.value.bytes()),
            StoreStage::ReadValue { guest_addr } => {
                &&& translator::native_size(self.value.bytes())
                &&& f.has_type(guest_addr, Type::I64)
            },
            StoreStage::Flush { guest_addr, value, success } => {
                &&& translator::native_size(self.value.bytes())
                &&& f.has_type(guest_addr, Type::I64)
                &&& f.has_type(value, self.ty())
                &&& success is Some ==> is_join(f, success->0, seq![])
            },
            StoreStage::Exit { success } => success is Some ==> is_join(f, success->0, seq![]),
            _ => true,
        }
    }

    /// Whether the translation can go on with `reply`. Swapping the bytes of an integer of 128 bits
    /// is not supported.
    pub open spec fn can_resume(self, trans: &Translator<'_>, reply: Reply) -> bool {
        &&& self.wanted().is_answered_by(reply)
        &&& self.is_valid(trans.func())
        &&& match self.stage {
            StoreStage::ReadAddress => trans.func().has_type(reply->Value_0, Type::I64),
            StoreStage::ReadValue { .. } => {
                &&& trans.func().has_type(reply->Value_0, self.ty())
                &&& !is_unaligned_const(self.guest_addr, self.value.bytes()) ==> {
                    &&& trans.wf()
                    &&& trans.func().room(56)
                    &&& self.value.bytes() == 16 ==> trans.ctx.endianness is Little
                }
            },
            StoreStage::Flush { .. } => trans.wf() && trans.func().room(1),
            StoreStage::Exit { success } => {
                &&& success is Some ==> trans.func().open()
                &&& trans.func().room(1)
                &&& trans.func().is_block(reply->Block_0)
            },
            _ => true,
        }
    }

    /// The function and the translation after `reply`.
    pub open spec fn after(self, trans: &Translator<'_>, reply: Reply) -> (Func, StoreRam) {
        let f = trans.func();
        match self.stage {
            StoreStage::Interpret => (f, StoreRam { stage: StoreStage::ExitInterpreter, ..self }),
            StoreStage::ReadAddress => (
                f,
                StoreRam { stage: StoreStage::ReadValue { guest_addr: reply->Value_0 }, ..self },
            ),
            StoreStage::ReadValue { guest_addr } => {
                let value = reply->Value_0;
                if is_unaligned_const(self.guest_addr, self.value.bytes()) {
                    (
                        f,
                        StoreRam {
                            stage: StoreStage::Flush { guest_addr, value, success: None },
                            ..self
                        },
                    )
                } else {
                    (
                        f.store_inline(
                            trans.layout,
                            trans.tlb_ptr,
                            trans.ctx.endianness,
                            self.guest_addr,
                            guest_addr,
                            value,
                            self.ty(),
                        ),
                        StoreRam {
                            stage: StoreStage::Flush {
                                guest_addr,
                                value,
                                success: Some(f.next_block()),
                            },
                            ..self
                        },
                    )
                }
            },
            StoreStage::Flush { guest_addr, value, success } => (
                f.call(
                    trans.symbols.mmu.storer(self.ty()),
                    seq![trans.vm_ptr.0, guest_addr, value],
                ),
                StoreRam { stage: StoreStage::Exit { success }, ..self },
            ),
            StoreStage::Exit { success } => {
                let g = f.set_cold(reply->Block_0);
                match success {
                    Some(success) => (
                        g.join(success, seq![]),
                        StoreRam { stage: StoreStage::Finished, ..self },
                    ),
                    None => (g, StoreRam { stage: StoreStage::Finished, ..self }),
                }
            },
            _ => (f, StoreRam { stage: StoreStage::Finished, ..self }),
        }
    }

    /// The work that is asked for.
    pub fn request(&self) -> (request: Request)
        ensures
            request == self.wanted(),
            request is Finished <==> self.remaining() == 0,
            self.stage is ReadAddress ==> request == Request::ReadZxt(self.guest_addr, 8),
            self.stage is ReadValue ==> request == Request::ReadInt(self.value),
    {
        match self.stage {
            StoreStage::Interpret => Request::Interpret(
                Instruction {
                    output: None,
                    op: pcode::Op::Store(RAM_SPACE),
                    inputs: pcode::Inputs::Two(self.guest_addr, self.value),
                },
            ),
            StoreStage::ExitInterpreter => Request::MaybeExitJit,
            StoreStage::ReadAddress => Request::ReadZxt(self.guest_addr, ADDRESS_SIZE),
            StoreStage::ReadValue { .. } => Request::ReadInt(self.value),
            StoreStage::Flush { .. } => Request::FlushCurrentPc,
            StoreStage::Exit { .. } => Request::MaybeExitJit,
            StoreStage::Finished => Request::Finished,
        }
    }

    /// Goes on with the translation.
    pub fn resume(self, trans: &mut Translator<'_>, reply: Reply) -> (next: StoreRam)
        requires
            self.can_resume(old(trans), reply),
        ensures
            (final(trans).func(), next) == self.after(old(trans), reply),
            final(trans).same_but_func(old(trans)),
            next.is_valid(final(trans).func()),
            next.remaining() == self.remaining() - 1,
            next.guest_addr == self.guest_addr,
            next.value == self.value,
            self.stage matches StoreStage::Flush { guest_addr, value, .. } ==> final(trans).func()
                == old(trans).func().call(
                old(trans).symbols.mmu.storer(translator::type_of_size(self.value.bytes())),
                seq![old(trans).vm_ptr.0, guest_addr, value],
            ),
    {
        let size: u8 = self.value.size();
        let stage: StoreStage = match (self.stage, reply) {
            (StoreStage::Interpret, _) => {
                // Check for memory exceptions.
                StoreStage::ExitInterpreter
            },
            (StoreStage::ReadAddress, Reply::Value(guest_addr)) => StoreStage::ReadValue {
                guest_addr,
            },
            (StoreStage::ReadValue { guest_addr }, Reply::Value(value)) => {
                let success: Option<Block> = if is_unaligned(self.guest_addr, size) {
                    None
                } else {
                    Some(store_inline(trans, self.guest_addr, guest_addr, value, size))
                };
                StoreStage::Flush { guest_addr, value, success }
            },
            (StoreStage::Flush { guest_addr, value, success }, _) => {
                store_fallback(trans, size, guest_addr, value);
                StoreStage::Exit { success }
            },
            (StoreStage::Exit { success }, Reply::Block(block)) => {
                clif::set_cold_block(&mut trans.builder, block);
                if let Some(success) = success {
                    let args: Vec<Value> = Vec::new();
                    assert(args@ =~= seq![]);
                    join(trans, success, &args);
                }
                StoreStage::Finished
            },
            _ => StoreStage::Finished,
        };
        StoreRam { guest_addr: self.guest_addr, value: self.value, stage }
    }
}

/// Handle complex stores using a function provided by the runtime.
pub fn store_fallback(trans: &mut Translator<'_>, size: u8, guest_addr: Value, value: Value)
    requires
        translator::native_size(size),
        old(trans).wf(),
        old(trans).func().room(1),
        old(trans).func().has_type(guest_addr, Type::I64),
        old(trans).func().has_type(value, translator::type_of_size(size)),
    ensures
        final(trans).func() == old(trans).func().call(
            old(trans).symbols.mmu.storer(translator::type_of_size(size)),
            seq![old(trans).vm_ptr.0, guest_addr, value],
        ),
        final(trans).same_but_func(old(trans)),
        old(trans).func().grows_to(final(trans).func(), 1),
{
    let func: FuncRef = trans.symbols.mmu.store(size);
    let args: Vec<Value> = vec![trans.vm_ptr.0, guest_addr, value];
    assert(args@ =~= seq![trans.vm_ptr.0, guest_addr, value]);
    clif::call(&mut trans.builder, func, &args);
}

/// Generate code for storing a value where that needs no help of the emulator. Goes on in the block
/// of the slow path; the result is the block in which the store ends.
pub fn store_inline(
    trans: &mut Translator<'_>,
    guest_addr: pcode::Value,
    guest_addr_val: Value,
    value: Value,
    size: u8,
) -> (success_block: Block)
    requires
        translator::native_size(size),
        size == 16 ==> old(trans).ctx.endianness is Little,
        old(trans).wf(),
        old(trans).func().room(56),
        old(trans).func().has_type(guest_addr_val, Type::I64),
        old(trans).func().has_type(value, translator::type_of_size(size)),
    ensures
        success_block == old(trans).func().next_block(),
        final(trans).func() == old(trans).func().store_inline(
            old(trans).layout,
            old(trans).tlb_ptr,
            old(trans).ctx.endianness,
            guest_addr,
            guest_addr_val,
            value,
            translator::type_of_size(size),
        ),
        final(trans).same_but_func(old(trans)),
        old(trans).func().grows_to(final(trans).func(), 56),
        is_join(final(trans).func(), success_block, seq![]),
{
    let success_block: Block = clif::create_block(&mut trans.builder);
    let fallback_block: Block = clif::create_block(&mut trans.builder);
    clif::set_cold_block(&mut trans.builder, fallback_block);
    let ghost f = trans.func();
    assert(f == old(trans).func().store_blocks());

    let host_addr: Value = try_inline_access(
        trans,
        guest_addr,
        guest_addr_val,
        size,
        AccessKind::Store,
        fallback_block,
    );
    let ghost g = trans.func();

    // inline access (fallthrough):
    store_host(trans, host_addr, value, size);
    proof {
        ir::lemma_grows_trans(f, g, trans.func(), 26, 25);
    }
    let args: Vec<Value> = Vec::new();
    assert(args@ =~= seq![]);
    clif::jump(&mut trans.builder, success_block, &args);

    // fallback:
    clif::switch_to_block(&mut trans.builder, fallback_block);
    clif::seal_block(&mut trans.builder, fallback_block);
    success_block
}

} // verus!
