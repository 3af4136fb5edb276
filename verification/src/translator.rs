//! What the compiler of guest code keeps while it builds a function.

use crate::clif;
use crate::ir::{Block, Endianness, Func, FuncRef, Signature, Type, Value};
use crate::layout::MemLayout;
use cranelift::prelude::FunctionBuilder;
use vstd::prelude::*;

verus! {

/// The sizes of the integers that the generated code can hold in one value.
pub open spec fn native_size(size: u8) -> bool {
    size == 1 || size == 2 || size == 4 || size == 8 || size == 16
}

/// The integer type of `size` bytes.
pub open spec fn type_of_size(size: u8) -> Type {
    if size == 1 {
        Type::I8
    } else if size == 2 {
        Type::I16
    } else if size == 4 {
        Type::I32
    } else if size == 8 {
        Type::I64
    } else {
        Type::I128
    }
}

/// Whether the generated code can hold an integer of `size` bytes in one value.
pub fn is_native_size(size: u8) -> (r: bool)
    ensures
        r == native_size(size),
{
    size == 1 || size == 2 || size == 4 || size == 8 || size == 16
}

/// The integer type of `size` bytes.
pub fn sized_int(size: u8) -> (ty: Type)
    requires
        native_size(size),
    ensures
        ty == type_of_size(size),
        ty.size() == size,
{
    match size {
        1 => Type::I8,
        2 => Type::I16,
        4 => Type::I32,
        8 => Type::I64,
        _ => Type::I128,
    }
}

/// The settings of a translation.
#[derive(Clone, Copy, Debug, PartialEq, Eq, Structural)]
pub struct TranslatorCtx {
    /// The byte order of the guest.
    pub endianness: Endianness,
    /// Whether every memory access is left to the interpreter.
    pub disable_jit_mem: bool,
}

/// The value that points to the emulator.
#[derive(Clone, Copy, Debug, PartialEq, Eq, Structural)]
pub struct VmPtr(pub Value);

/// The functions of the emulator that access guest memory, one for each native size.
#[derive(Clone, Copy, Debug, PartialEq, Eq, Structural)]
pub struct MmuSymbols {
    pub load8: FuncRef,
    pub load16: FuncRef,
    pub load32: FuncRef,
    pub load64: FuncRef,
    pub load128: FuncRef,
    pub store8: FuncRef,
    pub store16: FuncRef,
    pub store32: FuncRef,
    pub store64: FuncRef,
    pub store128: FuncRef,
}

impl MmuSymbols {
    /// The function that loads an integer of type `ty`.
    pub open spec fn loader(self, ty: Type) -> FuncRef {
        match ty {
            Type::I8 => self.load8,
            Type::I16 => self.load16,
            Type::I32 => self.load32,
            Type::I64 => self.load64,
            Type::I128 => self.load128,
        }
    }

    /// The function that stores an integer of type `ty`.
    pub open spec fn storer(self, ty: Type) -> FuncRef {
        match ty {
            Type::I8 => self.store8,
            Type::I16 => self.store16,
            Type::I32 => self.store32,
            Type::I64 => self.store64,
            Type::I128 => self.store128,
        }
    }

    /// The function that loads an integer of `size` bytes.
    pub fn load(&self, size: u8) -> (func: FuncRef)
        requires
            native_size(size),
        ensures
            func == self.loader(type_of_size(size)),
    {
        match size {
            1 => self.load8,
            2 => self.load16,
            4 => self.load32,
            8 => self.load64,
            _ => self.load128,
        }
    }

    /// The function that stores an integer of `size` bytes.
    pub fn store(&self, size: u8) -> (func: FuncRef)
        requires
            native_size(size),
        ensures
            func == self.storer(type_of_size(size)),
    {
        match size {
            1 => self.store8,
            2 => self.store16,
            4 => self.store32,
            8 => self.store64,
            _ => self.store128,
        }
    }

    /// Whether `f` can call the functions: a loader takes the emulator and an address and returns
    /// the integer, and a storer takes the emulator, an address and the integer.
    pub open spec fn declared_in(self, f: Func) -> bool {
        forall|ty: Type|
            #![trigger self.loader(ty)]
            #![trigger self.storer(ty)]
            {
                &&& self.loader(ty).index < f.imports.len()
                &&& self.loader(ty).index < crate::ir::ENTITY_LIMIT
                &&& f.imports[self.loader(ty).index as int] == (Signature {
                    params: seq![Some(Type::I64), Some(Type::I64)],
                    returns: seq![Some(ty)],
                })
                &&& self.storer(ty).index < f.imports.len()
                &&& self.storer(ty).index < crate::ir::ENTITY_LIMIT
                &&& f.imports[self.storer(ty).index as int] == (Signature {
                    params: seq![Some(Type::I64), Some(Type::I64), Some(ty)],
                    returns: seq![],
                })
            }
    }
}

/// The functions that the generated code calls.
#[derive(Clone, Copy, Debug, PartialEq, Eq, Structural)]
pub struct Symbols {
    pub mmu: MmuSymbols,
}

/// A translation in progress.
pub struct Translator<'a> {
    pub builder: FunctionBuilder<'a>,
    pub ctx: TranslatorCtx,
    pub vm_ptr: VmPtr,
    /// The value that points to the translation cache.
    pub tlb_ptr: Value,
    pub symbols: Symbols,
    pub layout: MemLayout,
}

impl<'a> Translator<'a> {
    /// The function that is being built.
    pub open spec fn func(&self) -> Func {
        clif::func_of(self.builder)
    }

    /// The translations that memory accesses can be generated in: an instruction can be added, and
    /// what the accesses refer to is there.
    pub open spec fn wf(&self) -> bool {
        &&& self.layout.wf()
        &&& self.func().open()
        &&& self.func().has_type(self.vm_ptr.0, Type::I64)
        &&& self.func().has_type(self.tlb_ptr, Type::I64)
        &&& self.symbols.mmu.declared_in(self.func())
    }

    /// Whether the two differ in the function that is being built at most.
    pub open spec fn same_but_func(&self, other: &Translator<'a>) -> bool {
        &&& self.ctx == other.ctx
        &&& self.vm_ptr == other.vm_ptr
        &&& self.tlb_ptr == other.tlb_ptr
        &&& self.symbols == other.symbols
        &&& self.layout == other.layout
    }

    /// Jumps to a new block, which has no other predecessor, and goes on there.
    pub fn jump_next_block(&mut self) -> (next: Block)
        requires
            old(self).func().open(),
            old(self).func().room(2),
        ensures
            next == old(self).func().next_block(),
            final(self).func() == old(self).func().jump_next(),
            final(self).same_but_func(old(self)),
            old(self).func().grows_to(final(self).func(), 2),
    {
        let next: Block = clif::create_block(&mut self.builder);
        clif::jump(&mut self.builder, next, &Vec::new());
        clif::switch_to_block(&mut self.builder, next);
        clif::seal_block(&mut self.builder, next);
        next
    }
}

} // verus!
