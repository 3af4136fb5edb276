//! The integer part of Cranelift's intermediate representation as plain values, and a model of a
//! function that is being built.

use vstd::prelude::*;

verus! {

/// How many values, instructions and blocks a function under construction may hold. Cranelift
/// numbers each of them with 32 bits and keeps their operands in pools indexed by 32 bits. Its layout
/// also numbers the blocks and the instructions together, with 32 bits and in steps of ten.
pub const ENTITY_LIMIT: u32 = 0x0800_0000;

/// An integer type.
#[derive(Clone, Copy, Debug, PartialEq, Eq, Structural)]
pub enum Type {
    I8,
    I16,
    I32,
    I64,
    I128,
}

/// A value of the function that is being built, by its number.
#[derive(Clone, Copy, Debug, PartialEq, Eq, Structural)]
pub struct Value {
    pub index: u32,
}

/// A block of the function that is being built, by its number.
#[derive(Clone, Copy, Debug, PartialEq, Eq, Structural)]
pub struct Block {
    pub index: u32,
}

/// A function that can be called from the one that is being built, by its number.
#[derive(Clone, Copy, Debug, PartialEq, Eq, Structural)]
pub struct FuncRef {
    pub index: u32,
}

/// An instruction of the function that is being built, by its number.
#[derive(Clone, Copy, Debug, PartialEq, Eq, Structural)]
pub struct InstRef {
    pub index: u32,
}

/// The order of the bytes of an integer in memory.
#[derive(Clone, Copy, Debug, PartialEq, Eq, Structural)]
pub enum Endianness {
    Little,
    Big,
}

/// A condition on two integers.
#[derive(Clone, Copy, Debug, PartialEq, Eq, Structural)]
pub enum IntCC {
    Equal,
    NotEqual,
}

/// A flag of a memory access.
#[derive(Clone, Copy, Debug, PartialEq, Eq, Structural)]
pub enum MemFlag {
    Notrap,
    Aligned,
    Readonly,
    LittleEndian,
    BigEndian,
    Heap,
    Table,
    Vmctx,
}

impl Type {
    /// The number of bytes that an integer of this type takes.
    pub open spec fn size(self) -> nat {
        match self {
            Type::I8 => 1,
            Type::I16 => 2,
            Type::I32 => 4,
            Type::I64 => 8,
            Type::I128 => 16,
        }
    }

    /// The number of bytes that an integer of this type takes.
    pub fn bytes(self) -> (n: u32)
        ensures
            n == self.size(),
    {
        match self {
            Type::I8 => 1,
            Type::I16 => 2,
            Type::I32 => 4,
            Type::I64 => 8,
            Type::I128 => 16,
        }
    }
}

/// An operation, with its operands. Where Cranelift infers the type that an operation works on
/// from its first operand, that type is `ty` here.
pub enum Op {
    Iconst { ty: Type, imm: i64 },
    BandImm { ty: Type, x: Value, imm: i64 },
    UshrImm { ty: Type, x: Value, imm: i64 },
    IshlImm { ty: Type, x: Value, imm: i64 },
    Iadd { ty: Type, x: Value, y: Value },
    Band { ty: Type, x: Value, y: Value },
    Bor { ty: Type, x: Value, y: Value },
    Iconcat { lo: Value, hi: Value },
    Load { ty: Type, flags: Set<MemFlag>, addr: Value, offset: i32 },
    Store { ty: Type, flags: Set<MemFlag>, value: Value, addr: Value, offset: i32 },
    Brnz { cond: Value, target: Block, args: Seq<Value> },
    /// Branches where two integers meet a condition.
    BrInt { cc: IntCC, x: Value, y: Value, target: Block, args: Seq<Value> },
    Jump { target: Block, args: Seq<Value> },
    Call { func: FuncRef, args: Seq<Value> },
    /// Any operation that this library does not build.
    Other,
}

/// An instruction: an operation and the values that it defines.
#[verifier::ext_equal]
pub struct Inst {
    pub op: Op,
    pub results: Seq<Value>,
}

/// How far a block is built.
pub enum BlockStatus {
    /// Nothing has been added to it.
    Empty,
    /// Something has been added to it, but no terminator.
    Partial,
    /// It ends in a terminator, and nothing more can be added.
    Filled,
}

/// What a block holds.
#[verifier::ext_equal]
pub struct BlockBody {
    pub params: Seq<Value>,
    pub insts: Seq<Inst>,
    pub status: BlockStatus,
    /// Whether it lies off the ordinary path of execution.
    pub cold: bool,
    /// Whether all of the branches to it have been built.
    pub sealed: bool,
    /// Whether some variable was read in it whose definition is looked up when it is sealed.
    pub pending: bool,
}

impl BlockBody {
    /// A block that has just been created.
    pub open spec fn fresh() -> BlockBody {
        BlockBody {
            params: seq![],
            insts: seq![],
            status: BlockStatus::Empty,
            cold: false,
            sealed: false,
            pending: false,
        }
    }

    /// Whether `other` is this block with instructions added at its end.
    pub open spec fn grows_to(self, other: BlockBody) -> bool {
        &&& self.params == other.params
        &&& self.cold == other.cold
        &&& self.sealed == other.sealed
        &&& self.pending == other.pending
        &&& self.insts.len() <= other.insts.len()
        &&& forall|i: int| 0 <= i < self.insts.len() ==> #[trigger] other.insts[i] == self.insts[i]
    }
}

/// The types of what a callable function takes and returns; `None` stands for a type that is not
/// an integer type.
#[verifier::ext_equal]
pub struct Signature {
    pub params: Seq<Option<Type>>,
    pub returns: Seq<Option<Type>>,
}

/// A function that is being built.
#[verifier::ext_equal]
pub struct Func {
    /// The type of each value, by its number; `None` where it is not an integer type.
    pub values: Seq<Option<Type>>,
    /// The values that each instruction defines, by the instruction's number.
    pub results: Seq<Seq<Value>>,
    /// Each block, by its number.
    pub blocks: Seq<BlockBody>,
    /// The block that instructions are added to.
    pub cursor: Option<Block>,
    /// The signature of each callable function, by its number.
    pub imports: Seq<Signature>,
}

impl Func {
    /// Whether `v` is a value of type `ty`.
    pub open spec fn has_type(self, v: Value, ty: Type) -> bool {
        v.index < self.values.len() && self.values[v.index as int] == Some(ty)
    }

    /// Whether `v` is a value of some integer type.
    pub open spec fn is_int(self, v: Value) -> bool {
        v.index < self.values.len() && self.values[v.index as int] is Some
    }

    /// The integer type of `v`.
    pub open spec fn int_type(self, v: Value) -> Type {
        self.values[v.index as int]->0
    }

    /// Whether each of `args` is a value.
    pub open spec fn are_values(self, args: Seq<Value>) -> bool {
        forall|i: int| 0 <= i < args.len() ==> (#[trigger] args[i]).index < self.values.len()
    }

    /// Whether `b` is a block.
    pub open spec fn is_block(self, b: Block) -> bool {
        b.index < self.blocks.len()
    }

    /// What `b` holds.
    pub open spec fn body(self, b: Block) -> BlockBody {
        self.blocks[b.index as int]
    }

    /// The block that instructions are added to.
    pub open spec fn here(self) -> Block {
        self.cursor->0
    }

    /// Whether an instruction can be added.
    pub open spec fn open(self) -> bool {
        &&& self.cursor is Some
        &&& self.is_block(self.here())
        &&& !(self.body(self.here()).status is Filled)
    }

    /// Whether a branch to `b` can still be built.
    pub open spec fn can_branch(self, b: Block) -> bool {
        self.is_block(b) && !self.body(b).sealed
    }

    /// Whether `n` more values, instructions and blocks fit.
    pub open spec fn room(self, n: nat) -> bool {
        &&& self.values.len() + n <= ENTITY_LIMIT
        &&& self.results.len() + n <= ENTITY_LIMIT
        &&& self.blocks.len() + n <= ENTITY_LIMIT
    }

    /// Whether `g` is this function with more code: values and blocks were added, and instructions
    /// were added to blocks. A block that is neither current nor new stays as it is.
    pub open spec fn extends_to(self, g: Func) -> bool {
        &&& self.values.len() <= g.values.len()
        &&& forall|i: int| 0 <= i < self.values.len() ==> #[trigger] g.values[i] == self.values[i]
        &&& self.results.len() <= g.results.len()
        &&& g.imports == self.imports
        &&& self.blocks.len() <= g.blocks.len()
        &&& forall|i: int|
            #![trigger g.blocks[i]]
            0 <= i < self.blocks.len() ==> {
                ||| g.blocks[i] == self.blocks[i]
                ||| {
                    &&& self.cursor is Some
                    &&& self.here().index == i
                    &&& self.blocks[i].grows_to(g.blocks[i])
                }
            }
    }

    /// Whether `g` is this function with more code, of no more than `n` values, instructions and
    /// blocks, and goes on in the current block or in a new one.
    pub open spec fn grows_to(self, g: Func, n: nat) -> bool {
        &&& self.extends_to(g)
        &&& g.open()
        &&& g.here() == self.here() || g.here().index >= self.blocks.len()
        &&& g.values.len() <= self.values.len() + n
        &&& g.results.len() <= self.results.len() + n
        &&& g.blocks.len() <= self.blocks.len() + n
    }

    /// The number that the next value will have.
    pub open spec fn next_value(self) -> Value {
        Value { index: self.values.len() as u32 }
    }

    /// The number that the next block will have.
    pub open spec fn next_block(self) -> Block {
        Block { index: self.blocks.len() as u32 }
    }

    /// The number that the next instruction will have.
    pub open spec fn next_inst(self) -> InstRef {
        InstRef { index: self.results.len() as u32 }
    }

    /// The function in which `b` holds `body`.
    pub open spec fn with_body(self, b: Block, body: BlockBody) -> Func {
        Func { blocks: self.blocks.update(b.index as int, body), ..self }
    }

    /// The current block with one more instruction.
    pub open spec fn grown_body(self, inst: Inst) -> BlockBody {
        let body = self.body(self.here());
        BlockBody {
            insts: body.insts.push(inst),
            status: if inst.op is Jump {
                BlockStatus::Filled
            } else {
                BlockStatus::Partial
            },
            ..body
        }
    }

    /// Adds an instruction that defines one value of type `ty`.
    pub open spec fn define(self, op: Op, ty: Type) -> Func {
        let results = seq![self.next_value()];
        Func {
            values: self.values.push(Some(ty)),
            results: self.results.push(results),
            blocks: self.blocks.update(
                self.here().index as int,
                self.grown_body(Inst { op, results }),
            ),
            ..self
        }
    }

    /// Adds an instruction that defines no value.
    pub open spec fn effect(self, op: Op) -> Func {
        let results = seq![];
        Func {
            results: self.results.push(results),
            blocks: self.blocks.update(
                self.here().index as int,
                self.grown_body(Inst { op, results }),
            ),
            ..self
        }
    }

    /// The values that a call of `func` defines.
    pub open spec fn call_results(self, func: FuncRef) -> Seq<Value> {
        Seq::new(
            self.imports[func.index as int].returns.len(),
            |i: int| Value { index: (self.values.len() + i) as u32 },
        )
    }

    /// Adds a call of `func`, which defines one value for each value that `func` returns.
    pub open spec fn call(self, func: FuncRef, args: Seq<Value>) -> Func {
        let results = self.call_results(func);
        Func {
            values: self.values + self.imports[func.index as int].returns,
            results: self.results.push(results),
            blocks: self.blocks.update(
                self.here().index as int,
                self.grown_body(Inst { op: Op::Call { func, args }, results }),
            ),
            ..self
        }
    }

    /// Adds a block.
    pub open spec fn new_block(self) -> Func {
        Func { blocks: self.blocks.push(BlockBody::fresh()), ..self }
    }

    /// Adds a parameter of type `ty` to `b`.
    pub open spec fn new_param(self, b: Block, ty: Type) -> Func {
        let body = self.body(b);
        Func {
            values: self.values.push(Some(ty)),
            blocks: self.blocks.update(
                b.index as int,
                BlockBody { params: body.params.push(self.next_value()), ..body },
            ),
            ..self
        }
    }

    /// Marks `b` as lying off the ordinary path of execution.
    pub open spec fn set_cold(self, b: Block) -> Func {
        self.with_body(b, BlockBody { cold: true, ..self.body(b) })
    }

    /// Whether the cursor can move to `b`: the block that it leaves is either untouched or
    /// complete, and `b` is not complete.
    pub open spec fn can_switch(self, b: Block) -> bool {
        &&& self.is_block(b)
        &&& !(self.body(b).status is Filled)
        &&& self.cursor is Some ==> self.is_block(self.here()) && !(self.body(
            self.here(),
        ).status is Partial)
    }

    /// Moves the cursor to `b`.
    pub open spec fn switch_to(self, b: Block) -> Func {
        Func { cursor: Some(b), ..self }
    }

    /// Whether `b` can be sealed, and sealing it changes nothing else.
    pub open spec fn can_seal(self, b: Block) -> bool {
        self.is_block(b) && !self.body(b).sealed && !self.body(b).pending
    }

    /// Declares that all of the branches to `b` have been built.
    pub open spec fn seal(self, b: Block) -> Func {
        self.with_body(b, BlockBody { sealed: true, ..self.body(b) })
    }

    /// Whether a call of `func` with `args` agrees with the signature of `func`.
    pub open spec fn can_call(self, func: FuncRef, args: Seq<Value>) -> bool {
        &&& func.index < self.imports.len()
        &&& args.len() == self.imports[func.index as int].params.len()
        &&& forall|i: int|
            0 <= i < args.len() ==> (#[trigger] args[i]).index < self.values.len()
                && self.values[args[i].index as int] == self.imports[func.index as int].params[i]
    }
}

/// Growth is reflexive.
pub proof fn lemma_grows_refl(f: Func)
    requires
        f.open(),
    ensures
        f.grows_to(f, 0),
{
}

/// Growth is transitive.
pub proof fn lemma_grows_trans(f: Func, g: Func, h: Func, n: nat, m: nat)
    requires
        f.open(),
        f.grows_to(g, n),
        g.grows_to(h, m),
    ensures
        f.grows_to(h, n + m),
{
    assert forall|i: int| 0 <= i < f.values.len() implies #[trigger] h.values[i] == f.values[i] by {
        assert(g.values[i] == f.values[i]);
    }
    assert forall|i: int| 0 <= i < f.blocks.len() implies {
        ||| #[trigger] h.blocks[i] == f.blocks[i]
        ||| f.cursor is Some && f.here().index == i && f.blocks[i].grows_to(h.blocks[i])
    } by {
        let body = g.blocks[i];
        if f.here().index == i && h.blocks[i] != f.blocks[i] {
            assert(f.blocks[i].grows_to(body));
            assert(body.grows_to(h.blocks[i]));
            assert forall|j: int| 0 <= j < f.blocks[i].insts.len() implies #[trigger] h.blocks[i].insts[j]
                == f.blocks[i].insts[j] by {
                assert(body.insts[j] == f.blocks[i].insts[j]);
            }
        }
    }
}

/// An instruction that defines a value grows the function by one value.
pub proof fn lemma_define_grows(f: Func, op: Op, ty: Type)
    requires
        f.open(),
        f.room(1),
        !(op is Jump),
    ensures
        f.grows_to(f.define(op, ty), 1),
        f.define(op, ty).has_type(f.next_value(), ty),
{
}

/// An instruction that defines no value and is no terminator grows the function.
pub proof fn lemma_effect_grows(f: Func, op: Op)
    requires
        f.open(),
        !(op is Jump),
    ensures
        f.grows_to(f.effect(op), 1),
{
}

} // verus!
