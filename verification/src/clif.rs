//! The calls into Cranelift. Nothing in this file is proved: each contract says of one Cranelift
//! function what its documentation and source say, over the model of `ir`.

use crate::ir;
use crate::ir::{
    Block, BlockBody, Endianness, Func, FuncRef, InstRef, IntCC, MemFlag, Op, Signature, Type, Value,
};
use cranelift::prelude::{types, FunctionBuilder, InstBuilder, MemFlags};
use cranelift_codegen::ir as clif_ir;
use vstd::prelude::*;

verus! {

/// Cranelift's builder of one function.
#[verifier::external_type_specification]
#[verifier::external_body]
pub struct ExFunctionBuilder<'a>(FunctionBuilder<'a>);

/// Cranelift's set of flags of a memory access.
#[verifier::external_type_specification]
#[verifier::external_body]
pub struct ExMemFlags(MemFlags);

/// The type of each value that the builder's function holds, by the value's number; `None` for a
/// type that is not one of the integer types.
pub uninterp spec fn values_of(b: FunctionBuilder<'_>) -> Seq<Option<Type>>;

/// The values that each instruction of the builder's function defines, by the instruction's
/// number.
pub uninterp spec fn results_of(b: FunctionBuilder<'_>) -> Seq<Seq<Value>>;

/// The blocks of the builder's function, by the block's number.
pub uninterp spec fn blocks_of(b: FunctionBuilder<'_>) -> Seq<BlockBody>;

/// The block that the builder adds instructions to.
pub uninterp spec fn cursor_of(b: FunctionBuilder<'_>) -> Option<Block>;

/// The signatures of the functions that the builder's function can call, by their number.
pub uninterp spec fn imports_of(b: FunctionBuilder<'_>) -> Seq<Signature>;

/// The flags that are set.
pub uninterp spec fn flags_of(flags: MemFlags) -> Set<MemFlag>;

/// The function that a builder holds.
pub open spec fn func_of(b: FunctionBuilder<'_>) -> Func {
    Func {
        values: values_of(b),
        results: results_of(b),
        blocks: blocks_of(b),
        cursor: cursor_of(b),
        imports: imports_of(b),
    }
}

/// `MemFlags::trusted`: the access is known not to trap and to be aligned.
pub assume_specification[ MemFlags::trusted ]() -> (flags: MemFlags)
    ensures
        flags_of(flags) == set![MemFlag::Notrap, MemFlag::Aligned],
;

/// `MemFlags::with_vmctx`: adds the flag of the "vmctx" part of memory, which excludes the flags
/// of the other parts (the function panics where one of those is set).
pub assume_specification[ MemFlags::with_vmctx ](flags: MemFlags) -> (r: MemFlags)
    requires
        !flags_of(flags).contains(MemFlag::Heap),
        !flags_of(flags).contains(MemFlag::Table),
    ensures
        flags_of(r) == flags_of(flags).insert(MemFlag::Vmctx),
;

/// `MemFlags::with_heap`: adds the flag of the "heap" part of memory, which excludes the flags of
/// the other parts (the function panics where one of those is set).
pub assume_specification[ MemFlags::with_heap ](flags: MemFlags) -> (r: MemFlags)
    requires
        !flags_of(flags).contains(MemFlag::Table),
        !flags_of(flags).contains(MemFlag::Vmctx),
    ensures
        flags_of(r) == flags_of(flags).insert(MemFlag::Heap),
;

/// The flag of a byte order.
pub open spec fn endianness_flag(endianness: Endianness) -> MemFlag {
    match endianness {
        Endianness::Little => MemFlag::LittleEndian,
        Endianness::Big => MemFlag::BigEndian,
    }
}

/// `MemFlags::set_endianness`: adds the flag of the byte order. It panics where the other order's
/// flag is set.
#[verifier::external_body]
pub(crate) fn set_endianness(flags: &mut MemFlags, endianness: Endianness)
    requires
        !flags_of(*old(flags)).contains(MemFlag::LittleEndian),
        !flags_of(*old(flags)).contains(MemFlag::BigEndian),
    ensures
        flags_of(*final(flags)) == flags_of(*old(flags)).insert(endianness_flag(endianness)),
{
    flags.set_endianness(match endianness {
        Endianness::Little => clif_ir::Endianness::Little,
        Endianness::Big => clif_ir::Endianness::Big,
    });
}

/// `FunctionBuilder::create_block`: adds a block that is empty and not sealed. Blocks are numbered
/// in the order of their creation.
#[verifier::external_body]
pub(crate) fn create_block(b: &mut FunctionBuilder<'_>) -> (block: Block)
    requires
        func_of(*old(b)).room(1),
    ensures
        block == func_of(*old(b)).next_block(),
        blocks_of(*final(b)) == blocks_of(*old(b)).push(BlockBody::fresh()),
        values_of(*final(b)) == values_of(*old(b)),
        results_of(*final(b)) == results_of(*old(b)),
        cursor_of(*final(b)) == cursor_of(*old(b)),
        imports_of(*final(b)) == imports_of(*old(b)),
{
    Block { index: b.create_block().as_u32() }
}

/// `FunctionBuilder::append_block_param`: adds a parameter to a block that nothing has been added
/// to yet. Values are numbered in the order of their creation.
#[verifier::external_body]
pub(crate) fn append_block_param(b: &mut FunctionBuilder<'_>, block: Block, ty: Type) -> (v: Value)
    requires
        func_of(*old(b)).is_block(block),
        func_of(*old(b)).body(block).status is Empty,
        func_of(*old(b)).body(block).params.len() < 0xffff,
        func_of(*old(b)).room(1),
    ensures
        v == func_of(*old(b)).next_value(),
        func_of(*final(b)) == func_of(*old(b)).new_param(block, ty),
{
    let ty: clif_ir::Type = match ty {
        Type::I8 => types::I8,
        Type::I16 => types::I16,
        Type::I32 => types::I32,
        Type::I64 => types::I64,
        Type::I128 => types::I128,
    };
    Value { index: b.append_block_param(clif_ir::Block::from_u32(block.index), ty).as_u32() }
}

/// `FunctionBuilder::set_cold_block`: marks a block as lying off the ordinary path of execution.
#[verifier::external_body]
pub(crate) fn set_cold_block(b: &mut FunctionBuilder<'_>, block: Block)
    requires
        func_of(*old(b)).is_block(block),
        block.index < ir::ENTITY_LIMIT,
    ensures
        func_of(*final(b)) == func_of(*old(b)).set_cold(block),
{
    b.set_cold_block(clif_ir::Block::from_u32(block.index))
}

/// `FunctionBuilder::switch_to_block`: moves the cursor. The block that it leaves has to be
/// untouched or complete, and the block that it enters must not be complete.
#[verifier::external_body]
pub(crate) fn switch_to_block(b: &mut FunctionBuilder<'_>, block: Block)
    requires
        func_of(*old(b)).can_switch(block),
        block.index < ir::ENTITY_LIMIT,
    ensures
        func_of(*final(b)) == func_of(*old(b)).switch_to(block),
{
    b.switch_to_block(clif_ir::Block::from_u32(block.index))
}

/// `FunctionBuilder::seal_block`: declares that all of the branches to a block have been built.
/// Where no variable was read in the block before, that is all that it does.
#[verifier::external_body]
pub(crate) fn seal_block(b: &mut FunctionBuilder<'_>, block: Block)
    requires
        func_of(*old(b)).can_seal(block),
        block.index < ir::ENTITY_LIMIT,
    ensures
        func_of(*final(b)) == func_of(*old(b)).seal(block),
{
    b.seal_block(clif_ir::Block::from_u32(block.index))
}

/// `FunctionBuilder::block_params`: the parameters of a block, in order.
#[verifier::external_body]
pub(crate) fn block_params(b: &FunctionBuilder<'_>, block: Block) -> (params: Vec<Value>)
    requires
        func_of(*b).is_block(block),
        block.index < ir::ENTITY_LIMIT,
    ensures
        params@ == func_of(*b).body(block).params,
{
    let params = b.block_params(clif_ir::Block::from_u32(block.index));
    params.iter().map(|v| Value { index: v.as_u32() }).collect()
}

/// `FunctionBuilder::inst_results`: the values that an instruction defines, in order.
#[verifier::external_body]
pub(crate) fn inst_results(b: &FunctionBuilder<'_>, inst: InstRef) -> (results: Vec<Value>)
    requires
        inst.index < func_of(*b).results.len(),
        inst.index < ir::ENTITY_LIMIT,
    ensures
        results@ == func_of(*b).results[inst.index as int],
{
    let results = b.inst_results(clif_ir::Inst::from_u32(inst.index));
    results.iter().map(|v| Value { index: v.as_u32() }).collect()
}

/// `InstBuilder::iconst`: an integer constant. There is none of 128 bits.
#[verifier::external_body]
pub(crate) fn iconst(b: &mut FunctionBuilder<'_>, ty: Type, imm: i64) -> (v: Value)
    requires
        func_of(*old(b)).open(),
        func_of(*old(b)).room(1),
        !(ty is I128),
    ensures
        v == func_of(*old(b)).next_value(),
        func_of(*final(b)) == func_of(*old(b)).define(Op::Iconst { ty, imm }, ty),
{
    let ty: clif_ir::Type = match ty {
        Type::I8 => types::I8,
        Type::I16 => types::I16,
        Type::I32 => types::I32,
        Type::I64 => types::I64,
        Type::I128 => types::I128,
    };
    Value { index: b.ins().iconst(ty, imm).as_u32() }
}

/// `InstBuilder::band_imm`: the bitwise and with a constant. The result has the type of `x`.
#[verifier::external_body]
pub(crate) fn band_imm(b: &mut FunctionBuilder<'_>, x: Value, imm: i64) -> (v: Value)
    requires
        func_of(*old(b)).open(),
        func_of(*old(b)).room(1),
        func_of(*old(b)).is_int(x),
    ensures
        v == func_of(*old(b)).next_value(),
        func_of(*final(b)) == func_of(*old(b)).define(
            Op::BandImm { ty: func_of(*old(b)).int_type(x), x, imm },
            func_of(*old(b)).int_type(x),
        ),
{
    Value { index: b.ins().band_imm(clif_ir::Value::from_u32(x.index), imm).as_u32() }
}

/// `InstBuilder::ushr_imm`: the unsigned shift to the right by a constant. The result has the type
/// of `x`.
#[verifier::external_body]
pub(crate) fn ushr_imm(b: &mut FunctionBuilder<'_>, x: Value, imm: i64) -> (v: Value)
    requires
        func_of(*old(b)).open(),
        func_of(*old(b)).room(1),
        func_of(*old(b)).is_int(x),
    ensures
        v == func_of(*old(b)).next_value(),
        func_of(*final(b)) == func_of(*old(b)).define(
            Op::UshrImm { ty: func_of(*old(b)).int_type(x), x, imm },
            func_of(*old(b)).int_type(x),
        ),
{
    Value { index: b.ins().ushr_imm(clif_ir::Value::from_u32(x.index), imm).as_u32() }
}

/// `InstBuilder::ishl_imm`: the shift to the left by a constant. The result has the type of `x`.
#[verifier::external_body]
pub(crate) fn ishl_imm(b: &mut FunctionBuilder<'_>, x: Value, imm: i64) -> (v: Value)
    requires
        func_of(*old(b)).open(),
        func_of(*old(b)).room(1),
        func_of(*old(b)).is_int(x),
    ensures
        v == func_of(*old(b)).next_value(),
        func_of(*final(b)) == func_of(*old(b)).define(
            Op::IshlImm { ty: func_of(*old(b)).int_type(x), x, imm },
            func_of(*old(b)).int_type(x),
        ),
{
    Value { index: b.ins().ishl_imm(clif_ir::Value::from_u32(x.index), imm).as_u32() }
}

/// `InstBuilder::iadd`: the wrapping sum of two integers of one type.
#[verifier::external_body]
pub(crate) fn iadd(b: &mut FunctionBuilder<'_>, x: Value, y: Value) -> (v: Value)
    requires
        func_of(*old(b)).open(),
        func_of(*old(b)).room(1),
        func_of(*old(b)).is_int(x),
        func_of(*old(b)).has_type(y, func_of(*old(b)).int_type(x)),
    ensures
        v == func_of(*old(b)).next_value(),
        func_of(*final(b)) == func_of(*old(b)).define(
            Op::Iadd { ty: func_of(*old(b)).int_type(x), x, y },
            func_of(*old(b)).int_type(x),
        ),
{
    let y = clif_ir::Value::from_u32(y.index);
    Value { index: b.ins().iadd(clif_ir::Value::from_u32(x.index), y).as_u32() }
}

/// `InstBuilder::band`: the bitwise and of two integers of one type.
#[verifier::external_body]
pub(crate) fn band(b: &mut FunctionBuilder<'_>, x: Value, y: Value) -> (v: Value)
    requires
        func_of(*old(b)).open(),
        func_of(*old(b)).room(1),
        func_of(*old(b)).is_int(x),
        func_of(*old(b)).has_type(y, func_of(*old(b)).int_type(x)),
    ensures
        v == func_of(*old(b)).next_value(),
        func_of(*final(b)) == func_of(*old(b)).define(
            Op::Band { ty: func_of(*old(b)).int_type(x), x, y },
            func_of(*old(b)).int_type(x),
        ),
{
    let y = clif_ir::Value::from_u32(y.index);
    Value { index: b.ins().band(clif_ir::Value::from_u32(x.index), y).as_u32() }
}

/// `InstBuilder::bor`: the bitwise or of two integers of one type.
#[verifier::external_body]
pub(crate) fn bor(b: &mut FunctionBuilder<'_>, x: Value, y: Value) -> (v: Value)
    requires
        func_of(*old(b)).open(),
        func_of(*old(b)).room(1),
        func_of(*old(b)).is_int(x),
        func_of(*old(b)).has_type(y, func_of(*old(b)).int_type(x)),
    ensures
        v == func_of(*old(b)).next_value(),
        func_of(*final(b)) == func_of(*old(b)).define(
            Op::Bor { ty: func_of(*old(b)).int_type(x), x, y },
            func_of(*old(b)).int_type(x),
        ),
{
    let y = clif_ir::Value::from_u32(y.index);
    Value { index: b.ins().bor(clif_ir::Value::from_u32(x.index), y).as_u32() }
}

/// `InstBuilder::iconcat`: one integer out of its low and its high half. Here the halves have
/// 64 bits.
#[verifier::external_body]
pub(crate) fn iconcat(b: &mut FunctionBuilder<'_>, lo: Value, hi: Value) -> (v: Value)
    requires
        func_of(*old(b)).open(),
        func_of(*old(b)).room(1),
        func_of(*old(b)).has_type(lo, Type::I64),
        func_of(*old(b)).has_type(hi, Type::I64),
    ensures
        v == func_of(*old(b)).next_value(),
        func_of(*final(b)) == func_of(*old(b)).define(Op::Iconcat { lo, hi }, Type::I128),
{
    let hi = clif_ir::Value::from_u32(hi.index);
    Value { index: b.ins().iconcat(clif_ir::Value::from_u32(lo.index), hi).as_u32() }
}

/// `InstBuilder::load`: an integer out of memory at `addr + offset`.
#[verifier::external_body]
pub(crate) fn load(
    b: &mut FunctionBuilder<'_>,
    ty: Type,
    flags: MemFlags,
    addr: Value,
    offset: i32,
) -> (v: Value)
    requires
        func_of(*old(b)).open(),
        func_of(*old(b)).room(1),
        func_of(*old(b)).has_type(addr, Type::I64),
    ensures
        v == func_of(*old(b)).next_value(),
        func_of(*final(b)) == func_of(*old(b)).define(
            Op::Load { ty, flags: flags_of(flags), addr, offset },
            ty,
        ),
{
    let ty: clif_ir::Type = match ty {
        Type::I8 => types::I8,
        Type::I16 => types::I16,
        Type::I32 => types::I32,
        Type::I64 => types::I64,
        Type::I128 => types::I128,
    };
    let addr = clif_ir::Value::from_u32(addr.index);
    Value { index: b.ins().load(ty, flags, addr, offset).as_u32() }
}

/// `InstBuilder::store`: puts an integer into memory at `addr + offset`.
#[verifier::external_body]
pub(crate) fn store(
    b: &mut FunctionBuilder<'_>,
    flags: MemFlags,
    value: Value,
    addr: Value,
    offset: i32,
) -> (inst: InstRef)
    requires
        func_of(*old(b)).open(),
        func_of(*old(b)).room(1),
        func_of(*old(b)).is_int(value),
        func_of(*old(b)).has_type(addr, Type::I64),
    ensures
        inst == func_of(*old(b)).next_inst(),
        func_of(*final(b)) == func_of(*old(b)).effect(
            Op::Store {
                ty: func_of(*old(b)).int_type(value),
                flags: flags_of(flags),
                value,
                addr,
                offset,
            },
        ),
{
    let addr = clif_ir::Value::from_u32(addr.index);
    let value = clif_ir::Value::from_u32(value.index);
    InstRef { index: b.ins().store(flags, value, addr, offset).as_u32() }
}

/// `InstBuilder::brnz`: a branch that is taken where `cond` is not zero. The builder refuses a
/// branch to a sealed block.
#[verifier::external_body]
pub(crate) fn brnz(
    b: &mut FunctionBuilder<'_>,
    cond: Value,
    target: Block,
    args: &Vec<Value>,
) -> (inst: InstRef)
    requires
        func_of(*old(b)).open(),
        func_of(*old(b)).room(1),
        func_of(*old(b)).is_int(cond),
        func_of(*old(b)).can_branch(target),
        func_of(*old(b)).are_values(args@),
        args@.len() <= 4,
    ensures
        inst == func_of(*old(b)).next_inst(),
        func_of(*final(b)) == func_of(*old(b)).effect(Op::Brnz { cond, target, args: args@ }),
{
    let args: Vec<clif_ir::Value> =
        args.iter().map(|v| clif_ir::Value::from_u32(v.index)).collect();
    let cond = clif_ir::Value::from_u32(cond.index);
    let target = clif_ir::Block::from_u32(target.index);
    InstRef { index: b.ins().brnz(cond, target, &args).as_u32() }
}

/// `InstBuilder::br_icmp`: a branch that is taken where two integers of one type meet a condition.
/// The builder refuses a branch to a sealed block.
#[verifier::external_body]
pub(crate) fn br_int(
    b: &mut FunctionBuilder<'_>,
    cc: IntCC,
    x: Value,
    y: Value,
    target: Block,
    args: &Vec<Value>,
) -> (inst: InstRef)
    requires
        func_of(*old(b)).open(),
        func_of(*old(b)).room(1),
        func_of(*old(b)).is_int(x),
        func_of(*old(b)).has_type(y, func_of(*old(b)).int_type(x)),
        func_of(*old(b)).can_branch(target),
        func_of(*old(b)).are_values(args@),
        args@.len() <= 4,
    ensures
        inst == func_of(*old(b)).next_inst(),
        func_of(*final(b)) == func_of(*old(b)).effect(
            Op::BrInt { cc, x, y, target, args: args@ },
        ),
{
    let args: Vec<clif_ir::Value> =
        args.iter().map(|v| clif_ir::Value::from_u32(v.index)).collect();
    let cc: clif_ir::condcodes::IntCC = match cc {
        IntCC::Equal => clif_ir::condcodes::IntCC::Equal,
        IntCC::NotEqual => clif_ir::condcodes::IntCC::NotEqual,
    };
    let x = clif_ir::Value::from_u32(x.index);
    let y = clif_ir::Value::from_u32(y.index);
    let target = clif_ir::Block::from_u32(target.index);
    InstRef { index: b.ins().br_icmp(cc, x, y, target, &args).as_u32() }
}

/// `InstBuilder::jump`: an unconditional jump, which completes the block. The builder refuses a
/// jump to a sealed block.
#[verifier::external_body]
pub(crate) fn jump(b: &mut FunctionBuilder<'_>, target: Block, args: &Vec<Value>) -> (inst: InstRef)
    requires
        func_of(*old(b)).open(),
        func_of(*old(b)).room(1),
        func_of(*old(b)).can_branch(target),
        func_of(*old(b)).are_values(args@),
        args@.len() <= 4,
    ensures
        inst == func_of(*old(b)).next_inst(),
        func_of(*final(b)) == func_of(*old(b)).effect(Op::Jump { target, args: args@ }),
{
    let args: Vec<clif_ir::Value> =
        args.iter().map(|v| clif_ir::Value::from_u32(v.index)).collect();
    InstRef { index: b.ins().jump(clif_ir::Block::from_u32(target.index), &args).as_u32() }
}

/// `InstBuilder::call`: a call of a function that was declared before. The call defines one value
/// for each value that the function returns.
#[verifier::external_body]
pub(crate) fn call(b: &mut FunctionBuilder<'_>, func: FuncRef, args: &Vec<Value>) -> (inst: InstRef)
    requires
        func_of(*old(b)).open(),
        func_of(*old(b)).can_call(func, args@),
        args@.len() <= 4,
        func.index < ir::ENTITY_LIMIT,
        func_of(*old(b)).imports[func.index as int].returns.len() < 0xffff,
        func_of(*old(b)).room(1 + func_of(*old(b)).imports[func.index as int].returns.len()),
    ensures
        inst == func_of(*old(b)).next_inst(),
        func_of(*final(b)) == func_of(*old(b)).call(func, args@),
{
    let args: Vec<clif_ir::Value> =
        args.iter().map(|v| clif_ir::Value::from_u32(v.index)).collect();
    InstRef { index: b.ins().call(clif_ir::FuncRef::from_u32(func.index), &args).as_u32() }
}

} // verus!
