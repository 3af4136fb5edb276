use cranelift::prelude::{
    AbiParam, FunctionBuilder, FunctionBuilderContext, InstBuilder, MemFlags, Variable,
};
use cranelift_codegen::data_value::DataValue;
use cranelift_codegen::ir as clif;
use cranelift_codegen::isa::CallConv;
use cranelift_interpreter::environment::FunctionStore;
use cranelift_interpreter::interpreter::{HeapInit, Interpreter, InterpreterState};
use icicle_jit_mem::ir::{Block, Endianness, FuncRef, Type, Value};
use icicle_jit_mem::layout::{MemLayout, Permissions};
use icicle_jit_mem::mem::{bswap, check_alignment};
use icicle_jit_mem::pcode;
use icicle_jit_mem::pcode::VarNode;
use icicle_jit_mem::ram::{load_ram, store_ram, LoadRam, Reply, Request, StoreRam};
use icicle_jit_mem::translator::{
    sized_int, MmuSymbols, Symbols, Translator, TranslatorCtx, VmPtr,
};

/// Where the interpreter's memory starts.
const HEAP: u64 = 0x4000_0000_0000_0000;
const PAGE: usize = 0x8000;
const VM: usize = 0xa000;
const HEAP_SIZE: usize = 0xa100;

/// What the emulator's functions load.
const SLOW: u64 = 0x77;

/// A page of the guest.
const GUEST_PAGE: u64 = 0x1234_5678_9abc_d000;

const READABLE: u8 = 0x34;
const WRITABLE: u8 = 0x22;

const ADDRESS: pcode::Value = pcode::Value::Var(VarNode { id: 1, offset: 0, size: 8 });

fn layout() -> MemLayout {
    MemLayout {
        perm: Permissions { read: 0x04, write: 0x02, init: 0x10, map: 0x20 },
        offset_bits: 12,
        tlb_index_bits: 10,
        tlb_tag_bits: 42,
        tlb_entry_size: 16,
        tlb_read_offset: 0,
        tlb_write_offset: 0x4000,
        perm_offset: 0x1000,
    }
}

fn put64(heap: &mut [u8], at: usize, value: u64) {
    heap[at..at + 8].copy_from_slice(&value.to_le_bytes());
}

/// A memory in which the guest's page is cached for both kinds of access. Each byte of the page
/// holds the low byte of its offset and has the permissions `perm`.
fn memory(perm: u8) -> Vec<u8> {
    let mut heap = vec![0; HEAP_SIZE];
    let entry = ((GUEST_PAGE >> 12) & 0x3ff) as usize * 16;
    for at in [entry, 0x4000 + entry] {
        put64(&mut heap, at, GUEST_PAGE >> 22);
        put64(&mut heap, at + 8, HEAP + PAGE as u64);
    }
    for i in 0..0x1000 {
        heap[PAGE + i] = i as u8;
        heap[PAGE + 0x1000 + i] = perm;
    }
    heap
}

fn clif_type(ty: Type) -> clif::Type {
    match ty {
        Type::I8 => clif::types::I8,
        Type::I16 => clif::types::I16,
        Type::I32 => clif::types::I32,
        Type::I64 => clif::types::I64,
        Type::I128 => clif::types::I128,
    }
}

fn signature(params: &[Type], returns: &[Type]) -> clif::Signature {
    let mut sig = clif::Signature::new(CallConv::Fast);
    sig.params = params.iter().map(|ty| AbiParam::new(clif_type(*ty))).collect();
    sig.returns = returns.iter().map(|ty| AbiParam::new(clif_type(*ty))).collect();
    sig
}

fn import(builder: &mut FunctionBuilder, name: &str, params: &[Type], returns: &[Type]) -> FuncRef {
    let signature = builder.import_signature(signature(params, returns));
    let name = clif::ExternalName::testcase(name);
    let func = builder.import_function(clif::ExtFuncData { name, signature, colocated: false });
    FuncRef { index: func.as_u32() }
}

fn mmu(builder: &mut FunctionBuilder) -> MmuSymbols {
    let ptr = Type::I64;
    MmuSymbols {
        load8: import(builder, "load8", &[ptr, ptr], &[Type::I8]),
        load16: import(builder, "load16", &[ptr, ptr], &[Type::I16]),
        load32: import(builder, "load32", &[ptr, ptr], &[Type::I32]),
        load64: import(builder, "load64", &[ptr, ptr], &[Type::I64]),
        load128: import(builder, "load128", &[ptr, ptr], &[Type::I128]),
        store8: import(builder, "store8", &[ptr, ptr, Type::I8], &[]),
        store16: import(builder, "store16", &[ptr, ptr, Type::I16], &[]),
        store32: import(builder, "store32", &[ptr, ptr, Type::I32], &[]),
        store64: import(builder, "store64", &[ptr, ptr, Type::I64], &[]),
        store128: import(builder, "store128", &[ptr, ptr, Type::I128], &[]),
    }
}

fn clif_value(value: Value) -> clif::Value {
    clif::Value::from_u32(value.index)
}

/// Builds a function of the emulator, the translation cache, a 64-bit integer and an integer of
/// type `ty`, which returns what `emit` gives for the last two.
fn build<F>(ctx: TranslatorCtx, ty: Type, returns: Type, emit: F) -> clif::Function
where
    F: FnOnce(&mut Translator, Value, Value) -> Value,
{
    let mut func = clif::Function::with_name_signature(
        clif::UserFuncName::testcase("main"),
        signature(&[Type::I64, Type::I64, Type::I64, ty], &[returns]),
    );
    let mut context = FunctionBuilderContext::new();
    let mut builder = FunctionBuilder::new(&mut func, &mut context);
    let entry = builder.create_block();
    builder.append_block_params_for_function_params(entry);
    builder.switch_to_block(entry);
    builder.seal_block(entry);
    let symbols = Symbols { mmu: mmu(&mut builder) };
    let mut trans = Translator {
        builder,
        ctx,
        vm_ptr: VmPtr(Value { index: 0 }),
        tlb_ptr: Value { index: 1 },
        symbols,
        layout: layout(),
    };
    let result = emit(&mut trans, Value { index: 2 }, Value { index: 3 });
    trans.builder.ins().return_(&[clif_value(result)]);
    trans.builder.finalize();
    func
}

/// The emulator's function that loads: it returns a fixed integer.
fn slow_load(name: &str, ty: Type) -> clif::Function {
    let mut func = clif::Function::with_name_signature(
        clif::UserFuncName::testcase(name),
        signature(&[Type::I64, Type::I64], &[ty]),
    );
    let mut context = FunctionBuilderContext::new();
    let mut builder = FunctionBuilder::new(&mut func, &mut context);
    let entry = builder.create_block();
    builder.append_block_params_for_function_params(entry);
    builder.switch_to_block(entry);
    builder.seal_block(entry);
    let value = builder.ins().iconst(clif_type(ty), SLOW as i64);
    builder.ins().return_(&[value]);
    builder.finalize();
    func
}

/// The emulator's function that stores: it leaves the integer in the emulator's memory.
fn slow_store(name: &str, ty: Type) -> clif::Function {
    let mut func = clif::Function::with_name_signature(
        clif::UserFuncName::testcase(name),
        signature(&[Type::I64, Type::I64, ty], &[]),
    );
    let mut context = FunctionBuilderContext::new();
    let mut builder = FunctionBuilder::new(&mut func, &mut context);
    let entry = builder.create_block();
    builder.append_block_params_for_function_params(entry);
    builder.switch_to_block(entry);
    builder.seal_block(entry);
    let params = builder.block_params(entry).to_vec();
    builder.ins().store(MemFlags::trusted(), params[2], params[0], 0);
    builder.ins().return_(&[]);
    builder.finalize();
    func
}

fn data(ty: Type, value: u64) -> DataValue {
    match ty {
        Type::I8 => DataValue::I8(value as i8),
        Type::I16 => DataValue::I16(value as i16),
        Type::I32 => DataValue::I32(value as i32),
        Type::I64 => DataValue::I64(value as i64),
        Type::I128 => DataValue::I128(value as i128),
    }
}

fn number(value: &DataValue) -> u64 {
    match value {
        DataValue::I8(x) => *x as u8 as u64,
        DataValue::I16(x) => *x as u16 as u64,
        DataValue::I32(x) => *x as u32 as u64,
        DataValue::I64(x) => *x as u64,
        _ => panic!("not an integer"),
    }
}

/// Runs the function on the memory.
fn run(func: &clif::Function, heap: Vec<u8>, addr: u64, ty: Type, value: u64) -> u64 {
    let types = [Type::I8, Type::I16, Type::I32, Type::I64];
    let loads: Vec<clif::Function> =
        types.iter().map(|ty| slow_load(&format!("load{}", 8 * ty.bytes()), *ty)).collect();
    let stores: Vec<clif::Function> =
        types.iter().map(|ty| slow_store(&format!("store{}", 8 * ty.bytes()), *ty)).collect();
    let mut store = FunctionStore::default();
    store.add("%main".to_string(), func);
    for func in loads.iter().chain(stores.iter()) {
        store.add(func.name.to_string(), func);
    }
    let mut state = InterpreterState::default().with_function_store(store);
    state.register_heap(HeapInit::FromBacking(heap));
    let args = [
        DataValue::I64((HEAP + VM as u64) as i64),
        DataValue::I64(HEAP as i64),
        DataValue::I64(addr as i64),
        data(ty, value),
    ];
    let mut interpreter = Interpreter::new(state);
    let result = interpreter.call_by_name("%main", &args).expect("the run to end");
    number(&result.unwrap_return()[0])
}

fn settings(endianness: Endianness) -> TranslatorCtx {
    TranslatorCtx { endianness, disable_jit_mem: false }
}

/// Adds a check for a pending exception, which is never taken.
fn maybe_exit(trans: &mut Translator) -> Block {
    let builder = &mut trans.builder;
    let exit = builder.create_block();
    let next = builder.create_block();
    let pending = builder.ins().iconst(clif::types::I64, 0);
    builder.ins().brnz(pending, exit, &[]);
    builder.ins().jump(next, &[]);
    builder.switch_to_block(exit);
    builder.seal_block(exit);
    builder.ins().trap(clif::TrapCode::User(0));
    builder.switch_to_block(next);
    builder.seal_block(next);
    Block { index: exit.as_u32() }
}

fn read_address(trans: &mut Translator, operand: pcode::Value, addr: Value) -> Value {
    match operand {
        pcode::Value::Const(addr, _) => {
            let value = trans.builder.ins().iconst(clif::types::I64, addr as i64);
            Value { index: value.as_u32() }
        }
        pcode::Value::Var(_) => addr,
    }
}

/// Answers the requests of a load until it is complete. The result is the requests and the value
/// that was written to the output.
fn answer_load(trans: &mut Translator, mut load: LoadRam, addr: Value) -> (Vec<Request>, Value) {
    let mut requests = vec![];
    let mut written = addr;
    loop {
        let request = load.request();
        requests.push(request);
        let reply = match request {
            Request::Finished => return (requests, written),
            Request::Interpret(_) | Request::FlushCurrentPc => Reply::Done,
            Request::MaybeExitJit => Reply::Block(maybe_exit(trans)),
            Request::ReadZxt(operand, size) => {
                assert_eq!(size, 8);
                Reply::Value(read_address(trans, operand, addr))
            }
            Request::ReadInt(_) => panic!("a load reads its address only"),
            Request::Write(_, value) => {
                written = value;
                Reply::Done
            }
        };
        load = load.resume(trans, reply);
    }
}

/// Answers the requests of a store until it is complete.
fn answer_store(
    trans: &mut Translator,
    mut store: StoreRam,
    addr: Value,
    value: Value,
) -> Vec<Request> {
    let mut requests = vec![];
    loop {
        let request = store.request();
        requests.push(request);
        let reply = match request {
            Request::Finished => return requests,
            Request::Interpret(_) | Request::FlushCurrentPc => Reply::Done,
            Request::MaybeExitJit => Reply::Block(maybe_exit(trans)),
            Request::ReadZxt(operand, size) => {
                assert_eq!(size, 8);
                Reply::Value(read_address(trans, operand, addr))
            }
            Request::ReadInt(_) => Reply::Value(value),
            Request::Write(_, _) => panic!("a store has no output"),
        };
        store = store.resume(trans, reply);
    }
}

fn output(size: u8) -> VarNode {
    VarNode { id: 2, offset: 0, size }
}

/// What a load of `size` bytes from `addr` gives.
fn load(endianness: Endianness, heap: Vec<u8>, operand: pcode::Value, addr: u64, size: u8) -> u64 {
    let ty = sized_int(size);
    let func = build(settings(endianness), ty, ty, |trans, addr, _| {
        let load = load_ram(trans, operand, output(size));
        answer_load(trans, load, addr).1
    });
    run(&func, heap, addr, ty, 0)
}

/// The eight bytes at `probe` after a store of `size` bytes of `value` to `addr`.
fn store(
    endianness: Endianness,
    heap: Vec<u8>,
    operand: pcode::Value,
    addr: u64,
    size: u8,
    value: u64,
    probe: usize,
) -> u64 {
    let ty = sized_int(size);
    let func = build(settings(endianness), ty, Type::I64, |trans, addr, value| {
        let source = pcode::Value::Var(VarNode { id: 3, offset: 0, size });
        let store = store_ram(trans, operand, source);
        answer_store(trans, store, addr, value);
        let probe = trans.builder.ins().iconst(clif::types::I64, (HEAP + probe as u64) as i64);
        let found = trans.builder.ins().load(clif::types::I64, MemFlags::trusted(), probe, 0);
        Value { index: found.as_u32() }
    });
    run(&func, heap, addr, ty, value)
}

fn swap(ty: Type, value: u64, twice: bool) -> u64 {
    let func = build(settings(Endianness::Little), ty, ty, |trans, _, value| {
        let once = bswap(trans, value, ty);
        if twice {
            bswap(trans, once, ty)
        } else {
            once
        }
    });
    run(&func, memory(0), 0, ty, value)
}

#[test]
fn swapped_bytes() {
    assert_eq!(swap(Type::I8, 0x9a, false), 0x9a);
    assert_eq!(swap(Type::I16, 0x9abc, false), 0xbc9a);
    assert_eq!(swap(Type::I32, 0x9abc_def0, false), 0xf0de_bc9a);
    assert_eq!(swap(Type::I64, 0x0123_4567_89ab_cdef, false), 0xefcd_ab89_6745_2301);
    assert_eq!(swap(Type::I64, 0xff, false), 0xff00_0000_0000_0000);
}

#[test]
fn bytes_swapped_twice() {
    assert_eq!(swap(Type::I16, 0x9abc, true), 0x9abc);
    assert_eq!(swap(Type::I32, 0x9abc_def0, true), 0x9abc_def0);
    assert_eq!(swap(Type::I64, 0x0123_4567_89ab_cdef, true), 0x0123_4567_89ab_cdef);
}

#[test]
fn alignment_decides_at_run_time() {
    let aligned = |bytes: u8, addr: u64| {
        let func = build(settings(Endianness::Little), Type::I64, Type::I64, |trans, addr, _| {
            let other = trans.builder.create_block();
            check_alignment(trans, addr, bytes, Block { index: other.as_u32() });
            let yes = trans.builder.ins().iconst(clif::types::I64, 1);
            trans.builder.ins().return_(&[yes]);
            trans.builder.switch_to_block(other);
            trans.builder.seal_block(other);
            Value { index: trans.builder.ins().iconst(clif::types::I64, 0).as_u32() }
        });
        run(&func, memory(0), addr, Type::I64, 0) == 1
    };
    for bytes in [2, 4, 8, 16] {
        for addr in 0..33 {
            assert_eq!(aligned(bytes, addr), addr % bytes as u64 == 0);
        }
    }
}

#[test]
fn loads_in_both_byte_orders() {
    let addr = GUEST_PAGE + 0x128;
    let at = |endianness, size| load(endianness, memory(READABLE), ADDRESS, addr, size);
    assert_eq!(at(Endianness::Little, 1), 0x28);
    assert_eq!(at(Endianness::Little, 2), 0x2928);
    assert_eq!(at(Endianness::Little, 4), 0x2b2a_2928);
    assert_eq!(at(Endianness::Little, 8), 0x2f2e_2d2c_2b2a_2928);
    assert_eq!(at(Endianness::Big, 1), 0x28);
    assert_eq!(at(Endianness::Big, 2), 0x2829);
    assert_eq!(at(Endianness::Big, 4), 0x2829_2a2b);
    assert_eq!(at(Endianness::Big, 8), 0x2829_2a2b_2c2d_2e2f);
}

#[test]
fn loads_from_constant_addresses() {
    let addr = GUEST_PAGE + 0x128;
    let operand = pcode::Value::Const(addr, 8);
    for size in [1, 2, 4, 8] {
        for endianness in [Endianness::Little, Endianness::Big] {
            assert_eq!(
                load(endianness, memory(READABLE), operand, addr, size),
                load(endianness, memory(READABLE), ADDRESS, addr, size)
            );
        }
    }
}

#[test]
fn loads_at_the_end_of_a_page() {
    let last = load(Endianness::Little, memory(READABLE), ADDRESS, GUEST_PAGE + 0xff8, 8);
    assert_eq!(last, 0xfffe_fdfc_fbfa_f9f8);
    let crossing = load(Endianness::Little, memory(READABLE), ADDRESS, GUEST_PAGE + 0xffc, 8);
    assert_eq!(crossing, SLOW);
}

#[test]
fn unaligned_loads_are_slow() {
    for operand in [ADDRESS, pcode::Value::Const(GUEST_PAGE + 0x129, 8)] {
        let at = |size| {
            load(Endianness::Little, memory(READABLE), operand, GUEST_PAGE + 0x129, size)
        };
        assert_eq!(at(1), 0x29);
        assert_eq!(at(2), SLOW);
        assert_eq!(at(4), SLOW);
        assert_eq!(at(8), SLOW);
    }
}

#[test]
fn loads_from_other_pages_are_slow() {
    // The same entry of the cache, but another tag.
    let addr = GUEST_PAGE + 0x40_0000;
    for operand in [ADDRESS, pcode::Value::Const(addr, 8)] {
        assert_eq!(load(Endianness::Little, memory(READABLE), operand, addr, 4), SLOW);
    }
    // Another entry.
    let addr = GUEST_PAGE + 0x1000;
    for operand in [ADDRESS, pcode::Value::Const(addr, 8)] {
        assert_eq!(load(Endianness::Little, memory(READABLE), operand, addr, 4), SLOW);
    }
}

#[test]
fn loads_without_a_permission_are_slow() {
    for missing in [0x04, 0x10, 0x20] {
        let heap = memory(READABLE & !missing);
        assert_eq!(load(Endianness::Little, heap, ADDRESS, GUEST_PAGE, 4), SLOW);
    }
    // One byte is enough.
    for i in 0..4 {
        let mut heap = memory(READABLE);
        heap[PAGE + 0x1000 + i] = 0;
        assert_eq!(load(Endianness::Little, heap.clone(), ADDRESS, GUEST_PAGE, 4), SLOW);
        assert_eq!(load(Endianness::Little, heap, ADDRESS, GUEST_PAGE + 4, 4), 0x0706_0504);
    }
    // More permissions do no harm.
    assert_eq!(load(Endianness::Little, memory(0xff), ADDRESS, GUEST_PAGE, 4), 0x0302_0100);
}

#[test]
fn loads_and_stores_have_entries_of_their_own() {
    let entry = ((GUEST_PAGE >> 12) & 0x3ff) as usize * 16;
    let mut heap = memory(0xff);
    put64(&mut heap, 0x4000 + entry, 0);
    assert_eq!(load(Endianness::Little, heap.clone(), ADDRESS, GUEST_PAGE, 1), 0);
    assert_eq!(store(Endianness::Little, heap, ADDRESS, GUEST_PAGE, 1, 0x5a, VM), 0x5a);

    let mut heap = memory(0xff);
    put64(&mut heap, entry, 0);
    assert_eq!(load(Endianness::Little, heap.clone(), ADDRESS, GUEST_PAGE, 1), SLOW);
    assert_eq!(store(Endianness::Little, heap, ADDRESS, GUEST_PAGE, 1, 0x5a, VM), 0);
}

#[test]
fn accesses_through_the_last_entries() {
    let page = 0x1234_5678_9aff_f000;
    assert_eq!(layout().tlb_index(page), 0x3ff);
    let mut heap = memory(0xff);
    // The last 16 bytes of the entries for reads and of those for writes.
    for at in [0x3ff0, 0x7ff0] {
        put64(&mut heap, at, page >> 22);
        put64(&mut heap, at + 8, HEAP + PAGE as u64);
    }
    for operand in [ADDRESS, pcode::Value::Const(page + 0x20, 8)] {
        let addr = page + 0x20;
        assert_eq!(load(Endianness::Big, heap.clone(), operand, addr, 2), 0x2021);
        let value = 0xa1b2;
        let found =
            store(Endianness::Big, heap.clone(), operand, addr, 2, value, PAGE + 0x20);
        assert_eq!(found, 0x2726_2524_2322_b2a1);
    }
}

#[test]
fn stores_in_both_byte_orders() {
    let at = |endianness, operand, size, value| {
        let addr = GUEST_PAGE + 0x128;
        store(endianness, memory(WRITABLE), operand, addr, size, value, PAGE + 0x128)
    };
    for operand in [ADDRESS, pcode::Value::Const(GUEST_PAGE + 0x128, 8)] {
        assert_eq!(at(Endianness::Little, operand, 1, 0xa1), 0x2f2e_2d2c_2b2a_29a1);
        assert_eq!(at(Endianness::Little, operand, 2, 0xa1b2), 0x2f2e_2d2c_2b2a_a1b2);
        assert_eq!(at(Endianness::Little, operand, 4, 0xa1b2_c3d4), 0x2f2e_2d2c_a1b2_c3d4);
        assert_eq!(at(Endianness::Big, operand, 1, 0xa1), 0x2f2e_2d2c_2b2a_29a1);
        assert_eq!(at(Endianness::Big, operand, 2, 0xa1b2), 0x2f2e_2d2c_2b2a_b2a1);
        assert_eq!(at(Endianness::Big, operand, 4, 0xa1b2_c3d4), 0x2f2e_2d2c_d4c3_b2a1);
        assert_eq!(at(Endianness::Big, operand, 8, 0x0102_0304_0506_0708), 0x0807_0605_0403_0201);
    }
}

#[test]
fn stores_leave_the_rest_alone() {
    let addr = GUEST_PAGE + 0x128;
    for (probe, found) in [(0x120, 0x2726_2524_2322_2120), (0x12a, 0x3130_2f2e_2d2c_2b2a)] {
        let left = store(
            Endianness::Little,
            memory(WRITABLE),
            ADDRESS,
            addr,
            2,
            0xa1b2,
            PAGE + probe,
        );
        assert_eq!(left, found);
    }
}

#[test]
fn slow_stores_leave_the_page_alone() {
    let cases = [
        (memory(WRITABLE), ADDRESS, GUEST_PAGE + 0x12a),
        (memory(WRITABLE), pcode::Value::Const(GUEST_PAGE + 0x12a, 8), GUEST_PAGE + 0x12a),
        (memory(WRITABLE), ADDRESS, GUEST_PAGE + 0x40_0128),
        (memory(WRITABLE & !0x02), ADDRESS, GUEST_PAGE + 0x128),
        (memory(WRITABLE & !0x20), ADDRESS, GUEST_PAGE + 0x128),
    ];
    for (heap, operand, addr) in cases {
        let value = 0xa1b2_c3d4;
        let page = store(Endianness::Big, heap.clone(), operand, addr, 4, value, PAGE + 0x128);
        assert_eq!(page, 0x2f2e_2d2c_2b2a_2928);
        assert_eq!(store(Endianness::Big, heap, operand, addr, 4, value, VM), value);
    }
}

#[test]
fn loads_give_back_stores() {
    for endianness in [Endianness::Little, Endianness::Big] {
        for size in [1, 2, 4, 8] {
            let ty = sized_int(size);
            let func = build(settings(endianness), ty, ty, |trans, addr, value| {
                let source = pcode::Value::Var(VarNode { id: 3, offset: 0, size });
                let store = store_ram(trans, ADDRESS, source);
                answer_store(trans, store, addr, value);
                let load = load_ram(trans, ADDRESS, output(size));
                answer_load(trans, load, addr).1
            });
            let value = 0xf1e2_d3c4_b5a6_9788_u64 >> (64 - 8 * size as u32);
            let heap = memory(READABLE | WRITABLE);
            assert_eq!(run(&func, heap, GUEST_PAGE + 0x10, ty, value), value);
        }
    }
}

/// The requests of a load and of a store of `size` bytes.
fn requests(ctx: TranslatorCtx, operand: pcode::Value, size: u8) -> (Vec<Request>, Vec<Request>) {
    let mut loads = vec![];
    let mut stores = vec![];
    let ty = if [1, 2, 4, 8, 16].contains(&size) { sized_int(size) } else { Type::I64 };
    build(ctx, ty, ty, |trans, addr, value| {
        let load = load_ram(trans, operand, output(size));
        loads = answer_load(trans, load, addr).0;
        let source = pcode::Value::Var(VarNode { id: 3, offset: 0, size });
        let store = store_ram(trans, operand, source);
        stores = answer_store(trans, store, addr, value);
        value
    });
    (loads, stores)
}

fn interpreted(operand: pcode::Value, size: u8) -> (Vec<Request>, Vec<Request>) {
    let load = pcode::Instruction {
        output: Some(output(size)),
        op: pcode::Op::Load(0),
        inputs: pcode::Inputs::One(operand),
    };
    let source = pcode::Value::Var(VarNode { id: 3, offset: 0, size });
    let store = pcode::Instruction {
        output: None,
        op: pcode::Op::Store(0),
        inputs: pcode::Inputs::Two(operand, source),
    };
    (
        vec![Request::Interpret(load), Request::MaybeExitJit, Request::Finished],
        vec![Request::Interpret(store), Request::MaybeExitJit, Request::Finished],
    )
}

#[test]
fn odd_sizes_are_interpreted() {
    for size in [0, 3, 5, 10, 32] {
        let found = requests(settings(Endianness::Little), ADDRESS, size);
        assert_eq!(found, interpreted(ADDRESS, size));
    }
}

#[test]
fn everything_is_interpreted_on_demand() {
    let ctx = TranslatorCtx { endianness: Endianness::Little, disable_jit_mem: true };
    for size in [1, 2, 4, 8, 16] {
        assert_eq!(requests(ctx, ADDRESS, size), interpreted(ADDRESS, size));
    }
}

#[test]
fn requests_of_native_accesses() {
    let unaligned = pcode::Value::Const(0x1001, 8);
    for operand in [ADDRESS, pcode::Value::Const(0x1000, 8), unaligned] {
        for size in [1, 2, 4, 8, 16] {
            let (loads, stores) = requests(settings(Endianness::Little), operand, size);
            assert_eq!(loads.len(), 5);
            assert_eq!(loads[..3], [
                Request::ReadZxt(operand, 8),
                Request::FlushCurrentPc,
                Request::MaybeExitJit,
            ]);
            assert!(matches!(loads[3], Request::Write(var, _) if var == output(size)));
            assert_eq!(loads[4], Request::Finished);
            let source = pcode::Value::Var(VarNode { id: 3, offset: 0, size });
            assert_eq!(stores, vec![
                Request::ReadZxt(operand, 8),
                Request::ReadInt(source),
                Request::FlushCurrentPc,
                Request::MaybeExitJit,
                Request::Finished,
            ]);
        }
    }
}

#[test]
fn unaligned_constants_only_call_the_emulator() {
    // Swapping 128 bits is not supported, but here nothing is swapped.
    let func = build(settings(Endianness::Big), Type::I128, Type::I128, |trans, addr, value| {
        let operand = pcode::Value::Const(0x1008, 8);
        let load = load_ram(trans, operand, output(16));
        let loaded = answer_load(trans, load, addr).1;
        let source = pcode::Value::Var(VarNode { id: 3, offset: 0, size: 16 });
        let store = store_ram(trans, operand, source);
        answer_store(trans, store, addr, value);
        loaded
    });
    let text = func.display().to_string();
    assert_eq!(text.matches("call fn4(").count(), 1);
    assert_eq!(text.matches("call fn9(").count(), 1);
    assert_eq!(text.matches("br_icmp").count(), 0);
    assert_eq!(text.matches("load.").count(), 0);
}

#[test]
fn slow_paths_are_cold() {
    let func = build(settings(Endianness::Little), Type::I32, Type::I32, |trans, addr, _| {
        let load = load_ram(trans, ADDRESS, output(4));
        answer_load(trans, load, addr).1
    });
    // The slow path and the exit after it.
    let cold: Vec<u32> =
        func.layout.blocks().filter(|b| func.layout.is_cold(*b)).map(|b| b.as_u32()).collect();
    assert_eq!(cold, vec![2, 6]);
}

#[test]
fn accesses_end_in_sealed_blocks() {
    build(settings(Endianness::Little), Type::I32, Type::I32, |trans, addr, value| {
        let var = Variable::from_u32(0);
        trans.builder.declare_var(var, clif::types::I32);
        trans.builder.def_var(var, clif_value(value));
        let load = load_ram(trans, ADDRESS, output(4));
        answer_load(trans, load, addr);
        let found = trans.builder.use_var(var);
        assert_eq!(trans.builder.func.dfg.resolve_aliases(found), clif_value(value));
        let source = pcode::Value::Var(VarNode { id: 3, offset: 0, size: 4 });
        let store = store_ram(trans, ADDRESS, source);
        answer_store(trans, store, addr, value);
        let found = trans.builder.use_var(var);
        assert_eq!(trans.builder.func.dfg.resolve_aliases(found), clif_value(value));
        value
    });
}

#[test]
fn a_load_ends_in_one_block_with_the_integer() {
    let func = build(settings(Endianness::Little), Type::I32, Type::I32, |trans, addr, _| {
        let load = load_ram(trans, ADDRESS, output(4));
        let value = answer_load(trans, load, addr).1;
        assert_eq!(trans.builder.current_block(), Some(clif::Block::from_u32(1)));
        value
    });
    let params = func.dfg.block_params(clif::Block::from_u32(1));
    assert_eq!(params.len(), 1);
    assert_eq!(func.dfg.value_type(params[0]), clif::types::I32);
    let text = func.display().to_string();
    assert_eq!(text.matches("jump block1(").count(), 2);
}
