use cranelift::prelude::{
    AbiParam, FunctionBuilder, FunctionBuilderContext, InstBuilder, Variable,
};
use cranelift_codegen::ir as clif;
use cranelift_codegen::isa::CallConv;
use icicle_jit_mem::ir::{Block, Endianness, FuncRef, Type, Value};
use icicle_jit_mem::layout::{MemLayout, Permissions};
use icicle_jit_mem::mem::{
    bswap, check_alignment, check_perm, load_host, lshift_and_mask, rshift_and_mask, splat_const,
    store_host, tlb_lookup, tlb_lookup_const, try_inline_access, try_inline_access_const,
    AccessKind,
};
use icicle_jit_mem::pcode;
use icicle_jit_mem::ram::{load_fallback, load_inline, store_fallback, store_inline};
use icicle_jit_mem::translator::{MmuSymbols, Symbols, Translator, TranslatorCtx, VmPtr};

fn layout() -> MemLayout {
    MemLayout {
        perm: Permissions { read: 0x04, write: 0x02, init: 0x10, map: 0x20 },
        offset_bits: 12,
        tlb_index_bits: 10,
        tlb_tag_bits: 42,
        tlb_entry_size: 16,
        tlb_read_offset: 0,
        tlb_write_offset: 0x4000,
        perm_offset: 0x1000,
    }
}

fn clif_type(ty: Type) -> clif::Type {
    match ty {
        Type::I8 => clif::types::I8,
        Type::I16 => clif::types::I16,
        Type::I32 => clif::types::I32,
        Type::I64 => clif::types::I64,
        Type::I128 => clif::types::I128,
    }
}

fn signature(params: &[Type], returns: &[Type]) -> clif::Signature {
    let mut sig = clif::Signature::new(CallConv::Fast);
    sig.params = params.iter().map(|ty| AbiParam::new(clif_type(*ty))).collect();
    sig.returns = returns.iter().map(|ty| AbiParam::new(clif_type(*ty))).collect();
    sig
}

fn import(builder: &mut FunctionBuilder, name: &str, params: &[Type], returns: &[Type]) -> FuncRef {
    let signature = builder.import_signature(signature(params, returns));
    let name = clif::ExternalName::testcase(name);
    let func = builder.import_function(clif::ExtFuncData { name, signature, colocated: false });
    FuncRef { index: func.as_u32() }
}

fn mmu(builder: &mut FunctionBuilder) -> MmuSymbols {
    let ptr = Type::I64;
    MmuSymbols {
        load8: import(builder, "load8", &[ptr, ptr], &[Type::I8]),
        load16: import(builder, "load16", &[ptr, ptr], &[Type::I16]),
        load32: import(builder, "load32", &[ptr, ptr], &[Type::I32]),
        load64: import(builder, "load64", &[ptr, ptr], &[Type::I64]),
        load128: import(builder, "load128", &[ptr, ptr], &[Type::I128]),
        store8: import(builder, "store8", &[ptr, ptr, Type::I8], &[]),
        store16: import(builder, "store16", &[ptr, ptr, Type::I16], &[]),
        store32: import(builder, "store32", &[ptr, ptr, Type::I32], &[]),
        store64: import(builder, "store64", &[ptr, ptr, Type::I64], &[]),
        store128: import(builder, "store128", &[ptr, ptr, Type::I128], &[]),
    }
}

/// The code that `emit` adds to a function that takes the emulator, the translation cache and one
/// integer of type `ty`, as text. `emit` also gets a block that branches can go to, `block1`.
fn emitted<F>(endianness: Endianness, ty: Type, emit: F) -> String
where
    F: FnOnce(&mut Translator, Value, Block),
{
    let mut func = clif::Function::with_name_signature(
        clif::UserFuncName::testcase("main"),
        signature(&[Type::I64, Type::I64, ty], &[]),
    );
    let mut ctx = FunctionBuilderContext::new();
    let mut builder = FunctionBuilder::new(&mut func, &mut ctx);
    let entry = builder.create_block();
    builder.append_block_params_for_function_params(entry);
    builder.switch_to_block(entry);
    builder.seal_block(entry);
    let other = builder.create_block();
    let symbols = Symbols { mmu: mmu(&mut builder) };
    let mut trans = Translator {
        builder,
        ctx: TranslatorCtx { endianness, disable_jit_mem: false },
        vm_ptr: VmPtr(Value { index: 0 }),
        tlb_ptr: Value { index: 1 },
        symbols,
        layout: layout(),
    };
    emit(&mut trans, Value { index: 2 }, Block { index: other.as_u32() });
    trans.builder.ins().return_(&[]);
    let text = func.display().to_string();
    let start = text.find("\nblock0(").expect("a block");
    let body: Vec<&str> = text[start..]
        .lines()
        .map(|line| line.split("  ;").next().unwrap_or(line).trim())
        .filter(|line| !line.is_empty() && *line != "}" && *line != "return")
        .collect();
    body.join("\n")
}

fn entry(ty: &str) -> String {
    format!("block0(v0: i64, v1: i64, v2: {}):", ty)
}

fn lines(first: &str, rest: &[&str]) -> String {
    let mut all = vec![first];
    all.extend(rest);
    all.join("\n")
}

#[test]
fn alignment_check() {
    let text = emitted(Endianness::Little, Type::I64, |trans, addr, other| {
        check_alignment(trans, addr, 8, other)
    });
    assert_eq!(
        text,
        lines(&entry("i64"), &["v3 = band_imm v2, 7", "brnz v3, block1", "jump block2", "block2:"])
    );
}

#[test]
fn alignment_check_of_bytes_is_empty() {
    let text = emitted(Endianness::Little, Type::I64, |trans, addr, other| {
        check_alignment(trans, addr, 1, other)
    });
    assert_eq!(text, entry("i64"));
}

#[test]
fn shifts_with_masks() {
    let text = emitted(Endianness::Little, Type::I32, |trans, value, _| {
        let a = rshift_and_mask(trans, value, 8, 0xff00);
        assert_eq!(a, Value { index: 4 });
        let b = lshift_and_mask(trans, a, 3, -1);
        assert_eq!(b, Value { index: 6 });
    });
    assert_eq!(
        text,
        lines(
            &entry("i32"),
            &[
                "v3 = ushr_imm v2, 8",
                "v4 = band_imm v3, 0xff00",
                "v5 = ishl_imm v4, 3",
                "v6 = band_imm v5, -1",
            ]
        )
    );
}

#[test]
fn cache_lookup() {
    let text = emitted(Endianness::Little, Type::I64, |trans, addr, other| {
        let ptr = tlb_lookup(trans, addr, AccessKind::Store, other);
        assert_eq!(ptr, Value { index: 9 });
    });
    assert_eq!(
        text,
        lines(
            &entry("i64"),
            &[
                "v3 = ushr_imm v2, 8",
                "v4 = band_imm v3, 0x3ff0",
                "v5 = iadd v1, v4",
                "v6 = load.i64 notrap aligned vmctx v5+0x4000",
                "v7 = ushr_imm v2, 22",
                "v8 = band_imm v7, 0x03ff_ffff_ffff",
                "br_icmp ne v8, v6, block1",
                "jump block2",
                "block2:",
                "v9 = load.i64 notrap aligned vmctx v5+0x4008",
            ]
        )
    );
}

#[test]
fn cache_lookup_of_a_constant() {
    let text = emitted(Endianness::Little, Type::I64, |trans, _, other| {
        let ptr = tlb_lookup_const(trans, 0x1234_5678_9abc_def0, AccessKind::Load, other);
        assert_eq!(ptr, Value { index: 7 });
    });
    assert_eq!(
        text,
        lines(
            &entry("i64"),
            &[
                "v3 = iconst.i64 0x3cd0",
                "v4 = iadd v1, v3",
                "v5 = load.i64 notrap aligned vmctx v4",
                "v6 = iconst.i64 0x0048_d159_e26a",
                "br_icmp ne v6, v5, block1",
                "jump block2",
                "block2:",
                "v7 = load.i64 notrap aligned vmctx v4+8",
            ]
        )
    );
}

#[test]
fn repeated_bytes() {
    let text = emitted(Endianness::Little, Type::I64, |trans, _, _| {
        splat_const(trans, 0x34, Type::I8);
        splat_const(trans, 0x34, Type::I16);
        splat_const(trans, 0x34, Type::I32);
        splat_const(trans, 0x34, Type::I64);
        splat_const(trans, 0xff, Type::I64);
        splat_const(trans, 0x34, Type::I128);
    });
    assert_eq!(
        text,
        lines(
            &entry("i64"),
            &[
                "v3 = iconst.i8 52",
                "v4 = iconst.i16 0x3434",
                "v5 = iconst.i32 0x3434_3434",
                "v6 = iconst.i64 0x3434_3434_3434_3434",
                "v7 = iconst.i64 -1",
                "v8 = iconst.i64 0x3434_3434_3434_3434",
                "v9 = iconst.i64 0x3434_3434_3434_3434",
                "v10 = iconcat v8, v9",
            ]
        )
    );
}

#[test]
fn permission_check() {
    let text = emitted(Endianness::Big, Type::I64, |trans, addr, other| {
        check_perm(trans, addr, 4, 0x22, other)
    });
    assert_eq!(
        text,
        lines(
            &entry("i64"),
            &[
                "v3 = load.i32 notrap aligned heap v2+4096",
                "v4 = iconst.i32 0x2222_2222",
                "v5 = band v3, v4",
                "br_icmp ne v5, v4, block1",
                "jump block2",
                "block2:",
            ]
        )
    );
}

#[test]
fn permission_check_of_128_bits() {
    let text = emitted(Endianness::Little, Type::I64, |trans, addr, other| {
        check_perm(trans, addr, 16, 0x22, other)
    });
    assert_eq!(
        text,
        lines(
            &entry("i64"),
            &[
                "v3 = load.i128 notrap aligned heap v2+4096",
                "v4 = iconst.i64 0x2222_2222_2222_2222",
                "v5 = iconst.i64 0x2222_2222_2222_2222",
                "v6 = iconcat v4, v5",
                "v7 = band v3, v6",
                "br_icmp ne v7, v6, block1",
                "jump block2",
                "block2:",
            ]
        )
    );
}

#[test]
fn little_endian_accesses_need_no_swap() {
    let text = emitted(Endianness::Little, Type::I64, |trans, addr, _| {
        let value = load_host(trans, addr, 16);
        store_host(trans, addr, value, 16);
    });
    assert_eq!(
        text,
        lines(
            &entry("i64"),
            &[
                "v3 = load.i128 notrap aligned little heap v2",
                "store notrap aligned little heap v3, v2",
            ]
        )
    );
}

#[test]
fn big_endian_accesses_swap() {
    let text = emitted(Endianness::Big, Type::I64, |trans, addr, _| {
        let value = load_host(trans, addr, 2);
        store_host(trans, addr, value, 2);
        let byte = load_host(trans, addr, 1);
        store_host(trans, addr, byte, 1);
    });
    assert_eq!(
        text,
        lines(
            &entry("i64"),
            &[
                "v3 = load.i16 notrap aligned big heap v2",
                "v4 = ushr_imm v3, 8",
                "v5 = band_imm v4, 255",
                "v6 = ishl_imm v3, 8",
                "v7 = band_imm v6, 0xff00",
                "v8 = bor v5, v7",
                "v9 = ushr_imm v8, 8",
                "v10 = band_imm v9, 255",
                "v11 = ishl_imm v8, 8",
                "v12 = band_imm v11, 0xff00",
                "v13 = bor v10, v12",
                "store notrap aligned big heap v13, v2",
                "v14 = load.i8 notrap aligned big heap v2",
                "store notrap aligned big heap v14, v2",
            ]
        )
    );
}

#[test]
fn swap_of_64_bits() {
    let text = emitted(Endianness::Little, Type::I64, |trans, value, _| {
        assert_eq!(bswap(trans, value, Type::I64), Value { index: 25 });
    });
    assert_eq!(
        text,
        lines(
            &entry("i64"),
            &[
                "v3 = ushr_imm v2, 56",
                "v4 = band_imm v3, 255",
                "v5 = ushr_imm v2, 40",
                "v6 = band_imm v5, 0xff00",
                "v7 = ushr_imm v2, 24",
                "v8 = band_imm v7, 0x00ff_0000",
                "v9 = ushr_imm v2, 8",
                "v10 = band_imm v9, 0xff00_0000",
                "v11 = ishl_imm v2, 8",
                "v12 = band_imm v11, 0x00ff_0000_0000",
                "v13 = ishl_imm v2, 24",
                "v14 = band_imm v13, 0xff00_0000_0000",
                "v15 = ishl_imm v2, 40",
                "v16 = band_imm v15, 0x00ff_0000_0000_0000",
                "v17 = ishl_imm v2, 56",
                "v18 = band_imm v17, 0xff00_0000_0000_0000",
                "v19 = bor v4, v6",
                "v20 = bor v8, v10",
                "v21 = bor v19, v20",
                "v22 = bor v12, v14",
                "v23 = bor v16, v18",
                "v24 = bor v22, v23",
                "v25 = bor v21, v24",
            ]
        )
    );
}

#[test]
fn inline_access() {
    let guest_addr = pcode::Value::Var(pcode::VarNode { id: 1, offset: 0, size: 8 });
    let text = emitted(Endianness::Little, Type::I64, |trans, addr, other| {
        let host = try_inline_access(trans, guest_addr, addr, 2, AccessKind::Load, other);
        assert_eq!(host, Value { index: 12 });
    });
    assert_eq!(
        text,
        lines(
            &entry("i64"),
            &[
                "v3 = band_imm v2, 1",
                "brnz v3, block1",
                "jump block2",
                "block2:",
                "v4 = ushr_imm.i64 v2, 8",
                "v5 = band_imm v4, 0x3ff0",
                "v6 = iadd.i64 v1, v5",
                "v7 = load.i64 notrap aligned vmctx v6",
                "v8 = ushr_imm.i64 v2, 22",
                "v9 = band_imm v8, 0x03ff_ffff_ffff",
                "br_icmp ne v9, v7, block1",
                "jump block3",
                "block3:",
                "v10 = load.i64 notrap aligned vmctx v6+8",
                "v11 = band_imm.i64 v2, 4095",
                "v12 = iadd v10, v11",
                "v13 = load.i16 notrap aligned heap v12+4096",
                "v14 = iconst.i16 0x3434",
                "v15 = band v13, v14",
                "br_icmp ne v15, v14, block1",
                "jump block4",
                "block4:",
            ]
        )
    );
}

#[test]
fn inline_access_of_a_byte_is_not_checked_for_alignment() {
    let guest_addr = pcode::Value::Var(pcode::VarNode { id: 1, offset: 0, size: 8 });
    let text = emitted(Endianness::Little, Type::I64, |trans, addr, other| {
        try_inline_access(trans, guest_addr, addr, 1, AccessKind::Load, other);
    });
    assert!(!text.contains("brnz"));
    assert_eq!(text.matches("br_icmp").count(), 2);
}

#[test]
fn inline_access_of_a_constant() {
    let text = emitted(Endianness::Little, Type::I64, |trans, addr, other| {
        let guest_addr = pcode::Value::Const(0x1234_5678, 8);
        try_inline_access(trans, guest_addr, addr, 8, AccessKind::Store, other);
    });
    let direct = emitted(Endianness::Little, Type::I64, |trans, _, other| {
        try_inline_access_const(trans, 0x1234_5678, 8, AccessKind::Store, other);
    });
    assert_eq!(text, direct);
    assert_eq!(
        text,
        lines(
            &entry("i64"),
            &[
                "v3 = iconst.i64 0x3450",
                "v4 = iadd v1, v3",
                "v5 = load.i64 notrap aligned vmctx v4+0x4000",
                "v6 = iconst.i64 72",
                "br_icmp ne v6, v5, block1",
                "jump block2",
                "block2:",
                "v7 = load.i64 notrap aligned vmctx v4+0x4008",
                "v8 = iconst.i64 1656",
                "v9 = iadd v7, v8",
                "v10 = load.i64 notrap aligned heap v9+4096",
                "v11 = iconst.i64 0x2222_2222_2222_2222",
                "v12 = band v10, v11",
                "br_icmp ne v12, v11, block1",
                "jump block3",
                "block3:",
            ]
        )
    );
}

#[test]
fn slow_paths_call_the_emulator() {
    let text = emitted(Endianness::Little, Type::I64, |trans, addr, _| {
        for size in [1, 2, 4, 8, 16] {
            let output = pcode::VarNode { id: 1, offset: 0, size };
            let value = load_fallback(trans, output, addr);
            store_fallback(trans, size, addr, value);
        }
    });
    assert_eq!(
        text,
        lines(
            &entry("i64"),
            &[
                "v3 = call fn0(v0, v2)",
                "call fn5(v0, v2, v3)",
                "v4 = call fn1(v0, v2)",
                "call fn6(v0, v2, v4)",
                "v5 = call fn2(v0, v2)",
                "call fn7(v0, v2, v5)",
                "v6 = call fn3(v0, v2)",
                "call fn8(v0, v2, v6)",
                "v7 = call fn4(v0, v2)",
                "call fn9(v0, v2, v7)",
            ]
        )
    );
}

#[test]
fn inline_load_leads_to_two_blocks() {
    let text = emitted(Endianness::Little, Type::I64, |trans, addr, _| {
        let guest_addr = pcode::Value::Const(0x1234_5678, 8);
        let success = load_inline(trans, guest_addr, addr, 8);
        assert_eq!(success, Block { index: 2 });
    });
    assert_eq!(
        text,
        lines(
            &entry("i64"),
            &[
                "v4 = iconst.i64 0x3450",
                "v5 = iadd v1, v4",
                "v6 = load.i64 notrap aligned vmctx v5",
                "v7 = iconst.i64 72",
                "br_icmp ne v7, v6, block3",
                "jump block4",
                "block4:",
                "v8 = load.i64 notrap aligned vmctx v5+8",
                "v9 = iconst.i64 1656",
                "v10 = iadd v8, v9",
                "v11 = load.i64 notrap aligned heap v10+4096",
                "v12 = iconst.i64 0x3434_3434_3434_3434",
                "v13 = band v11, v12",
                "br_icmp ne v13, v12, block3",
                "jump block5",
                "block5:",
                "v14 = load.i64 notrap aligned little heap v10",
                "jump block2(v14)",
                "block3 cold:",
            ]
        )
    );
}

#[test]
fn inline_store_leads_to_two_blocks() {
    let text = emitted(Endianness::Little, Type::I64, |trans, addr, _| {
        let guest_addr = pcode::Value::Const(0x1234_5678, 8);
        let success = store_inline(trans, guest_addr, addr, addr, 8);
        assert_eq!(success, Block { index: 2 });
    });
    let end = lines(
        "block5:",
        &["store.i64 notrap aligned little heap v2, v9", "jump block2", "block3 cold:"],
    );
    assert!(text.ends_with(&end), "{}", text);
}

#[test]
fn new_blocks_are_sealed() {
    // A variable that is read in a sealed block is found in the blocks before it; a block that is
    // not sealed gets a parameter for it.
    emitted(Endianness::Little, Type::I64, |trans, addr, other| {
        let var = Variable::from_u32(0);
        let value = clif::Value::from_u32(addr.index);
        trans.builder.declare_var(var, clif::types::I64);
        trans.builder.def_var(var, value);
        check_alignment(trans, addr, 8, other);
        assert_eq!(trans.builder.use_var(var), value);

        let guest_addr = pcode::Value::Const(0x1234_5678, 8);
        load_inline(trans, guest_addr, addr, 8);
        let slow = trans.builder.current_block().expect("a block");
        assert_eq!(trans.builder.block_params(slow).len(), 0);
        let found = trans.builder.use_var(var);
        assert_eq!(trans.builder.func.dfg.resolve_aliases(found), value);
        assert_eq!(trans.builder.block_params(slow).len(), 0);
    });
}
