use icicle_jit_mem::ir::Type;
use icicle_jit_mem::layout::{MemLayout, Permissions};
use icicle_jit_mem::mem::{is_aligned, AccessKind};
use icicle_jit_mem::pcode;
use icicle_jit_mem::translator::{is_native_size, sized_int};

fn layout() -> MemLayout {
    MemLayout {
        perm: Permissions { read: 0x04, write: 0x02, init: 0x10, map: 0x20 },
        offset_bits: 12,
        tlb_index_bits: 10,
        tlb_tag_bits: 42,
        tlb_entry_size: 16,
        tlb_read_offset: 0x100,
        tlb_write_offset: 0x4100,
        perm_offset: 0x1000,
    }
}

#[test]
fn alignment_of_constants() {
    assert!(is_aligned(0, 1));
    assert!(is_aligned(7, 1));
    assert!(is_aligned(6, 2));
    assert!(!is_aligned(7, 2));
    assert!(is_aligned(0x1008, 8));
    assert!(!is_aligned(0x1004, 8));
    assert!(is_aligned(0x1010, 16));
    assert!(!is_aligned(0x1008, 16));
    assert!(is_aligned(u64::MAX - 15, 16));
    assert!(!is_aligned(u64::MAX, 2));
}

#[test]
fn native_sizes() {
    let native: Vec<u8> = (0..=255).filter(|size| is_native_size(*size)).collect();
    assert_eq!(native, vec![1, 2, 4, 8, 16]);
}

#[test]
fn integer_types_by_size() {
    assert_eq!(sized_int(1), Type::I8);
    assert_eq!(sized_int(2), Type::I16);
    assert_eq!(sized_int(4), Type::I32);
    assert_eq!(sized_int(8), Type::I64);
    assert_eq!(sized_int(16), Type::I128);
    for size in [1, 2, 4, 8, 16] {
        assert_eq!(sized_int(size).bytes(), size as u32);
    }
}

#[test]
fn permissions_of_accesses() {
    assert_eq!(AccessKind::Load.perm(&layout()), 0x34);
    assert_eq!(AccessKind::Store.perm(&layout()), 0x22);
}

#[test]
fn entries_of_accesses() {
    assert_eq!(AccessKind::Load.tlb_offset(&layout()), 0x100);
    assert_eq!(AccessKind::Store.tlb_offset(&layout()), 0x4100);
}

#[test]
fn parts_of_an_address() {
    let layout = layout();
    let addr: u64 = 0x1234_5678_9abc_def0;
    assert_eq!(layout.tlb_entry_size_bits(), 4);
    assert_eq!(layout.tlb_index(addr), 0x3cd);
    assert_eq!(layout.tlb_tag(addr), 0x48_d159_e26a);
    assert_eq!(addr & layout.page_offset_mask(), 0xef0);
    assert_eq!(layout.tlb_index_mask(), 0x3ff0);
    assert_eq!(layout.tlb_tag_mask(), 0x3ff_ffff_ffff);

    // The parts give the address back.
    let page = layout.tlb_tag(addr) * 0x400 + layout.tlb_index(addr);
    assert_eq!(page * 0x1000 + 0xef0, addr);
}

#[test]
fn narrow_tags_drop_the_top_of_an_address() {
    let layout = MemLayout { tlb_tag_bits: 10, ..layout() };
    assert_eq!(layout.tlb_tag(0xffff_ffff_ffff_ffff), 0x3ff);
    assert_eq!(layout.tlb_tag(0x1_0040_0000), layout.tlb_tag(0x40_0000));
}

#[test]
fn sizes_of_operands() {
    let var = pcode::VarNode { id: 3, offset: 1, size: 4 };
    assert_eq!(pcode::Value::Var(var).size(), 4);
    assert_eq!(pcode::Value::Const(0x100, 8).size(), 8);
}
