//! Which memory accesses the generated code makes by itself, and where in the host's memory.

use crate::bytes;
use crate::ir::Type;
use crate::layout::MemLayout;
use crate::machine;
use crate::mem::AccessKind;
use vstd::prelude::*;

verus! {

/// The state that decides about an access: the memory of the host and the address of the
/// translation cache.
pub struct Host {
    pub layout: MemLayout,
    pub mem: spec_fn(u64) -> u8,
    pub tlb: u128,
}

impl Host {
    /// The integer of 64 bits at `addr`.
    pub open spec fn read64(self, addr: u64) -> nat {
        bytes::from_le(machine::bytes_at(self.mem, addr, 8))
    }

    /// The address of the entry of the translation cache for the guest address `addr`.
    pub open spec fn entry_addr(self, kind: AccessKind, addr: u64) -> u64 {
        machine::offset_addr(
            self.tlb as int,
            self.layout.index_of(addr) * self.layout.tlb_entry_size + kind.offset_in_tlb(
                self.layout,
            ),
        )
    }

    /// Whether the entry is for the page of `addr`.
    pub open spec fn is_cached(self, kind: AccessKind, addr: u64) -> bool {
        self.read64(self.entry_addr(kind, addr)) == self.layout.tag_of(addr)
    }

    /// The address of the page's data that the entry gives.
    pub open spec fn page_addr(self, kind: AccessKind, addr: u64) -> nat {
        self.read64(machine::offset_addr(self.entry_addr(kind, addr) as int, 8))
    }

    /// The host address that the guest address `addr` stands for.
    pub open spec fn host_addr(self, kind: AccessKind, addr: u64) -> u64 {
        machine::offset_addr(self.page_addr(kind, addr) as int, self.layout.offset_in_page(addr))
    }

    /// Whether each of the `n` bytes from the host address `host_addr` on has the permissions
    /// `perm`.
    pub open spec fn is_permitted(self, host_addr: u64, n: nat, perm: u8) -> bool {
        forall|i: int|
            0 <= i < n ==> #[trigger] self.perm_bytes(host_addr, n)[i] & perm == perm
    }

    /// The permissions of the `n` bytes from the host address `host_addr` on.
    pub open spec fn perm_bytes(self, host_addr: u64, n: nat) -> Seq<u8> {
        machine::bytes_at(
            self.mem,
            machine::offset_addr(host_addr as int, self.layout.perm_offset as int),
            n,
        )
    }

    /// Whether the page is cached and the access is permitted.
    pub open spec fn is_accessible(self, kind: AccessKind, addr: u64, ty: Type) -> bool {
        &&& self.is_cached(kind, addr)
        &&& self.is_permitted(self.host_addr(kind, addr), ty.size(), kind.required(self.layout))
    }

    /// Whether the generated code makes the access by itself: the address is aligned, the page is
    /// cached and the access is permitted.
    pub open spec fn is_inline(self, kind: AccessKind, addr: u64, ty: Type) -> bool {
        addr as int % ty.size() as int == 0 && self.is_accessible(kind, addr, ty)
    }
}

} // verus!
