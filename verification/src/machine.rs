//! What generated code does when it runs: a machine with one integer per value and a memory of
//! bytes.
//!
//! A load and a store use the little-endian byte order of the host, whatever byte order their flags
//! name.

use crate::bytes;
use crate::ir::{Block, Func, Op, Type, Value};
use vstd::prelude::*;

verus! {

/// The number of 64-bit integers.
pub open spec fn two64() -> int {
    0x1_0000_0000_0000_0000
}

impl Type {
    /// The number of bits of an integer of this type.
    pub open spec fn bits(self) -> int {
        8 * self.size() as int
    }

    /// The largest integer of this type.
    pub open spec fn mask(self) -> u128 {
        match self {
            Type::I8 => 0xff,
            Type::I16 => 0xffff,
            Type::I32 => 0xffff_ffff,
            Type::I64 => 0xffff_ffff_ffff_ffff,
            Type::I128 => u128::MAX,
        }
    }
}

/// A state of the machine: the next instruction, the integers of the values, and the memory.
pub struct Machine {
    pub block: Block,
    pub pc: nat,
    pub env: Map<Value, u128>,
    pub mem: spec_fn(u64) -> u8,
}

/// The address `offset` bytes from `base`.
pub open spec fn offset_addr(base: int, offset: int) -> u64 {
    ((base + offset) % two64()) as u64
}

/// The `n` bytes of `mem` from `addr` on.
pub open spec fn bytes_at(mem: spec_fn(u64) -> u8, addr: u64, n: nat) -> Seq<u8> {
    Seq::new(n, |i: int| mem(offset_addr(addr as int, i)))
}

/// The memory `mem` with `bytes` from `addr` on.
pub open spec fn with_bytes(
    mem: spec_fn(u64) -> u8,
    addr: u64,
    bytes: Seq<u8>,
) -> spec_fn(u64) -> u8 {
    |a: u64|
        {
            let i = (a - addr) % two64();
            if i < bytes.len() {
                bytes[i]
            } else {
                mem(a)
            }
        }
}

impl Machine {
    /// The integer of `v`; zero where `v` has not been defined.
    pub open spec fn val(self, v: Value) -> u128 {
        if self.env.contains_key(v) {
            self.env[v]
        } else {
            0
        }
    }

    /// What an operation that defines a value computes.
    pub open spec fn eval(self, op: Op) -> u128 {
        match op {
            Op::Iconst { ty, imm } => ((imm as u64) as u128) & ty.mask(),
            Op::BandImm { x, imm, .. } => self.val(x) & ((imm as u64) as u128),
            Op::UshrImm { ty, x, imm } => self.val(x) >> ((imm as u64) as int % ty.bits()) as u128,
            Op::IshlImm { ty, x, imm } => (self.val(x) << ((imm as u64) as int % ty.bits())
                as u128) & ty.mask(),
            Op::Iadd { ty, x, y } => ((self.val(x) + self.val(y)) % (ty.mask() + 1)) as u128,
            Op::Band { x, y, .. } => self.val(x) & self.val(y),
            Op::Bor { x, y, .. } => self.val(x) | self.val(y),
            Op::Iconcat { lo, hi } => (self.val(lo) + two64() * self.val(hi)) as u128,
            Op::Load { ty, addr, offset, .. } => bytes::from_le(
                bytes_at(self.mem, offset_addr(self.val(addr) as int, offset as int), ty.size()),
            ) as u128,
            _ => 0,
        }
    }

    /// The state in which `v` is `x`.
    pub open spec fn set(self, v: Value, x: u128) -> Machine {
        Machine { env: self.env.insert(v, x), ..self }
    }

    /// The state at the next instruction of the block.
    pub open spec fn next(self) -> Machine {
        Machine { pc: self.pc + 1, ..self }
    }

    /// The state at the start of `target`, with the parameters set; there is none where the number
    /// of arguments is wrong.
    pub open spec fn enter(self, f: Func, target: Block, args: Seq<Value>) -> Option<Machine> {
        if f.is_block(target) && f.body(target).params.len() == args.len() {
            Some(
                Machine {
                    block: target,
                    pc: 0,
                    env: self.env.union_prefer_right(
                        Map::new(
                            |v: Value| f.body(target).params.contains(v),
                            |v: Value| self.val(args[f.body(target).params.index_of(v)]),
                        ),
                    ),
                    ..self
                },
            )
        } else {
            None
        }
    }

    /// The state after one instruction. There is none at the end of what has been built, and none
    /// after a call, whose effect is not known here.
    pub open spec fn step(self, f: Func) -> Option<Machine> {
        if f.is_block(self.block) && self.pc < f.body(self.block).insts.len() {
            let inst = f.body(self.block).insts[self.pc as int];
            match inst.op {
                Op::Store { ty, value, addr, offset, .. } => Some(
                    Machine {
                        mem: with_bytes(
                            self.mem,
                            offset_addr(self.val(addr) as int, offset as int),
                            bytes::to_le(self.val(value) as nat, ty.size()),
                        ),
                        ..self.next()
                    },
                ),
                Op::Brnz { cond, target, args } => if self.val(cond) != 0 {
                    self.enter(f, target, args)
                } else {
                    Some(self.next())
                },
                Op::BrInt { cc, x, y, target, args } => if (cc is Equal) == (self.val(x)
                    == self.val(y)) {
                    self.enter(f, target, args)
                } else {
                    Some(self.next())
                },
                Op::Jump { target, args } => self.enter(f, target, args),
                Op::Call { .. } => None,
                Op::Other => None,
                _ => Some(self.set(inst.results[0], self.eval(inst.op)).next()),
            }
        } else {
            None
        }
    }

    /// The state after `n` instructions.
    pub open spec fn run(self, f: Func, n: nat) -> Option<Machine>
        decreases n,
    {
        if n == 0 {
            Some(self)
        } else {
            match self.step(f) {
                Some(next) => next.run(f, (n - 1) as nat),
                None => None,
            }
        }
    }

    /// Whether running `f` from this state leads to `other`.
    pub open spec fn reaches(self, f: Func, other: Machine) -> bool {
        exists|n: nat| #[trigger] self.run(f, n) == Some(other)
    }

    /// Whether this is a state of `f` at which the next instruction is the one to be built next.
    pub open spec fn at_end(self, f: Func) -> bool {
        &&& f.open()
        &&& self.block == f.here()
        &&& self.pc == f.body(f.here()).insts.len()
    }

    /// Whether this is a state at the start of `b`.
    pub open spec fn at_start(self, b: Block) -> bool {
        self.block == b && self.pc == 0
    }

    /// Whether the values of `f` are the same integers in `other`.
    pub open spec fn agrees(self, f: Func, other: Machine) -> bool {
        forall|v: Value| v.index < f.values.len() ==> #[trigger] other.val(v) == self.val(v)
    }

    /// Whether the integer of `v` is one of type `ty`.
    pub open spec fn holds(self, v: Value, ty: Type) -> bool {
        self.val(v) <= ty.mask()
    }
}

} // verus!
