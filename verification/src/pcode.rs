//! The operands and operations of guest code, as far as memory accesses need them.

use vstd::prelude::*;

verus! {

/// A guest variable: `size` bytes of the variable `id`, from byte `offset` on.
#[derive(Clone, Copy, Debug, PartialEq, Eq, Structural)]
pub struct VarNode {
    pub id: i16,
    pub offset: u8,
    pub size: u8,
}

/// An operand: a variable, or a constant of a number of bytes.
#[derive(Clone, Copy, Debug, PartialEq, Eq, Structural)]
pub enum Value {
    Var(VarNode),
    Const(u64, u8),
}

impl Value {
    /// The number of bytes of the operand.
    pub open spec fn bytes(self) -> u8 {
        match self {
            Value::Var(var) => var.size,
            Value::Const(_, size) => size,
        }
    }

    /// The number of bytes of the operand.
    pub fn size(&self) -> (n: u8)
        ensures
            n == self.bytes(),
            self matches Value::Var(var) ==> n == var.size,
            self matches Value::Const(_, size) ==> n == size,
    {
        match self {
            Value::Var(var) => var.size,
            Value::Const(_, size) => *size,
        }
    }
}

/// An operation on the memory space with the given number.
#[derive(Clone, Copy, Debug, PartialEq, Eq, Structural)]
pub enum Op {
    Load(u8),
    Store(u8),
}

/// The operands of an operation.
#[derive(Clone, Copy, Debug, PartialEq, Eq, Structural)]
pub enum Inputs {
    One(Value),
    Two(Value, Value),
}

/// An operation, what it reads and what it writes.
#[derive(Clone, Copy, Debug, PartialEq, Eq, Structural)]
pub struct Instruction {
    pub output: Option<VarNode>,
    pub op: Op,
    pub inputs: Inputs,
}

} // verus!
