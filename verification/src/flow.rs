//! How the runs of generated code compose.

use crate::ir::{Block, Func, Op, Type, Value};
use crate::machine::Machine;
use vstd::prelude::*;

verus! {

impl Func {
    /// Whether every instruction of this function is one of `g`, at the same place.
    pub open spec fn code_in(self, g: Func) -> bool {
        &&& self.blocks.len() <= g.blocks.len()
        &&& forall|i: int|
            #![trigger g.blocks[i]]
            0 <= i < self.blocks.len() ==> {
                &&& g.blocks[i].params == self.blocks[i].params
                &&& self.blocks[i].insts.len() <= g.blocks[i].insts.len()
                &&& forall|j: int|
                    0 <= j < self.blocks[i].insts.len() ==> #[trigger] g.blocks[i].insts[j]
                        == self.blocks[i].insts[j]
            }
    }
}

/// More code does not change a step.
pub proof fn lemma_step_in(f: Func, g: Func, m: Machine)
    requires
        f.code_in(g),
        m.step(f) is Some,
    ensures
        m.step(g) == m.step(f),
{
    let i = m.block.index as int;
    assert(g.blocks[i].insts[m.pc as int] == f.blocks[i].insts[m.pc as int]);
    match f.body(m.block).insts[m.pc as int].op {
        Op::Brnz { target, .. } => {
            if f.is_block(target) {
                assert(g.blocks[target.index as int].params == f.blocks[target.index as int].params);
            }
        },
        Op::BrInt { target, .. } => {
            if f.is_block(target) {
                assert(g.blocks[target.index as int].params == f.blocks[target.index as int].params);
            }
        },
        Op::Jump { target, .. } => {
            if f.is_block(target) {
                assert(g.blocks[target.index as int].params == f.blocks[target.index as int].params);
            }
        },
        _ => {},
    }
}

/// More code does not change a run.
pub proof fn lemma_run_in(f: Func, g: Func, m: Machine, n: nat)
    requires
        f.code_in(g),
        m.run(f, n) is Some,
    ensures
        m.run(g, n) == m.run(f, n),
    decreases n,
{
    if n > 0 {
        lemma_step_in(f, g, m);
        lemma_run_in(f, g, m.step(f)->0, (n - 1) as nat);
    }
}

/// A run of `a` instructions followed by one of `b`.
pub proof fn lemma_run_sum(f: Func, m: Machine, a: nat, b: nat)
    requires
        m.run(f, a) is Some,
    ensures
        m.run(f, a + b) == (m.run(f, a)->0).run(f, b),
    decreases a,
{
    if a > 0 {
        lemma_run_sum(f, m.step(f)->0, (a - 1) as nat, b);
    }
}

/// More code does not change what is reached.
pub proof fn lemma_reaches_in(f: Func, g: Func, m: Machine, m2: Machine)
    requires
        f.code_in(g),
        m.reaches(f, m2),
    ensures
        m.reaches(g, m2),
{
    let n = choose|n: nat| #[trigger] m.run(f, n) == Some(m2);
    lemma_run_in(f, g, m, n);
    assert(m.run(g, n) == Some(m2));
}

/// What is reached from a state that is reached.
pub proof fn lemma_reaches_trans(f: Func, m: Machine, m2: Machine, m3: Machine)
    requires
        m.reaches(f, m2),
        m2.reaches(f, m3),
    ensures
        m.reaches(f, m3),
{
    let a = choose|n: nat| #[trigger] m.run(f, n) == Some(m2);
    let b = choose|n: nat| #[trigger] m2.run(f, n) == Some(m3);
    lemma_run_sum(f, m, a, b);
    assert(m.run(f, a + b) == Some(m3));
}

/// One step.
pub proof fn lemma_reaches_step(f: Func, m: Machine, m2: Machine)
    requires
        m.step(f) == Some(m2),
    ensures
        m.reaches(f, m2),
{
    assert(m2.run(f, 0) == Some(m2));
    assert(m.run(f, 1) == Some(m2)) by {
        reveal_with_fuel(Machine::run, 2);
    }
}

/// Inclusion of code is transitive.
pub proof fn lemma_code_in_trans(f: Func, g: Func, h: Func)
    requires
        f.code_in(g),
        g.code_in(h),
    ensures
        f.code_in(h),
{
    assert forall|i: int| 0 <= i < f.blocks.len() implies {
        &&& (#[trigger] h.blocks[i]).params == f.blocks[i].params
        &&& f.blocks[i].insts.len() <= h.blocks[i].insts.len()
        &&& forall|j: int|
            0 <= j < f.blocks[i].insts.len() ==> #[trigger] h.blocks[i].insts[j]
                == f.blocks[i].insts[j]
    } by {
        let body = g.blocks[i];
        assert forall|j: int| 0 <= j < f.blocks[i].insts.len() implies #[trigger] h.blocks[i].insts[j]
            == f.blocks[i].insts[j] by {
            assert(body.insts[j] == f.blocks[i].insts[j]);
        }
    }
}

/// A function that was extended holds the code that it held.
pub proof fn lemma_extends_code_in(f: Func, g: Func)
    requires
        f.extends_to(g),
    ensures
        f.code_in(g),
{
}

/// Whether the code that leads from `f` to `g`, run from `m`, falls through to its end, in the state
/// `m2`.
#[verifier::opaque]
pub open spec fn flows(f: Func, m: Machine, g: Func, m2: Machine) -> bool {
    &&& m.at_end(f)
    &&& m2.at_end(g)
    &&& f.code_in(g)
    &&& f.values.len() <= g.values.len()
    &&& m.reaches(g, m2)
    &&& m.agrees(f, m2)
}

/// Whether the code that leads from `f` to `g`, run from `m`, leaves for the block `target`, in the
/// state `m2`.
#[verifier::opaque]
pub open spec fn leaves(f: Func, m: Machine, g: Func, target: Block, m2: Machine) -> bool {
    &&& m.at_end(f)
    &&& m2.at_start(target)
    &&& f.code_in(g)
    &&& m.reaches(g, m2)
    &&& m.agrees(f, m2)
}

/// Code after which more code follows.
pub proof fn lemma_flows_trans(f: Func, m: Machine, g: Func, m2: Machine, h: Func, m3: Machine)
    requires
        flows(f, m, g, m2),
        flows(g, m2, h, m3),
    ensures
        flows(f, m, h, m3),
{
    reveal(flows);
    lemma_reaches_in(g, h, m, m2);
    lemma_reaches_trans(h, m, m2, m3);
    lemma_code_in_trans(f, g, h);
    assert forall|v: Value| v.index < f.values.len() implies #[trigger] m3.val(v) == m.val(v) by {
        assert(m2.val(v) == m.val(v));
    }
}

/// Code after which other code leaves for a block.
pub proof fn lemma_flows_leaves(
    f: Func,
    m: Machine,
    g: Func,
    m2: Machine,
    h: Func,
    target: Block,
    m3: Machine,
)
    requires
        flows(f, m, g, m2),
        leaves(g, m2, h, target, m3),
    ensures
        leaves(f, m, h, target, m3),
{
    reveal(flows);
    reveal(leaves);
    lemma_reaches_in(g, h, m, m2);
    lemma_reaches_trans(h, m, m2, m3);
    lemma_code_in_trans(f, g, h);
    assert forall|v: Value| v.index < f.values.len() implies #[trigger] m3.val(v) == m.val(v) by {
        assert(m2.val(v) == m.val(v));
    }
}

/// What leaves still leaves when more code follows.
pub proof fn lemma_leaves_in(
    f: Func,
    m: Machine,
    g: Func,
    h: Func,
    target: Block,
    m2: Machine,
)
    requires
        leaves(f, m, g, target, m2),
        g.code_in(h),
    ensures
        leaves(f, m, h, target, m2),
{
    reveal(leaves);
    lemma_reaches_in(g, h, m, m2);
    lemma_code_in_trans(f, g, h);
}

impl Op {
    /// Whether the operation defines a value that the machine can compute.
    pub open spec fn computes(self) -> bool {
        match self {
            Op::Iconst { .. }
            | Op::BandImm { .. }
            | Op::UshrImm { .. }
            | Op::IshlImm { .. }
            | Op::Iadd { .. }
            | Op::Band { .. }
            | Op::Bor { .. }
            | Op::Iconcat { .. }
            | Op::Load { .. } => true,
            _ => false,
        }
    }
}

/// The run of an instruction that defines a value.
pub proof fn lemma_flow_define(f: Func, m: Machine, op: Op, ty: Type)
    requires
        m.at_end(f),
        f.room(1),
        op.computes(),
    ensures
        flows(f, m, f.define(op, ty), m.set(f.next_value(), m.eval(op)).next()),
{
    reveal(flows);
    let g = f.define(op, ty);
    let m2 = m.set(f.next_value(), m.eval(op)).next();
    assert(m.step(g) == Some(m2));
    lemma_reaches_step(g, m, m2);
}

/// The run of an instruction that defines no value and goes on to the next instruction.
pub proof fn lemma_flow_effect(f: Func, m: Machine, op: Op, m2: Machine)
    requires
        m.at_end(f),
        !(op is Jump),
        m.step(f.effect(op)) == Some(m2),
        m2.block == m.block,
        m2.pc == m.pc + 1,
        m2.env == m.env,
    ensures
        flows(f, m, f.effect(op), m2),
{
    reveal(flows);
    lemma_reaches_step(f.effect(op), m, m2);
}

/// The state in which `m` enters a block without parameters.
pub open spec fn entered(m: Machine, b: Block) -> Machine {
    Machine { block: b, pc: 0, ..m }
}

/// A block without parameters is entered with every value kept.
pub proof fn lemma_enter(f: Func, m: Machine, b: Block)
    requires
        f.is_block(b),
        f.body(b).params.len() == 0,
    ensures
        m.enter(f, b, seq![]) == Some(entered(m, b)),
{
    let params = f.body(b).params;
    assert(m.env.union_prefer_right(
        Map::new(
            |v: Value| params.contains(v),
            |v: Value| m.val(seq![][params.index_of(v)]),
        ),
    ) =~= m.env);
}

/// The run of a jump to a new block.
pub proof fn lemma_flow_jump_next(f: Func, m: Machine)
    requires
        m.at_end(f),
        f.room(2),
    ensures
        flows(f, m, f.jump_next(), entered(m, f.next_block())),
{
    reveal(flows);
    let g = f.jump_next();
    let next = f.next_block();
    let m2 = entered(m, next);
    lemma_enter(g, m, next);
    assert(m.step(g) == Some(m2));
    lemma_reaches_step(g, m, m2);
}

/// The run of a branch that is not taken, and of the jump after it.
pub proof fn lemma_flow_branch(f: Func, m: Machine, op: Op)
    requires
        m.at_end(f),
        f.room(3),
        match op {
            Op::Brnz { cond, .. } => m.val(cond) == 0,
            Op::BrInt { cc, x, y, .. } => (cc is Equal) != (m.val(x) == m.val(y)),
            _ => false,
        },
    ensures
        flows(f, m, f.effect(op).jump_next(), entered(m, f.next_block())),
{
    let g = f.effect(op);
    assert(m.step(g) == Some(m.next()));
    lemma_flow_effect(f, m, op, m.next());
    lemma_flow_jump_next(g, m.next());
    lemma_flows_trans(f, m, g, m.next(), g.jump_next(), entered(m.next(), g.next_block()));
}

/// The run of a branch that is taken.
pub proof fn lemma_leave_branch(f: Func, m: Machine, op: Op, target: Block)
    requires
        m.at_end(f),
        f.room(3),
        f.can_branch(target),
        f.body(target).params.len() == 0,
        match op {
            Op::Brnz { cond, target: t, args } => t == target && args == Seq::<Value>::empty()
                && m.val(cond) != 0,
            Op::BrInt { cc, x, y, target: t, args } => t == target && args
                == Seq::<Value>::empty() && (cc is Equal) == (m.val(x) == m.val(y)),
            _ => false,
        },
    ensures
        leaves(f, m, f.effect(op).jump_next(), target, entered(m, target)),
{
    reveal(leaves);
    let g = f.effect(op);
    let h = g.jump_next();
    let m2 = entered(m, target);
    lemma_enter(h, m, target);
    assert(h.body(m.block).insts[m.pc as int].op == op);
    assert(m.step(h) == Some(m2));
    lemma_reaches_step(h, m, m2);
}

} // verus!
