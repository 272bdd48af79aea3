//! What a function body computes: the reference machine.
//!
//! The machine runs the instructions of a body one after the other. Values
//! are 64-bit patterns; an instruction that works at a narrower type cuts
//! its result to that type. A frame holds the values, the variables and the
//! slots of one activation. Slots are not part of addressable memory: the
//! address of a slot is a token that no load or store accepts. Memory is a
//! heap of cells that only the allocation primitive extends. The machine has
//! no floating-point unit: arithmetic on floating-point values traps.
//!
//! A run is bounded twice: by the depth of calls, which the caller chooses,
//! and, within one activation, by the number of instructions of the body,
//! which is enough for every body without a loop.

use crate::builder::Body;
use crate::ir::{BinaryOp, Block, FuncId, Inst, PoolRange, Type, Value};
use vstd::prelude::*;

verus! {

/// Why a run ends without a result.
#[derive(Clone, Copy, Debug, PartialEq, Eq, Structural)]
pub enum Trap {
    /// The calls are nested deeper than the depth that was given.
    DepthExceeded,
    /// An activation ran more instructions than its body holds.
    StepLimit,
    /// Control ran past the last instruction.
    FellOffEnd,
    /// A value was read that no instruction had defined.
    UndefinedValue,
    /// A variable was read before it was assigned, or is not declared.
    UndefinedVariable,
    /// Control went to a block that does not exist or is empty.
    BadBlock,
    /// A function that does not exist was called or pointed to.
    BadFunction,
    /// A function that was declared and never defined was called.
    UndefinedFunction,
    /// A function was called with another number of arguments than it takes.
    ArityMismatch,
    /// A cell was read that was never written.
    InvalidRead,
    /// A cell outside of allocated memory, or outside of the frame, was
    /// written.
    InvalidWrite,
    /// Floating-point arithmetic.
    FloatArithmetic,
    /// Memory ran out.
    OutOfMemory,
    /// An instruction names a range outside of its pool.
    BadOperands,
}

/// The first address of the heap.
pub const HEAP_BASE: u64 = 0x1000;

/// Memory: the cells written so far, and the end of what was allocated.
pub struct Heap {
    pub cells: Map<u64, u64>,
    pub brk: u64,
}

/// One activation: its values, its variables and the cells of its slots.
pub struct Frame {
    pub vals: Map<usize, u64>,
    pub vars: Map<usize, u64>,
    pub slots: Map<(usize, i32), u64>,
}

/// The functions of a module by number: the body of each that is defined.
pub struct Program {
    pub funcs: Seq<Option<Body>>,
}

/// What a call comes to: a value and the memory it leaves, or a trap.
pub type Outcome = Result<(u64, Heap), Trap>;

/// What one instruction does.
pub enum Step {
    /// Goes on with the next instruction.
    Next(Frame, Heap),
    /// Goes on with the first instruction of a block.
    Goto(Block, Frame, Heap),
    /// Leaves the function.
    Return(u64, Heap),
    Trap(Trap),
}

/// `x` cut to the width of `ty`.
pub open spec fn mask(ty: Type, x: u64) -> u64 {
    match ty {
        Type::B1 => x & 1,
        Type::I8 => x & 0xff,
        Type::I32 => x & 0xffff_ffff,
        Type::I64 => x,
        Type::F64 => x,
    }
}

/// The bits of an immediate operand or of an offset.
pub open spec fn bits(x: i64) -> u64 {
    x as u64
}

impl Heap {
    /// The memory in which nothing was allocated yet.
    pub open spec fn empty() -> Heap {
        Heap { cells: Map::empty(), brk: HEAP_BASE }
    }

    /// Allocates `size` bytes behind all that was allocated before.
    pub open spec fn allocate(self, size: u64) -> Outcome {
        if size > u64::MAX - self.brk {
            Err(Trap::OutOfMemory)
        } else {
            Ok((self.brk, Heap { cells: self.cells, brk: (self.brk + size) as u64 }))
        }
    }

    /// Reads the cell at `addr` as a value of type `ty`.
    pub open spec fn load(self, ty: Type, addr: u64) -> Result<u64, Trap> {
        if self.cells.contains_key(addr) {
            Ok(mask(ty, self.cells[addr]))
        } else {
            Err(Trap::InvalidRead)
        }
    }

    /// Writes the cell at `addr`, which must lie in allocated memory.
    pub open spec fn store(self, addr: u64, value: u64) -> Result<Heap, Trap> {
        if HEAP_BASE <= addr < self.brk {
            Ok(Heap { cells: self.cells.insert(addr, value), brk: self.brk })
        } else {
            Err(Trap::InvalidWrite)
        }
    }
}

impl Frame {
    /// The frame of an activation that was entered with `args`.
    pub open spec fn entry(args: Seq<u64>) -> Frame {
        Frame {
            vals: Map::new(|i: usize| i < args.len(), |i: usize| args[i as int]),
            vars: Map::empty(),
            slots: Map::empty(),
        }
    }

    /// The frame after `dst` was defined as `x`.
    pub open spec fn with_val(self, dst: Value, x: u64) -> Frame {
        Frame { vals: self.vals.insert(dst.index, x), ..self }
    }

    /// Whether the value `v` is defined.
    pub open spec fn has(self, v: Value) -> bool {
        self.vals.contains_key(v.index)
    }

    /// The value `v`.
    pub open spec fn val(self, v: Value) -> u64 {
        self.vals[v.index]
    }
}

/// The address that `base`, `index` and `offset` add up to.
pub open spec fn address(base: u64, index: u64, offset: i32) -> u64 {
    base.wrapping_add(index).wrapping_add(bits(offset as i64))
}

/// What an operation on two values of type `ty` yields.
pub open spec fn binary(op: BinaryOp, ty: Type, a: u64, b: u64) -> Result<u64, Trap> {
    match op {
        BinaryOp::Iadd => Ok(mask(ty, a.wrapping_add(b))),
        BinaryOp::Isub => Ok(mask(ty, a.wrapping_sub(b))),
        BinaryOp::Imul => Ok(mask(ty, a.wrapping_mul(b))),
        BinaryOp::IcmpEq => Ok(
            if mask(ty, a) == mask(ty, b) {
                1u64
            } else {
                0u64
            },
        ),
        BinaryOp::Fadd => Err(Trap::FloatArithmetic),
        BinaryOp::Fsub => Err(Trap::FloatArithmetic),
        BinaryOp::FcmpEq => Err(Trap::FloatArithmetic),
    }
}

/// The token that stands for the address of a frame slot plus `offset`.
pub open spec fn frame_address(ty: Type, offset: i32) -> u64 {
    mask(ty, bits(offset as i64))
}

/// The number that stands for the address of a function.
pub open spec fn func_address(ty: Type, func: FuncId) -> u64 {
    mask(ty, func.index as u64)
}

/// The function that an address stands for.
pub open spec fn func_at(addr: u64) -> FuncId {
    FuncId { index: addr as usize }
}

/// The block that a switch on `key` goes to: that of the first of `cases`
/// from `from` on that equals `key`.
pub open spec fn select_case(cases: Seq<(u64, Block)>, from: int, key: u64, default: Block) -> Block
    decreases cases.len() - from,
{
    if from < 0 || from >= cases.len() {
        default
    } else if cases[from].0 == key {
        cases[from].1
    } else {
        select_case(cases, from + 1, key, default)
    }
}

/// Whether a range lies within a pool of `len` entries.
pub open spec fn in_pool(range: PoolRange, len: nat) -> bool {
    range.start + range.len <= len
}

/// The values of the operands `operands` in `frame`, if all are defined.
pub open spec fn operand_values(frame: Frame, operands: Seq<Value>) -> Option<Seq<u64>> {
    if forall|i: int| 0 <= i < operands.len() ==> frame.has(#[trigger] operands[i]) {
        Some(Seq::new(operands.len(), |i: int| frame.val(operands[i])))
    } else {
        None
    }
}

/// Where the run of `block` starts.
pub open spec fn block_start(body: Body, block: Block) -> Option<int> {
    if block.index < body.block_starts.len() {
        match body.block_starts[block.index as int] {
            Some(start) => Some(start as int),
            None => None,
        }
    } else {
        None
    }
}

/// What a call instruction calls: the value it defines, the function, and
/// the arguments. `None` for an instruction that is no call.
pub open spec fn call_of(body: Body, inst: Inst, frame: Frame) -> Option<
    Result<(Value, FuncId, Seq<u64>), Trap>,
> {
    match inst {
        Inst::Call { dst, func, args } => Some(
            if func.index >= body.func_refs.len() {
                Err(Trap::BadFunction)
            } else if !in_pool(args, body.value_pool.len()) {
                Err(Trap::BadOperands)
            } else {
                match operand_values(
                    frame,
                    body.value_pool.subrange(args.start as int, args.start + args.len),
                ) {
                    None => Err(Trap::UndefinedValue),
                    Some(vals) => Ok((dst, body.func_refs[func.index as int], vals)),
                }
            },
        ),
        Inst::CallIndirect { dst, sig, callee, args } => Some(
            if !frame.has(callee) {
                Err(Trap::UndefinedValue)
            } else if !in_pool(args, body.value_pool.len()) {
                Err(Trap::BadOperands)
            } else {
                match operand_values(
                    frame,
                    body.value_pool.subrange(args.start as int, args.start + args.len),
                ) {
                    None => Err(Trap::UndefinedValue),
                    Some(vals) => Ok((dst, func_at(frame.val(callee)), vals)),
                }
            },
        ),
        _ => None,
    }
}

/// What an instruction that is no call does to the frame and the memory.
pub open spec fn step(body: Body, inst: Inst, frame: Frame, heap: Heap) -> Step {
    match inst {
        Inst::Iconst { dst, ty, imm } => Step::Next(frame.with_val(dst, mask(ty, bits(imm))), heap),
        Inst::F64const { dst, bits } => Step::Next(frame.with_val(dst, bits), heap),
        Inst::Bconst { dst, flag } => Step::Next(
            frame.with_val(
                dst,
                if flag {
                    1u64
                } else {
                    0u64
                },
            ),
            heap,
        ),
        Inst::Binary { dst, op, ty, lhs, rhs } => {
            if !frame.has(lhs) || !frame.has(rhs) {
                Step::Trap(Trap::UndefinedValue)
            } else {
                match binary(op, ty, frame.val(lhs), frame.val(rhs)) {
                    Ok(x) => Step::Next(frame.with_val(dst, x), heap),
                    Err(t) => Step::Trap(t),
                }
            }
        },
        Inst::Ineg { dst, ty, arg } => {
            if !frame.has(arg) {
                Step::Trap(Trap::UndefinedValue)
            } else {
                Step::Next(frame.with_val(dst, mask(ty, 0u64.wrapping_sub(frame.val(arg)))), heap)
            }
        },
        Inst::StackStore { value, slot, offset } => {
            if !frame.has(value) {
                Step::Trap(Trap::UndefinedValue)
            } else if slot.index >= body.stack_slots.len() || offset < 0 {
                Step::Trap(Trap::InvalidWrite)
            } else {
                Step::Next(
                    Frame {
                        slots: frame.slots.insert((slot.index, offset), frame.val(value)),
                        ..frame
                    },
                    heap,
                )
            }
        },
        Inst::StackLoad { dst, ty, slot, offset } => {
            if !frame.slots.contains_key((slot.index, offset)) {
                Step::Trap(Trap::InvalidRead)
            } else {
                Step::Next(frame.with_val(dst, mask(ty, frame.slots[(slot.index, offset)])), heap)
            }
        },
        Inst::StackAddr { dst, ty, slot, offset } => Step::Next(
            frame.with_val(dst, frame_address(ty, offset)),
            heap,
        ),
        Inst::Load { dst, ty, addr, offset } => {
            if !frame.has(addr) {
                Step::Trap(Trap::UndefinedValue)
            } else {
                match heap.load(ty, address(frame.val(addr), 0, offset)) {
                    Ok(x) => Step::Next(frame.with_val(dst, x), heap),
                    Err(t) => Step::Trap(t),
                }
            }
        },
        Inst::Store { value, addr, offset } => {
            if !frame.has(value) || !frame.has(addr) {
                Step::Trap(Trap::UndefinedValue)
            } else {
                match heap.store(address(frame.val(addr), 0, offset), frame.val(value)) {
                    Ok(h) => Step::Next(frame, h),
                    Err(t) => Step::Trap(t),
                }
            }
        },
        Inst::LoadComplex { dst, ty, base, index, offset } => {
            if !frame.has(base) || !frame.has(index) {
                Step::Trap(Trap::UndefinedValue)
            } else {
                match heap.load(ty, address(frame.val(base), frame.val(index), offset)) {
                    Ok(x) => Step::Next(frame.with_val(dst, x), heap),
                    Err(t) => Step::Trap(t),
                }
            }
        },
        Inst::StoreComplex { value, base, index, offset } => {
            if !frame.has(value) || !frame.has(base) || !frame.has(index) {
                Step::Trap(Trap::UndefinedValue)
            } else {
                match heap.store(
                    address(frame.val(base), frame.val(index), offset),
                    frame.val(value),
                ) {
                    Ok(h) => Step::Next(frame, h),
                    Err(t) => Step::Trap(t),
                }
            }
        },
        Inst::FuncAddr { dst, ty, func } => {
            if func.index >= body.func_refs.len() {
                Step::Trap(Trap::BadFunction)
            } else {
                Step::Next(
                    frame.with_val(dst, func_address(ty, body.func_refs[func.index as int])),
                    heap,
                )
            }
        },
        Inst::Call { .. } => Step::Trap(Trap::BadOperands),
        Inst::CallIndirect { .. } => Step::Trap(Trap::BadOperands),
        Inst::DefVar { var, value } => {
            if !frame.has(value) {
                Step::Trap(Trap::UndefinedValue)
            } else if var.index >= body.variables.len() {
                Step::Trap(Trap::UndefinedVariable)
            } else {
                Step::Next(Frame { vars: frame.vars.insert(var.index, frame.val(value)), ..frame }, heap)
            }
        },
        Inst::UseVar { dst, var } => {
            if !frame.vars.contains_key(var.index) {
                Step::Trap(Trap::UndefinedVariable)
            } else {
                Step::Next(frame.with_val(dst, frame.vars[var.index]), heap)
            }
        },
        Inst::Brnz { cond, target } => {
            if !frame.has(cond) {
                Step::Trap(Trap::UndefinedValue)
            } else if frame.val(cond) != 0 {
                Step::Goto(target, frame, heap)
            } else {
                Step::Next(frame, heap)
            }
        },
        Inst::Jump { target } => Step::Goto(target, frame, heap),
        Inst::Switch { cond, cases, default } => {
            if !frame.has(cond) {
                Step::Trap(Trap::UndefinedValue)
            } else if !in_pool(cases, body.case_pool.len()) {
                Step::Trap(Trap::BadOperands)
            } else {
                Step::Goto(
                    select_case(
                        body.case_pool.subrange(cases.start as int, cases.start + cases.len),
                        0,
                        frame.val(cond),
                        default,
                    ),
                    frame,
                    heap,
                )
            }
        },
        Inst::Return { value } => {
            if !frame.has(value) {
                Step::Trap(Trap::UndefinedValue)
            } else {
                Step::Return(frame.val(value), heap)
            }
        },
    }
}

/// What running the body from instruction `pc` on comes to, with `budget`
/// instructions left to this activation and calls nested at most `depth`
/// deep.
#[verifier::opaque]
pub open spec fn exec(
    p: Program,
    malloc: FuncId,
    body: Body,
    pc: int,
    frame: Frame,
    heap: Heap,
    depth: nat,
    budget: nat,
) -> Outcome
    decreases depth, budget + 1,
{
    if budget == 0 {
        Err(Trap::StepLimit)
    } else if !(0 <= pc < body.insts.len()) {
        Err(Trap::FellOffEnd)
    } else {
        match call_of(body, body.insts[pc], frame) {
            Some(Err(t)) => Err(t),
            Some(Ok((dst, func, args))) => match run(p, malloc, func, args, heap, depth) {
                Err(t) => Err(t),
                Ok((x, heap2)) => exec(
                    p,
                    malloc,
                    body,
                    pc + 1,
                    frame.with_val(dst, x),
                    heap2,
                    depth,
                    (budget - 1) as nat,
                ),
            },
            None => match step(body, body.insts[pc], frame, heap) {
                Step::Next(frame2, heap2) => exec(
                    p,
                    malloc,
                    body,
                    pc + 1,
                    frame2,
                    heap2,
                    depth,
                    (budget - 1) as nat,
                ),
                Step::Goto(block, frame2, heap2) => match block_start(body, block) {
                    Some(start) => exec(
                        p,
                        malloc,
                        body,
                        start,
                        frame2,
                        heap2,
                        depth,
                        (budget - 1) as nat,
                    ),
                    None => Err(Trap::BadBlock),
                },
                Step::Return(x, heap2) => Ok((x, heap2)),
                Step::Trap(t) => Err(t),
            },
        }
    }
}

/// What calling the function `func` with `args` comes to, with calls nested
/// at most `depth` deep. The allocation primitive `malloc` is not a function
/// of the program: it takes a number of bytes and returns the address of as
/// many fresh bytes.
pub open spec fn run(
    p: Program,
    malloc: FuncId,
    func: FuncId,
    args: Seq<u64>,
    heap: Heap,
    depth: nat,
) -> Outcome
    decreases depth, 0nat,
{
    if func == malloc {
        if args.len() == 1 {
            heap.allocate(args[0])
        } else {
            Err(Trap::ArityMismatch)
        }
    } else if func.index >= p.funcs.len() {
        Err(Trap::BadFunction)
    } else {
        match p.funcs[func.index as int] {
            None => Err(Trap::UndefinedFunction),
            Some(body) => {
                if depth == 0 {
                    Err(Trap::DepthExceeded)
                } else if args.len() != body.params {
                    Err(Trap::ArityMismatch)
                } else {
                    match block_start(body, Block { index: 0 }) {
                        None => Err(Trap::BadBlock),
                        Some(start) => exec(
                            p,
                            malloc,
                            body,
                            start,
                            Frame::entry(args),
                            heap,
                            (depth - 1) as nat,
                            body.insts.len(),
                        ),
                    }
                }
            },
        }
    }
}

} // verus!
