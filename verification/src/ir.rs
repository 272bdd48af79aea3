//! The instruction-level form that procedures are lowered to.
//!
//! A function body is one sequence of instructions. A basic block is a run of
//! that sequence: it starts where the builder switched to it and ends with the
//! first instruction that transfers control. Operand lists of calls and the
//! cases of a switch live in two pools of the function, and an instruction
//! names a range of the pool.

use vstd::prelude::*;

verus! {

/// A machine type.
#[derive(Clone, Copy, Debug, PartialEq, Eq, Structural)]
pub enum Type {
    B1,
    I8,
    I32,
    I64,
    F64,
}

/// A value in static single assignment form: defined once, by a parameter or
/// by one instruction.
#[derive(Clone, Copy, Debug, PartialEq, Eq, Structural)]
pub struct Value {
    pub index: usize,
}

/// A basic block of a function.
#[derive(Clone, Copy, Debug, PartialEq, Eq, Structural)]
pub struct Block {
    pub index: usize,
}

/// A slot in the frame of a function.
#[derive(Clone, Copy, Debug, PartialEq, Eq, Structural)]
pub struct StackSlot {
    pub index: usize,
}

/// A mutable variable of a function.
#[derive(Clone, Copy, Debug, PartialEq, Eq, Structural)]
pub struct Variable {
    pub index: usize,
}

/// A function of a module.
#[derive(Clone, Copy, Debug, PartialEq, Eq, Structural)]
pub struct FuncId {
    pub index: usize,
}

/// A function of the module, as imported into one function body.
#[derive(Clone, Copy, Debug, PartialEq, Eq, Structural)]
pub struct FuncRef {
    pub index: usize,
}

/// A signature, as imported into one function body.
#[derive(Clone, Copy, Debug, PartialEq, Eq, Structural)]
pub struct SigRef {
    pub index: usize,
}

/// A range of one of the pools of a function.
#[derive(Clone, Copy, Debug, PartialEq, Eq, Structural)]
pub struct PoolRange {
    pub start: usize,
    pub len: usize,
}

/// How a call passes its arguments.
#[derive(Clone, Copy, Debug, PartialEq, Eq, Structural)]
pub enum CallConv {
    Fast,
    Tail,
    SystemV,
    WindowsFastcall,
}

/// An operation on two values of one type.
#[derive(Clone, Copy, Debug, PartialEq, Eq, Structural)]
pub enum BinaryOp {
    Iadd,
    Isub,
    Imul,
    IcmpEq,
    Fadd,
    Fsub,
    FcmpEq,
}

/// One instruction. `dst` is the value that the instruction defines.
#[derive(Clone, Copy, Debug, PartialEq, Eq, Structural)]
pub enum Inst {
    /// An integer constant of type `ty`.
    Iconst { dst: Value, ty: Type, imm: i64 },
    /// A 64-bit floating-point constant, given by its bits.
    F64const { dst: Value, bits: u64 },
    /// A boolean constant.
    Bconst { dst: Value, flag: bool },
    /// `lhs op rhs` at type `ty`.
    Binary { dst: Value, op: BinaryOp, ty: Type, lhs: Value, rhs: Value },
    /// The negation of `arg` at type `ty`.
    Ineg { dst: Value, ty: Type, arg: Value },
    /// Writes `value` to a frame slot at `offset`.
    StackStore { value: Value, slot: StackSlot, offset: i32 },
    /// Reads a value of type `ty` from a frame slot at `offset`.
    StackLoad { dst: Value, ty: Type, slot: StackSlot, offset: i32 },
    /// The address of a frame slot plus `offset`, as a value of type `ty`.
    StackAddr { dst: Value, ty: Type, slot: StackSlot, offset: i32 },
    /// Reads a value of type `ty` from memory at `addr + offset`.
    Load { dst: Value, ty: Type, addr: Value, offset: i32 },
    /// Writes `value` to memory at `addr + offset`.
    Store { value: Value, addr: Value, offset: i32 },
    /// Reads a value of type `ty` from memory at `base + index + offset`.
    LoadComplex { dst: Value, ty: Type, base: Value, index: Value, offset: i32 },
    /// Writes `value` to memory at `base + index + offset`.
    StoreComplex { value: Value, base: Value, index: Value, offset: i32 },
    /// The address of a function, as a value of type `ty`.
    FuncAddr { dst: Value, ty: Type, func: FuncRef },
    /// Calls `func` with the values of `args`, a range of the value pool.
    Call { dst: Value, func: FuncRef, args: PoolRange },
    /// Calls the function whose address is `callee`.
    CallIndirect { dst: Value, sig: SigRef, callee: Value, args: PoolRange },
    /// Assigns `value` to a variable.
    DefVar { var: Variable, value: Value },
    /// Reads a variable.
    UseVar { dst: Value, var: Variable },
    /// Goes to `target` if `cond` is not zero, and on to the next instruction
    /// otherwise.
    Brnz { cond: Value, target: Block },
    /// Goes to `target`.
    Jump { target: Block },
    /// Goes to the block of the case that equals `cond`, a range of the case
    /// pool, or to `default` when there is none.
    Switch { cond: Value, cases: PoolRange, default: Block },
    /// Leaves the function with `value`.
    Return { value: Value },
}

impl Inst {
    /// Whether the instruction ends a basic block.
    pub open spec fn is_terminator(self) -> bool {
        self is Jump || self is Switch || self is Return
    }

    /// Whether the instruction ends a basic block.
    pub fn ends_block(&self) -> (b: bool)
        ensures
            b == self.is_terminator(),
    {
        match self {
            Inst::Jump { .. } | Inst::Switch { .. } | Inst::Return { .. } => true,
            _ => false,
        }
    }
}

/// The types of the parameters and results of a function.
#[derive(Debug)]
pub struct Signature {
    pub params: Vec<Type>,
    pub returns: Vec<Type>,
    pub call_conv: CallConv,
}

/// A signature as a mathematical value.
pub struct SignatureView {
    pub params: Seq<Type>,
    pub returns: Seq<Type>,
    pub call_conv: CallConv,
}

impl View for Signature {
    type V = SignatureView;

    open spec fn view(&self) -> SignatureView {
        SignatureView { params: self.params@, returns: self.returns@, call_conv: self.call_conv }
    }
}

impl Clone for Signature {
    fn clone(&self) -> (copy: Signature)
        ensures
            copy@ == self@,
    {
        Signature {
            params: copy_types(&self.params),
            returns: copy_types(&self.returns),
            call_conv: self.call_conv,
        }
    }
}

/// A copy of a list of types.
pub fn copy_types(types: &Vec<Type>) -> (copy: Vec<Type>)
    ensures
        copy@ == types@,
{
    let mut copy: Vec<Type> = Vec::new();
    let mut i: usize = 0;
    while i < types.len()
        invariant
            i <= types@.len(),
            copy@ == types@.take(i as int),
        decreases types@.len() - i,
    {
        copy.push(types[i]);
        assert(types@.take(i + 1) == types@.take(i as int).push(types@[i as int]));
        i = i + 1;
    }
    assert(types@.take(types@.len() as int) == types@);
    copy
}

/// A finished function body.
#[derive(Debug)]
pub struct Function {
    pub signature: Signature,
    /// The instructions of all blocks, each block in one run.
    pub insts: Vec<Inst>,
    /// For each block, where its run starts, once the builder switched to it.
    pub block_starts: Vec<Option<usize>>,
    /// The type of each value. The first values are the parameters.
    pub value_types: Vec<Type>,
    /// How many of the values are parameters.
    pub params: usize,
    /// The size in bytes of each frame slot.
    pub stack_slots: Vec<u32>,
    /// The type of each variable.
    pub variables: Vec<Type>,
    /// The functions of the module that the body refers to.
    pub func_refs: Vec<FuncId>,
    /// The signatures that the body refers to.
    pub sig_refs: Vec<Signature>,
    /// The operands of the calls.
    pub value_pool: Vec<Value>,
    /// The cases of the switches.
    pub case_pool: Vec<(u64, Block)>,
}

} // verus!
