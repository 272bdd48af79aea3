//! An interpreter for function bodies: the reference machine, made to run.

use crate::ir::{BinaryOp, Block, FuncId, Function, Inst, PoolRange, Type, Value};
use crate::machine::{
    address, binary, bits, exec, Frame, Heap, HEAP_BASE, in_pool, mask, operand_values, Outcome,
    select_case, step, Step, Trap,
};
use crate::module::Module;
use std::collections::HashMap;
use vstd::prelude::*;

verus! {

broadcast use vstd::std_specs::hash::group_hash_axioms;

/// The memory of the machine.
pub struct Memory {
    cells: HashMap<u64, u64>,
    brk: u64,
}

impl View for Memory {
    type V = Heap;

    closed spec fn view(&self) -> Heap {
        Heap { cells: self.cells@, brk: self.brk }
    }
}

/// `x` cut to the width of `ty`.
pub fn cut(ty: Type, x: u64) -> (y: u64)
    ensures
        y == mask(ty, x),
{
    match ty {
        Type::B1 => x & 1,
        Type::I8 => x & 0xff,
        Type::I32 => x & 0xffff_ffff,
        Type::I64 => x,
        Type::F64 => x,
    }
}

fn effective_address(base: u64, index: u64, offset: i32) -> (addr: u64)
    ensures
        addr == address(base, index, offset),
{
    base.wrapping_add(index).wrapping_add(offset as i64 as u64)
}

impl Memory {
    /// The memory in which nothing was allocated yet.
    pub fn new() -> (memory: Memory)
        ensures
            memory@ == Heap::empty(),
    {
        Memory { cells: HashMap::new(), brk: HEAP_BASE }
    }

    /// Allocates `size` bytes and returns their address.
    pub fn allocate(&mut self, size: u64) -> (res: Result<u64, Trap>)
        ensures
            match old(self)@.allocate(size) {
                Ok((addr, heap)) => res == Ok::<u64, Trap>(addr) && final(self)@ == heap,
                Err(t) => res == Err::<u64, Trap>(t) && final(self)@ == old(self)@,
            },
    {
        if size > u64::MAX - self.brk {
            return Err(Trap::OutOfMemory);
        }
        let addr = self.brk;
        self.brk = self.brk + size;
        Ok(addr)
    }

    /// Reads the cell at `addr` as a value of type `ty`.
    pub fn load(&self, ty: Type, addr: u64) -> (res: Result<u64, Trap>)
        ensures
            res == self@.load(ty, addr),
    {
        match self.cells.get(&addr) {
            Some(x) => Ok(cut(ty, *x)),
            None => Err(Trap::InvalidRead),
        }
    }

    /// Writes the cell at `addr`.
    pub fn store(&mut self, addr: u64, value: u64) -> (res: Result<(), Trap>)
        ensures
            match old(self)@.store(addr, value) {
                Ok(heap) => res is Ok && final(self)@ == heap,
                Err(t) => res == Err::<(), Trap>(t) && final(self)@ == old(self)@,
            },
    {
        if HEAP_BASE <= addr && addr < self.brk {
            self.cells.insert(addr, value);
            Ok(())
        } else {
            Err(Trap::InvalidWrite)
        }
    }
}

/// The cells that a list of writes to slots leaves, a later write winning.
spec fn slot_cells(writes: Seq<(usize, i32, u64)>) -> Map<(usize, i32), u64>
    decreases writes.len(),
{
    if writes.len() == 0 {
        Map::empty()
    } else {
        slot_cells(writes.drop_last()).insert((writes.last().0, writes.last().1), writes.last().2)
    }
}

struct Activation {
    vals: HashMap<usize, u64>,
    vars: HashMap<usize, u64>,
    slots: Vec<(usize, i32, u64)>,
}

impl View for Activation {
    type V = Frame;

    closed spec fn view(&self) -> Frame {
        Frame { vals: self.vals@, vars: self.vars@, slots: slot_cells(self.slots@) }
    }
}

impl Activation {
    fn entry(args: &Vec<u64>) -> (frame: Activation)
        ensures
            frame@ == Frame::entry(args@),
    {
        let mut vals: HashMap<usize, u64> = HashMap::new();
        let mut i: usize = 0;
        while i < args.len()
            invariant
                i <= args@.len(),
                vals@ == Map::<usize, u64>::new(|k: usize| k < i, |k: usize| args@[k as int]),
            decreases args@.len() - i,
        {
            vals.insert(i, args[i]);
            assert(vals@ == Map::<usize, u64>::new(
                |k: usize| k < i + 1,
                |k: usize| args@[k as int],
            ));
            i = i + 1;
        }
        let frame = Activation { vals, vars: HashMap::new(), slots: Vec::new() };
        assert(frame@.vals == Frame::entry(args@).vals);
        frame
    }

    fn get(&self, v: Value) -> (x: Option<u64>)
        ensures
            match x {
                Some(x) => self@.has(v) && self@.val(v) == x,
                None => !self@.has(v),
            },
    {
        match self.vals.get(&v.index) {
            Some(x) => Some(*x),
            None => None,
        }
    }

    fn set(&mut self, dst: Value, x: u64)
        ensures
            final(self)@ == old(self)@.with_val(dst, x),
    {
        self.vals.insert(dst.index, x);
    }

    fn get_var(&self, index: usize) -> (x: Option<u64>)
        ensures
            match x {
                Some(x) => self@.vars.contains_key(index) && self@.vars[index] == x,
                None => !self@.vars.contains_key(index),
            },
    {
        match self.vars.get(&index) {
            Some(x) => Some(*x),
            None => None,
        }
    }

    fn set_var(&mut self, index: usize, x: u64)
        ensures
            final(self)@ == (Frame { vars: old(self)@.vars.insert(index, x), ..old(self)@ }),
    {
        self.vars.insert(index, x);
    }

    fn get_slot(&self, slot: usize, offset: i32) -> (x: Option<u64>)
        ensures
            match x {
                Some(x) => self@.slots.contains_key((slot, offset)) && self@.slots[(slot, offset)]
                    == x,
                None => !self@.slots.contains_key((slot, offset)),
            },
    {
        let mut i: usize = self.slots.len();
        assert(self.slots@.take(i as int) == self.slots@);
        while i > 0
            invariant
                i <= self.slots@.len(),
                slot_cells(self.slots@).contains_key((slot, offset)) == slot_cells(
                    self.slots@.take(i as int),
                ).contains_key((slot, offset)),
                slot_cells(self.slots@).contains_key((slot, offset)) ==> slot_cells(
                    self.slots@,
                )[(slot, offset)] == slot_cells(self.slots@.take(i as int))[(slot, offset)],
            decreases i,
        {
            let ghost prefix = self.slots@.take(i as int);
            assert(prefix.drop_last() == self.slots@.take(i - 1));
            assert(prefix.last() == self.slots@[i - 1]);
            let entry = self.slots[i - 1];
            if entry.0 == slot && entry.1 == offset {
                return Some(entry.2);
            }
            i = i - 1;
        }
        assert(self.slots@.take(0) == Seq::<(usize, i32, u64)>::empty());
        None
    }

    fn set_slot(&mut self, slot: usize, offset: i32, x: u64)
        ensures
            final(self)@ == (Frame {
                slots: old(self)@.slots.insert((slot, offset), x),
                ..old(self)@
            }),
    {
        self.slots.push((slot, offset, x));
        assert(self.slots@.drop_last() == old(self).slots@);
    }
}

/// What one instruction did.
enum Moved {
    Next,
    Goto(Block),
    Return(u64),
    Trap(Trap),
}

/// Whether the interpreter did to the frame and the memory what the machine
/// does.
spec fn moved_as(moved: Moved, model: Step, frame: Frame, heap: Heap) -> bool {
    match model {
        Step::Next(f, h) => moved is Next && frame == f && heap == h,
        Step::Goto(b, f, h) => moved == Moved::Goto(b) && frame == f && heap == h,
        Step::Return(x, h) => moved == Moved::Return(x) && heap == h,
        Step::Trap(t) => moved == Moved::Trap(t),
    }
}

fn find_case(cases: &Vec<(u64, Block)>, range: PoolRange, key: u64, default: Block) -> (block:
    Block)
    requires
        in_pool(range, cases@.len()),
    ensures
        block == select_case(
            cases@.subrange(range.start as int, range.start + range.len),
            0,
            key,
            default,
        ),
{
    let ghost window = cases@.subrange(range.start as int, range.start + range.len);
    let total = cases.len();
    let mut i: usize = 0;
    while i < range.len
        invariant
            i <= range.len,
            total == cases@.len(),
            in_pool(range, cases@.len()),
            window == cases@.subrange(range.start as int, range.start + range.len),
            select_case(window, 0, key, default) == select_case(window, i as int, key, default),
        decreases range.len - i,
    {
        let entry = cases[range.start + i];
        assert(window[i as int] == entry);
        if entry.0 == key {
            return entry.1;
        }
        i = i + 1;
    }
    default
}

fn compute(op: BinaryOp, ty: Type, a: u64, b: u64) -> (res: Result<u64, Trap>)
    ensures
        res == binary(op, ty, a, b),
{
    match op {
        BinaryOp::Iadd => Ok(cut(ty, a.wrapping_add(b))),
        BinaryOp::Isub => Ok(cut(ty, a.wrapping_sub(b))),
        BinaryOp::Imul => Ok(cut(ty, a.wrapping_mul(b))),
        BinaryOp::IcmpEq => Ok(
            if cut(ty, a) == cut(ty, b) {
                1
            } else {
                0
            },
        ),
        BinaryOp::Fadd => Err(Trap::FloatArithmetic),
        BinaryOp::Fsub => Err(Trap::FloatArithmetic),
        BinaryOp::FcmpEq => Err(Trap::FloatArithmetic),
    }
}

fn step_inst(function: &Function, inst: Inst, frame: &mut Activation, memory: &mut Memory) -> (moved:
    Moved)
    ensures
        moved_as(
            moved,
            step(function.body(), inst, old(frame)@, old(memory)@),
            final(frame)@,
            final(memory)@,
        ),
{
    match inst {
        Inst::Iconst { dst, ty, imm } => {
            frame.set(dst, cut(ty, imm as u64));
            Moved::Next
        },
        Inst::F64const { dst, bits } => {
            frame.set(dst, bits);
            Moved::Next
        },
        Inst::Bconst { dst, flag } => {
            frame.set(
                dst,
                if flag {
                    1
                } else {
                    0
                },
            );
            Moved::Next
        },
        Inst::Binary { dst, op, ty, lhs, rhs } => {
            let a = match frame.get(lhs) {
                Some(a) => a,
                None => {
                    return Moved::Trap(Trap::UndefinedValue);
                },
            };
            let b = match frame.get(rhs) {
                Some(b) => b,
                None => {
                    return Moved::Trap(Trap::UndefinedValue);
                },
            };
            match compute(op, ty, a, b) {
                Ok(x) => {
                    frame.set(dst, x);
                    Moved::Next
                },
                Err(t) => Moved::Trap(t),
            }
        },
        Inst::Ineg { dst, ty, arg } => match frame.get(arg) {
            None => Moved::Trap(Trap::UndefinedValue),
            Some(a) => {
                frame.set(dst, cut(ty, 0u64.wrapping_sub(a)));
                Moved::Next
            },
        },
        Inst::StackStore { value, slot, offset } => match frame.get(value) {
            None => Moved::Trap(Trap::UndefinedValue),
            Some(x) => {
                if slot.index >= function.stack_slots.len() || offset < 0 {
                    Moved::Trap(Trap::InvalidWrite)
                } else {
                    frame.set_slot(slot.index, offset, x);
                    Moved::Next
                }
            },
        },
        Inst::StackLoad { dst, ty, slot, offset } => match frame.get_slot(slot.index, offset) {
            None => Moved::Trap(Trap::InvalidRead),
            Some(x) => {
                frame.set(dst, cut(ty, x));
                Moved::Next
            },
        },
        Inst::StackAddr { dst, ty, slot, offset } => {
            frame.set(dst, cut(ty, offset as i64 as u64));
            Moved::Next
        },
        Inst::Load { dst, ty, addr, offset } => match frame.get(addr) {
            None => Moved::Trap(Trap::UndefinedValue),
            Some(a) => match memory.load(ty, effective_address(a, 0, offset)) {
                Ok(x) => {
                    frame.set(dst, x);
                    Moved::Next
                },
                Err(t) => Moved::Trap(t),
            },
        },
        Inst::Store { value, addr, offset } => {
            let x = match frame.get(value) {
                Some(x) => x,
                None => {
                    return Moved::Trap(Trap::UndefinedValue);
                },
            };
            let a = match frame.get(addr) {
                Some(a) => a,
                None => {
                    return Moved::Trap(Trap::UndefinedValue);
                },
            };
            match memory.store(effective_address(a, 0, offset), x) {
                Ok(_) => Moved::Next,
                Err(t) => Moved::Trap(t),
            }
        },
        Inst::LoadComplex { dst, ty, base, index, offset } => {
            let a = match frame.get(base) {
                Some(a) => a,
                None => {
                    return Moved::Trap(Trap::UndefinedValue);
                },
            };
            let i = match frame.get(index) {
                Some(i) => i,
                None => {
                    return Moved::Trap(Trap::UndefinedValue);
                },
            };
            match memory.load(ty, effective_address(a, i, offset)) {
                Ok(x) => {
                    frame.set(dst, x);
                    Moved::Next
                },
                Err(t) => Moved::Trap(t),
            }
        },
        Inst::StoreComplex { value, base, index, offset } => {
            let x = match frame.get(value) {
                Some(x) => x,
                None => {
                    return Moved::Trap(Trap::UndefinedValue);
                },
            };
            let a = match frame.get(base) {
                Some(a) => a,
                None => {
                    return Moved::Trap(Trap::UndefinedValue);
                },
            };
            let i = match frame.get(index) {
                Some(i) => i,
                None => {
                    return Moved::Trap(Trap::UndefinedValue);
                },
            };
            match memory.store(effective_address(a, i, offset), x) {
                Ok(_) => Moved::Next,
                Err(t) => Moved::Trap(t),
            }
        },
        Inst::FuncAddr { dst, ty, func } => {
            if func.index >= function.func_refs.len() {
                Moved::Trap(Trap::BadFunction)
            } else {
                frame.set(dst, cut(ty, function.func_refs[func.index].index as u64));
                Moved::Next
            }
        },
        Inst::Call { .. } => Moved::Trap(Trap::BadOperands),
        Inst::CallIndirect { .. } => Moved::Trap(Trap::BadOperands),
        Inst::DefVar { var, value } => match frame.get(value) {
            None => Moved::Trap(Trap::UndefinedValue),
            Some(x) => {
                if var.index >= function.variables.len() {
                    Moved::Trap(Trap::UndefinedVariable)
                } else {
                    frame.set_var(var.index, x);
                    Moved::Next
                }
            },
        },
        Inst::UseVar { dst, var } => match frame.get_var(var.index) {
            None => Moved::Trap(Trap::UndefinedVariable),
            Some(x) => {
                frame.set(dst, x);
                Moved::Next
            },
        },
        Inst::Brnz { cond, target } => match frame.get(cond) {
            None => Moved::Trap(Trap::UndefinedValue),
            Some(c) => {
                if c != 0 {
                    Moved::Goto(target)
                } else {
                    Moved::Next
                }
            },
        },
        Inst::Jump { target } => Moved::Goto(target),
        Inst::Switch { cond, cases, default } => match frame.get(cond) {
            None => Moved::Trap(Trap::UndefinedValue),
            Some(c) => {
                if cases.start > function.case_pool.len() || cases.len > function.case_pool.len()
                    - cases.start {
                    Moved::Trap(Trap::BadOperands)
                } else {
                    Moved::Goto(find_case(&function.case_pool, cases, c, default))
                }
            },
        },
        Inst::Return { value } => match frame.get(value) {
            None => Moved::Trap(Trap::UndefinedValue),
            Some(x) => Moved::Return(x),
        },
    }
}

/// The values of the operands in a range of the value pool.
fn operands(function: &Function, range: PoolRange, frame: &Activation) -> (res: Result<
    Vec<u64>,
    Trap,
>)
    ensures
        match res {
            Err(t) => if !in_pool(range, function.body().value_pool.len()) {
                t == Trap::BadOperands
            } else {
                t == Trap::UndefinedValue && operand_values(
                    frame@,
                    function.body().value_pool.subrange(
                        range.start as int,
                        range.start + range.len,
                    ),
                ) is None
            },
            Ok(vals) => in_pool(range, function.body().value_pool.len()) && operand_values(
                frame@,
                function.body().value_pool.subrange(range.start as int, range.start + range.len),
            ) == Some(vals@),
        },
{
    if range.start > function.value_pool.len() || range.len > function.value_pool.len()
        - range.start {
        return Err(Trap::BadOperands);
    }
    let ghost window = function.body().value_pool.subrange(
        range.start as int,
        range.start + range.len,
    );
    let mut vals: Vec<u64> = Vec::new();
    let total = function.value_pool.len();
    let mut i: usize = 0;
    while i < range.len
        invariant
            i <= range.len,
            total == function.value_pool@.len(),
            in_pool(range, function.value_pool@.len()),
            window == function.value_pool@.subrange(range.start as int, range.start + range.len),
            vals@.len() == i,
            forall|j: int| 0 <= j < i ==> frame@.has(#[trigger] window[j]) && vals@[j] == frame@.val(
                window[j],
            ),
        decreases range.len - i,
    {
        let operand = function.value_pool[range.start + i];
        assert(window[i as int] == operand);
        match frame.get(operand) {
            None => {
                return Err(Trap::UndefinedValue);
            },
            Some(x) => {
                vals.push(x);
            },
        }
        i = i + 1;
    }
    assert(vals@ == Seq::new(window.len(), |j: int| frame@.val(window[j])));
    Ok(vals)
}

/// Whether the interpreter came to `res` and left `memory`, as the machine
/// comes to `outcome`.
pub open spec fn ran_as(res: Result<u64, Trap>, memory: Heap, outcome: Outcome) -> bool {
    match outcome {
        Ok((x, heap)) => res == Ok::<u64, Trap>(x) && memory == heap,
        Err(t) => res == Err::<u64, Trap>(t),
    }
}

/// Calls the function `func` of `module` with `args`, on `memory`, with
/// calls nested at most `depth` deep, and returns what the function returns.
/// `malloc` is the allocation primitive. After a trap, `memory` is left as
/// the run left it.
pub fn run(
    module: &Module,
    malloc: FuncId,
    func: FuncId,
    args: &Vec<u64>,
    memory: &mut Memory,
    depth: usize,
) -> (res: Result<u64, Trap>)
    ensures
        ran_as(
            res,
            final(memory)@,
            crate::machine::run(module.program(), malloc, func, args@, old(memory)@, depth as nat),
        ),
    decreases depth,
{
    if func == malloc {
        if args.len() == 1 {
            return memory.allocate(args[0]);
        } else {
            return Err(Trap::ArityMismatch);
        }
    }
    let function = match module.declaration(func) {
        None => {
            return Err(Trap::BadFunction);
        },
        Some(decl) => match &decl.body {
            None => {
                return Err(Trap::UndefinedFunction);
            },
            Some(function) => function,
        },
    };
    let ghost p = module.program();
    let ghost body = function.body();
    assert(p.funcs[func.index as int] == Some(body));
    if depth == 0 {
        return Err(Trap::DepthExceeded);
    }
    if args.len() != function.params {
        return Err(Trap::ArityMismatch);
    }
    if function.block_starts.len() == 0 {
        return Err(Trap::BadBlock);
    }
    let mut pc: usize = match function.block_starts[0] {
        None => {
            return Err(Trap::BadBlock);
        },
        Some(start) => start,
    };
    let mut frame = Activation::entry(args);
    let mut budget: usize = function.insts.len();
    let ghost whole = crate::machine::run(p, malloc, func, args@, old(memory)@, depth as nat);
    proof {
        reveal(exec);
    }
    loop
        invariant
            depth > 0,
            p == module.program(),
            body == function.body(),
            whole == exec(p, malloc, body, pc as int, frame@, memory@, (depth - 1) as nat, budget as nat),
            whole == crate::machine::run(p, malloc, func, args@, old(memory)@, depth as nat),
        decreases budget,
    {
        proof {
            reveal(exec);
        }
        if budget == 0 {
            return Err(Trap::StepLimit);
        }
        if pc >= function.insts.len() {
            return Err(Trap::FellOffEnd);
        }
        let inst = function.insts[pc];
        let moved = match inst {
            Inst::Call { dst, func: callee, args: range } => {
                if callee.index >= function.func_refs.len() {
                    return Err(Trap::BadFunction);
                }
                let vals = match operands(function, range, &frame) {
                    Ok(vals) => vals,
                    Err(t) => {
                        return Err(t);
                    },
                };
                match run(module, malloc, function.func_refs[callee.index], &vals, memory, depth - 1) {
                    Err(t) => {
                        return Err(t);
                    },
                    Ok(x) => {
                        frame.set(dst, x);
                        Moved::Next
                    },
                }
            },
            Inst::CallIndirect { dst, sig, callee, args: range } => {
                let target = match frame.get(callee) {
                    None => {
                        return Err(Trap::UndefinedValue);
                    },
                    Some(addr) => FuncId { index: addr as usize },
                };
                let vals = match operands(function, range, &frame) {
                    Ok(vals) => vals,
                    Err(t) => {
                        return Err(t);
                    },
                };
                match run(module, malloc, target, &vals, memory, depth - 1) {
                    Err(t) => {
                        return Err(t);
                    },
                    Ok(x) => {
                        frame.set(dst, x);
                        Moved::Next
                    },
                }
            },
            _ => step_inst(function, inst, &mut frame, memory),
        };
        match moved {
            Moved::Next => {
                pc = pc + 1;
            },
            Moved::Goto(block) => {
                if block.index >= function.block_starts.len() {
                    return Err(Trap::BadBlock);
                }
                match function.block_starts[block.index] {
                    None => {
                        return Err(Trap::BadBlock);
                    },
                    Some(start) => {
                        pc = start;
                    },
                }
            },
            Moved::Return(x) => {
                return Ok(x);
            },
            Moved::Trap(t) => {
                return Err(t);
            },
        }
        budget = budget - 1;
    }
}

} // verus!
