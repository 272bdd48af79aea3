//! What an expression means: the value that it evaluates to, and what it
//! does to memory.
//!
//! The meaning is given by structure, with no mention of blocks, of values
//! in static single assignment form or of frame slots. A binding is a
//! value, an address to read from, or a function. A call of a function means
//! whatever the machine makes of the body of that function: procedures are
//! lowered one by one, and the meaning of one does not look into another.

use crate::expr::Expr;
use crate::fields::{name_bytes, order_by_name};
use crate::ir::{BinaryOp, FuncId, Type};
use crate::layout::Layout;
use crate::lowered::{binary_of, Context, elem_layout_of, field_names, LIST_SET_CAPACITY};
use crate::machine::{
    address, binary, bits, frame_address, func_address, func_at, Heap, mask, Outcome, Program, run,
    Trap,
};
use crate::symbol::{BuiltinOp, Symbol};
use vstd::prelude::*;

verus! {

/// What a symbol stands for when an expression is evaluated.
pub enum Binding {
    /// A value.
    Value(u64),
    /// The value of type `ty` in memory at `addr`.
    Deref { addr: u64, ty: Type },
    /// A function.
    Func(FuncId),
}

/// Several values and the memory that evaluating them leaves.
pub type Outcomes = Result<(Seq<u64>, Heap), Trap>;

/// What allocating `size` bytes comes to.
pub open spec fn allocated(cx: Context, p: Program, size: int, heap: Heap, depth: nat) -> Outcome {
    run(p, cx.malloc, cx.malloc, seq![mask(cx.cfg.pointer_ty(), bits(size as i64))], heap, depth)
}

/// The memory after the sentinel byte was stored at `ptr + offset`.
pub open spec fn terminated(heap: Heap, ptr: u64, offset: int) -> Result<Heap, Trap> {
    heap.store(address(ptr, 0, offset as i32), mask(Type::I8, bits(0)))
}

/// The memory after the bytes from `from` on were stored, each at its index.
pub open spec fn stored_bytes(heap: Heap, bytes: Seq<u8>, from: int, ptr: u64) -> Result<Heap, Trap>
    decreases bytes.len() - from,
{
    if from < 0 || from >= bytes.len() {
        Ok(heap)
    } else {
        match heap.store(address(ptr, 0, from as i32), mask(Type::I8, bits(bytes[from] as i64))) {
            Err(t) => Err(t),
            Ok(heap2) => stored_bytes(heap2, bytes, from + 1, ptr),
        }
    }
}

/// What storing `elem` at `index` of the list at `list` comes to: the list.
pub open spec fn list_set(cx: Context, heap: Heap, list: u64, index: u64, elem: u64, elem_bytes: u32)
    -> Outcome {
    let size = mask(Type::I64, bits(elem_bytes as i64));
    match binary(BinaryOp::Imul, Type::I64, index, size) {
        Err(t) => Err(t),
        Ok(offset) => match heap.store(address(list, offset, 0), elem) {
            Err(t) => Err(t),
            Ok(heap2) => Ok((list, heap2)),
        },
    }
}

/// What evaluating `expr` comes to, under the bindings `env`, on the memory
/// `heap`, in the program `p`, with calls nested at most `depth` deep.
pub open spec fn eval(
    cx: Context,
    p: Program,
    env: Map<Symbol, Binding>,
    expr: Expr,
    heap: Heap,
    depth: nat,
) -> Outcome
    decreases expr, 2nat, 0nat,
{
    match expr {
        Expr::Int(num) => Ok((mask(Type::I64, bits(num)), heap)),
        Expr::Float(b) => Ok((b, heap)),
        Expr::Bool(flag) => Ok(
            (
                if flag {
                    1u64
                } else {
                    0u64
                },
                heap,
            ),
        ),
        Expr::Byte(val) => Ok((mask(Type::I8, bits(val as i64)), heap)),
        Expr::Load(name) => match env[name] {
            Binding::Value(x) => Ok((x, heap)),
            Binding::Deref { addr, ty } => match heap.load(ty, address(addr, 0, 0)) {
                Err(t) => Err(t),
                Ok(x) => Ok((x, heap)),
            },
            Binding::Func(_) => Err(Trap::BadFunction),
        },
        Expr::Store(stores, ret) => match eval_stores(cx, p, env, stores, 0, heap, depth) {
            Err(t) => Err(t),
            Ok((inner, heap2)) => eval(cx, p, inner, *ret, heap2, depth),
        },
        Expr::FunctionPointer(name) => match env[name] {
            Binding::Func(id) => Ok((func_address(cx.cfg.pointer_ty(), id), heap)),
            _ => Err(Trap::BadFunction),
        },
        Expr::CallByName(symbol, args) => eval_call(cx, p, env, symbol, args, heap, depth),
        Expr::CallByPointer(sub_expr, args, layout) => match eval_values(
            cx,
            p,
            env,
            args,
            0,
            Seq::empty(),
            heap,
            depth,
        ) {
            Err(t) => Err(t),
            Ok((vals, heap2)) => match eval(cx, p, env, *sub_expr, heap2, depth) {
                Err(t) => Err(t),
                Ok((callee, heap3)) => run(p, cx.malloc, func_at(callee), vals, heap3, depth),
            },
        },
        Expr::Cond { cond, cond_layout, pass, fail, ret_layout } => match eval(
            cx,
            p,
            env,
            *cond,
            heap,
            depth,
        ) {
            Err(t) => Err(t),
            Ok((c, heap2)) => if c != 0 {
                eval(cx, p, env, *pass, heap2, depth)
            } else {
                eval(cx, p, env, *fail, heap2, depth)
            },
        },
        Expr::Switch { cond, cond_layout, branches, default_branch, ret_layout } => match eval(
            cx,
            p,
            env,
            *cond,
            heap,
            depth,
        ) {
            Err(t) => Err(t),
            Ok((c, heap2)) => eval_selected(cx, p, env, expr, 0, c, heap2, depth),
        },
        Expr::Struct { layout, fields } => match eval_fields(
            cx,
            p,
            env,
            fields,
            order_by_name(field_names(fields@), fields@.len()),
            0,
            heap,
            depth,
        ) {
            Err(t) => Err(t),
            Ok(heap2) => Ok((frame_address(layout.machine_type(cx.cfg), 0), heap2)),
        },
        Expr::Str(text) => {
            let bytes = name_bytes(text);
            match allocated(cx, p, bytes.len() as int + 1, heap, depth) {
                Err(t) => Err(t),
                Ok((ptr, heap2)) => match stored_bytes(heap2, bytes, 0, ptr) {
                    Err(t) => Err(t),
                    Ok(heap3) => match terminated(heap3, ptr, bytes.len() as int) {
                        Err(t) => Err(t),
                        Ok(heap4) => Ok((ptr, heap4)),
                    },
                },
            }
        },
        Expr::Array { elem_layout, elems } => {
            let elem_bytes = elem_layout.size(cx.cfg.pointer_size());
            match allocated(cx, p, (elem_bytes * elems@.len()) as int + 1, heap, depth) {
                Err(t) => Err(t),
                Ok((ptr, heap2)) => match eval_elems(
                    cx,
                    p,
                    env,
                    elems,
                    0,
                    ptr,
                    elem_bytes,
                    heap2,
                    depth,
                ) {
                    Err(t) => Err(t),
                    Ok(heap3) => match terminated(heap3, ptr, (elem_bytes * elems@.len()) as int) {
                        Err(t) => Err(t),
                        Ok(heap4) => Ok((ptr, heap4)),
                    },
                },
            }
        },
    }
}

/// What evaluating the arm that the switch `expr` takes for `key` comes to:
/// that of the first case from `from` on that equals `key`, or the default.
pub open spec fn eval_selected(
    cx: Context,
    p: Program,
    env: Map<Symbol, Binding>,
    expr: Expr,
    from: nat,
    key: u64,
    heap: Heap,
    depth: nat,
) -> Outcome
    decreases expr, 1nat, (if expr is Switch { expr->Switch_branches@.len() - from } else { 0 }),
{
    match expr {
        Expr::Switch { cond, cond_layout, branches, default_branch, ret_layout } => {
            if from >= branches@.len() {
                eval(cx, p, env, *default_branch, heap, depth)
            } else if branches@[from as int].0 == key {
                eval(cx, p, env, branches@[from as int].1, heap, depth)
            } else {
                eval_selected(cx, p, env, expr, from + 1, key, heap, depth)
            }
        },
        _ => Err(Trap::BadOperands),
    }
}

/// What evaluating the bindings of a sequence from `from` on comes to: the
/// bindings in which the body is evaluated, and the memory.
pub open spec fn eval_stores(
    cx: Context,
    p: Program,
    env: Map<Symbol, Binding>,
    stores: Vec<(Symbol, Layout, Expr)>,
    from: nat,
    heap: Heap,
    depth: nat,
) -> Result<(Map<Symbol, Binding>, Heap), Trap>
    decreases stores, 0nat, stores@.len() - from,
{
    if from >= stores@.len() {
        Ok((env, heap))
    } else {
        let (name, layout, init) = stores@[from as int];
        match eval(cx, p, env, init, heap, depth) {
            Err(t) => Err(t),
            Ok((x, heap2)) => eval_stores(
                cx,
                p,
                env.insert(name, Binding::Value(mask(layout.machine_type(cx.cfg), x))),
                stores,
                from + 1,
                heap2,
                depth,
            ),
        }
    }
}

/// What evaluating the expressions of a list from `from` on comes to, from
/// left to right; `done` are the values of the earlier ones.
pub open spec fn eval_values(
    cx: Context,
    p: Program,
    env: Map<Symbol, Binding>,
    exprs: Vec<Expr>,
    from: nat,
    done: Seq<u64>,
    heap: Heap,
    depth: nat,
) -> Outcomes
    decreases exprs, 0nat, exprs@.len() - from,
{
    if from >= exprs@.len() {
        Ok((done, heap))
    } else {
        match eval(cx, p, env, exprs@[from as int], heap, depth) {
            Err(t) => Err(t),
            Ok((x, heap2)) => eval_values(cx, p, env, exprs, from + 1, done.push(x), heap2, depth),
        }
    }
}

/// What evaluating the arguments of a call from `from` on comes to, from
/// left to right; `done` are the values of the earlier ones.
pub open spec fn eval_args(
    cx: Context,
    p: Program,
    env: Map<Symbol, Binding>,
    args: Vec<(Expr, Layout)>,
    from: nat,
    done: Seq<u64>,
    heap: Heap,
    depth: nat,
) -> Outcomes
    decreases args, 0nat, args@.len() - from,
{
    if from >= args@.len() {
        Ok((done, heap))
    } else {
        match eval(cx, p, env, args@[from as int].0, heap, depth) {
            Err(t) => Err(t),
            Ok((x, heap2)) => eval_args(cx, p, env, args, from + 1, done.push(x), heap2, depth),
        }
    }
}

/// What evaluating the elements of an array from `from` on and storing each
/// at its place comes to.
pub open spec fn eval_elems(
    cx: Context,
    p: Program,
    env: Map<Symbol, Binding>,
    elems: Vec<Expr>,
    from: nat,
    ptr: u64,
    elem_bytes: nat,
    heap: Heap,
    depth: nat,
) -> Result<Heap, Trap>
    decreases elems, 0nat, elems@.len() - from,
{
    if from >= elems@.len() {
        Ok(heap)
    } else {
        match eval(cx, p, env, elems@[from as int], heap, depth) {
            Err(t) => Err(t),
            Ok((x, heap2)) => match heap2.store(address(ptr, 0, (elem_bytes * from) as i32), x) {
                Err(t) => Err(t),
                Ok(heap3) => eval_elems(cx, p, env, elems, from + 1, ptr, elem_bytes, heap3, depth),
            },
        }
    }
}

/// What evaluating the fields of a record in the order `order`, from place
/// `from` on, comes to.
pub open spec fn eval_fields(
    cx: Context,
    p: Program,
    env: Map<Symbol, Binding>,
    fields: Vec<(String, Expr)>,
    order: Seq<usize>,
    from: nat,
    heap: Heap,
    depth: nat,
) -> Result<Heap, Trap>
    decreases fields, 0nat, order.len() - from,
{
    if from >= order.len() {
        Ok(heap)
    } else if order[from as int] >= fields@.len() {
        Ok(heap)
    } else {
        match eval(cx, p, env, fields@[order[from as int] as int].1, heap, depth) {
            Err(t) => Err(t),
            Ok((x, heap2)) => eval_fields(cx, p, env, fields, order, from + 1, heap2, depth),
        }
    }
}

/// What a call by name comes to: a built-in operation is computed in place,
/// a function is called with its arguments, evaluated from left to right.
pub open spec fn eval_call(
    cx: Context,
    p: Program,
    env: Map<Symbol, Binding>,
    symbol: Symbol,
    args: Vec<(Expr, Layout)>,
    heap: Heap,
    depth: nat,
) -> Outcome
    decreases args, 1nat, 0nat,
{
    match symbol.builtin() {
        Some(op) => eval_builtin(cx, p, env, op, args, heap, depth),
        None => match env[symbol] {
            Binding::Func(id) => match eval_args(cx, p, env, args, 0, Seq::empty(), heap, depth) {
                Err(t) => Err(t),
                Ok((vals, heap2)) => run(p, cx.malloc, id, vals, heap2, depth),
            },
            _ => Err(Trap::BadFunction),
        },
    }
}

/// What a built-in operation comes to.
pub open spec fn eval_builtin(
    cx: Context,
    p: Program,
    env: Map<Symbol, Binding>,
    op: BuiltinOp,
    args: Vec<(Expr, Layout)>,
    heap: Heap,
    depth: nat,
) -> Outcome
    decreases args, 0nat, args@.len() + 1,
{
    if args@.len() != op.arity() {
        Err(Trap::ArityMismatch)
    } else {
        match op {
            BuiltinOp::IntNeg => match eval(cx, p, env, args@[0].0, heap, depth) {
                Err(t) => Err(t),
                Ok((a, heap2)) => Ok(
                    (mask(args@[0].1.machine_type(cx.cfg), 0u64.wrapping_sub(a)), heap2),
                ),
            },
            BuiltinOp::ListGetUnsafe => match eval_args(
                cx,
                p,
                env,
                args,
                0,
                Seq::empty(),
                heap,
                depth,
            ) {
                Err(t) => Err(t),
                Ok((vals, heap2)) => {
                    let elem = elem_layout_of(args@[0].1).unwrap();
                    let size = mask(Type::I64, bits(elem.size(cx.cfg.pointer_size()) as i64));
                    match binary(BinaryOp::Imul, Type::I64, vals[1], size) {
                        Err(t) => Err(t),
                        Ok(offset) => match heap2.load(
                            elem.machine_type(cx.cfg),
                            address(vals[0], offset, 0),
                        ) {
                            Err(t) => Err(t),
                            Ok(x) => Ok((x, heap2)),
                        },
                    }
                },
            },
            BuiltinOp::ListSet => {
                let elem = elem_layout_of(args@[0].1).unwrap();
                let elem_bytes = elem.size(cx.cfg.pointer_size());
                match allocated(cx, p, (elem_bytes * LIST_SET_CAPACITY) as int + 1, heap, depth) {
                    Err(t) => Err(t),
                    Ok((ptr, heap2)) => match eval_args(
                        cx,
                        p,
                        env,
                        args,
                        1,
                        Seq::empty(),
                        heap2,
                        depth,
                    ) {
                        Err(t) => Err(t),
                        Ok((vals, heap3)) => list_set(
                            cx,
                            heap3,
                            ptr,
                            vals[0],
                            vals[1],
                            elem_bytes as u32,
                        ),
                    },
                }
            },
            BuiltinOp::ListSetInPlace => match eval(cx, p, env, args@[0].0, heap, depth) {
                Err(t) => Err(t),
                Ok((list, heap2)) => match eval_args(
                    cx,
                    p,
                    env,
                    args,
                    1,
                    Seq::empty(),
                    heap2,
                    depth,
                ) {
                    Err(t) => Err(t),
                    Ok((vals, heap3)) => {
                        let elem = elem_layout_of(args@[0].1).unwrap();
                        list_set(
                            cx,
                            heap3,
                            list,
                            vals[0],
                            vals[1],
                            elem.size(cx.cfg.pointer_size()) as u32,
                        )
                    },
                },
            },
            _ => match eval_args(cx, p, env, args, 0, Seq::empty(), heap, depth) {
                Err(t) => Err(t),
                Ok((vals, heap2)) => match binary_of(op, args@[0].1.machine_type(cx.cfg)) {
                    None => Err(Trap::BadOperands),
                    Some((bin, ty, res_ty)) => match binary(bin, ty, vals[0], vals[1]) {
                        Err(t) => Err(t),
                        Ok(x) => Ok((x, heap2)),
                    },
                },
            },
        }
    }
}

} // verus!
