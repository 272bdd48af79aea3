//! The instructions that lowering emits compute what the expression means.
//!
//! The lemmas of this module follow the lowering construct by construct.
//! Each takes a function body `f` that holds all of what lowering the
//! expression emitted, a frame in which every binding of the scope is in
//! place, and enough budget for the instructions of the expression. It shows
//! that the machine, run from where the instructions of the expression start,
//! either traps exactly when evaluating the expression traps, or comes to
//! where the instructions end, with the value of the expression in place and
//! the memory that evaluating leaves, having left alone all that was in the
//! frame before.

use crate::builder::Body;
use crate::expr::Expr;
use crate::growth::{
    fits, grows, lemma_grows_def, lemma_grows_steps, lemma_starts_with_index,
    lemma_starts_with_trans, sizes_le, starts_with,
};
use crate::ir::{Block, FuncId, Inst, Type, Value};
use crate::lowered::{Context, lower_expr};
use crate::machine::{
    bits, block_start, call_of, exec, Frame, Heap, mask, Outcome, Program, step, Step, Trap,
};
use crate::meaning::{Binding, eval};
use crate::scope::ScopeEntry;
use crate::sound_cond::lemma_cond_sound;
use crate::sound_data::{lemma_array_sound, lemma_str_sound, lemma_struct_sound};
use crate::sound_named::lemma_call_sound;
use crate::sound_pointer::lemma_pointer_call_sound;
use crate::sound_store::lemma_store_sound;
use crate::sound_switch::lemma_switch_sound;
use crate::symbol::Symbol;
use vstd::prelude::*;

verus! {

/// Whether the body `f` holds all of the body `st`: what was emitted,
/// declared and imported, in place, and every block that was begun, where it
/// was begun.
pub open spec fn holds(f: Body, st: Body) -> bool {
    &&& starts_with(f.insts, st.insts)
    &&& starts_with(f.value_types, st.value_types)
    &&& starts_with(f.stack_slots, st.stack_slots)
    &&& starts_with(f.variables, st.variables)
    &&& starts_with(f.func_refs, st.func_refs)
    &&& starts_with(f.sig_refs, st.sig_refs)
    &&& starts_with(f.value_pool, st.value_pool)
    &&& starts_with(f.case_pool, st.case_pool)
    &&& st.block_starts.len() <= f.block_starts.len()
    &&& forall|i: int|
        0 <= i < st.block_starts.len() && (#[trigger] st.block_starts[i]) is Some
            ==> f.block_starts[i] == st.block_starts[i]
}

/// What a body holds, it holds of every body that the held body grew from.
pub proof fn lemma_holds_grown(f: Body, a: Body, b: Body)
    requires
        holds(f, b),
        grows(a, b),
    ensures
        holds(f, a),
{
    lemma_starts_with_trans(f.insts, b.insts, a.insts);
    lemma_starts_with_trans(f.value_types, b.value_types, a.value_types);
    lemma_starts_with_trans(f.stack_slots, b.stack_slots, a.stack_slots);
    lemma_starts_with_trans(f.variables, b.variables, a.variables);
    lemma_starts_with_trans(f.func_refs, b.func_refs, a.func_refs);
    lemma_starts_with_trans(f.sig_refs, b.sig_refs, a.sig_refs);
    lemma_starts_with_trans(f.value_pool, b.value_pool, a.value_pool);
    lemma_starts_with_trans(f.case_pool, b.case_pool, a.case_pool);
    assert forall|i: int|
        0 <= i < a.block_starts.len() && (#[trigger] a.block_starts[i]) is Some implies f.block_starts[i]
        == a.block_starts[i] by {
        lemma_starts_with_index(b.block_starts, a.block_starts, i);
        assert(b.block_starts[i] is Some);
    }
}

/// A body that holds a body in which a block was just begun holds the body
/// before the block was begun, if the block had not been begun before; and
/// the block begins in it where the instructions ended then.
pub proof fn lemma_holds_begun(f: Body, a: Body, block: Block)
    requires
        holds(f, a.at_block(block)),
        block.index < a.block_starts.len(),
        a.block_starts[block.index as int] is None,
        fits(f),
    ensures
        holds(f, a),
        block_start(f, block) == Some(a.insts.len() as int),
{
    let b = a.at_block(block);
    assert(b.block_starts[block.index as int] is Some);
    assert forall|i: int|
        0 <= i < a.block_starts.len() && (#[trigger] a.block_starts[i]) is Some implies f.block_starts[i]
        == a.block_starts[i] by {
        assert(b.block_starts[i] == a.block_starts[i]);
        assert(b.block_starts[i] is Some);
    }
}

/// Whether the frame `after` has all that `before` has of the values and the
/// slots that the body `st` knows.
pub open spec fn keeps(before: Frame, after: Frame, st: Body) -> bool {
    &&& forall|i: usize|
        i < st.value_types.len() ==> (#[trigger] after.vals.contains_key(i))
            == before.vals.contains_key(i) && after.vals[i] == before.vals[i]
    &&& forall|slot: usize, offset: i32|
        slot < st.stack_slots.len() ==> (#[trigger] after.slots.contains_key((slot, offset)))
            == before.slots.contains_key((slot, offset)) && after.slots[(slot, offset)]
            == before.slots[(slot, offset)]
}

/// Keeping is transitive along a growing body.
pub proof fn lemma_keeps_trans(a: Frame, b: Frame, c: Frame, st: Body, st2: Body)
    requires
        keeps(a, b, st),
        keeps(b, c, st2),
        sizes_le(st, st2),
    ensures
        keeps(a, c, st),
{
    assert forall|i: usize| i < st.value_types.len() implies (#[trigger] c.vals.contains_key(i))
        == a.vals.contains_key(i) && c.vals[i] == a.vals[i] by {
        assert(b.vals.contains_key(i) == a.vals.contains_key(i));
    }
    assert forall|slot: usize, offset: i32| slot < st.stack_slots.len() implies (
    #[trigger] c.slots.contains_key((slot, offset))) == a.slots.contains_key((slot, offset))
        && c.slots[(slot, offset)] == a.slots[(slot, offset)] by {
        assert(b.slots.contains_key((slot, offset)) == a.slots.contains_key((slot, offset)));
    }
}

/// Whether what a binding refers to is in place in `frame`.
pub open spec fn entry_ok(entry: ScopeEntry, frame: Frame, st: Body) -> bool {
    match entry {
        ScopeEntry::Stack { expr_type, slot } => slot.index < st.stack_slots.len()
            && frame.slots.contains_key((slot.index, 0)),
        ScopeEntry::Heap { expr_type, ptr } => ptr.index < st.value_types.len() && frame.has(ptr),
        ScopeEntry::Arg { expr_type, param } => param.index < st.value_types.len() && frame.has(
            param,
        ),
        ScopeEntry::Func { .. } => true,
    }
}

/// Whether what the bindings of `scope` refer to is in place in `frame`.
pub open spec fn scope_ok(scope: Map<Symbol, ScopeEntry>, frame: Frame, st: Body) -> bool {
    forall|s: Symbol| scope.contains_key(s) ==> entry_ok(#[trigger] scope[s], frame, st)
}

/// What a binding of the scope stands for in `frame`.
pub open spec fn resolved(entry: ScopeEntry, frame: Frame) -> Binding {
    match entry {
        ScopeEntry::Stack { expr_type, slot } => Binding::Value(
            mask(expr_type, frame.slots[(slot.index, 0)]),
        ),
        ScopeEntry::Heap { expr_type, ptr } => Binding::Deref { addr: frame.val(ptr), ty: expr_type },
        ScopeEntry::Arg { expr_type, param } => Binding::Value(frame.val(param)),
        ScopeEntry::Func { sig, func_id } => Binding::Func(func_id),
    }
}

/// What the bindings of `scope` stand for in `frame`.
pub open spec fn resolve(scope: Map<Symbol, ScopeEntry>, frame: Frame) -> Map<Symbol, Binding> {
    Map::new(|s: Symbol| scope.contains_key(s), |s: Symbol| resolved(scope[s], frame))
}

/// A frame that keeps what the body knew keeps what the bindings stand for.
pub proof fn lemma_resolve_kept(
    scope: Map<Symbol, ScopeEntry>,
    before: Frame,
    after: Frame,
    st: Body,
    st2: Body,
)
    requires
        scope_ok(scope, before, st),
        keeps(before, after, st),
        sizes_le(st, st2),
    ensures
        resolve(scope, after) == resolve(scope, before),
        scope_ok(scope, after, st2),
{
    assert forall|s: Symbol| scope.contains_key(s) implies resolved(scope[s], after) == resolved(
        scope[s],
        before,
    ) && entry_ok(#[trigger] scope[s], after, st2) by {
        assert(entry_ok(scope[s], before, st));
        match scope[s] {
            ScopeEntry::Stack { expr_type, slot } => {
                assert(after.slots.contains_key((slot.index, 0i32)));
            },
            ScopeEntry::Heap { expr_type, ptr } => {
                assert(after.vals.contains_key(ptr.index));
            },
            ScopeEntry::Arg { expr_type, param } => {
                assert(after.vals.contains_key(param.index));
            },
            ScopeEntry::Func { .. } => {},
        }
    }
    assert(resolve(scope, after) =~= resolve(scope, before));
}

/// Whether the machine is ready to run the instructions that lowering
/// emitted between the bodies `st` and `st2`.
pub open spec fn ready(
    scope: Map<Symbol, ScopeEntry>,
    st: Body,
    st2: Body,
    f: Body,
    frame: Frame,
    budget: nat,
) -> bool {
    &&& st.filling
    &&& holds(f, st2)
    &&& fits(f)
    &&& scope_ok(scope, frame, st)
    &&& budget >= st2.insts.len() - st.insts.len()
}

/// Whether running `f` from the end of `st` does what `outcome` says: it
/// traps as `outcome` does, or it comes to the end of `st2` with the frame
/// `out.0`, after at most `out.1` instructions, with the value of `outcome`
/// in `v` and its memory.
pub open spec fn simulates(
    p: Program,
    malloc: FuncId,
    f: Body,
    st: Body,
    st2: Body,
    v: Value,
    frame: Frame,
    heap: Heap,
    depth: nat,
    budget: nat,
    outcome: Outcome,
    out: (Frame, nat),
) -> bool {
    match outcome {
        Err(t) => exec(p, malloc, f, st.insts.len() as int, frame, heap, depth, budget) == Err::<
            (u64, Heap),
            Trap,
        >(t),
        Ok((x, heap2)) => {
            &&& exec(p, malloc, f, st.insts.len() as int, frame, heap, depth, budget) == exec(
                p,
                malloc,
                f,
                st2.insts.len() as int,
                out.0,
                heap2,
                depth,
                (budget - out.1) as nat,
            )
            &&& out.1 <= st2.insts.len() - st.insts.len()
            &&& out.0.has(v)
            &&& out.0.val(v) == x
            &&& v.index < st2.value_types.len()
            &&& keeps(frame, out.0, st)
        },
    }
}

/// The instruction that was emitted last into a body that `f` holds is in
/// `f` where it was emitted.
pub proof fn lemma_inst_at(f: Body, st: Body, inst: Inst)
    requires
        holds(f, st.with_inst(inst)),
    ensures
        st.insts.len() < f.insts.len(),
        f.insts[st.insts.len() as int] == inst,
        holds(f, st),
{
    let st2 = st.with_inst(inst);
    lemma_starts_with_index(f.insts, st2.insts, st.insts.len() as int);
    lemma_grows_steps(st);
    lemma_holds_grown(f, st, st2);
}

/// One instruction that goes on with the next.
pub proof fn lemma_next_step(
    p: Program,
    malloc: FuncId,
    f: Body,
    pc: int,
    frame: Frame,
    heap: Heap,
    depth: nat,
    budget: nat,
    frame2: Frame,
    heap2: Heap,
)
    requires
        budget >= 1,
        0 <= pc < f.insts.len(),
        call_of(f, f.insts[pc], frame) is None,
        step(f, f.insts[pc], frame, heap) == Step::Next(frame2, heap2),
    ensures
        exec(p, malloc, f, pc, frame, heap, depth, budget) == exec(
            p,
            malloc,
            f,
            pc + 1,
            frame2,
            heap2,
            depth,
            (budget - 1) as nat,
        ),
{
    reveal(exec);
}

/// One instruction that goes to a block.
pub proof fn lemma_goto_step(
    p: Program,
    malloc: FuncId,
    f: Body,
    pc: int,
    frame: Frame,
    heap: Heap,
    depth: nat,
    budget: nat,
    block: Block,
    target: int,
)
    requires
        budget >= 1,
        0 <= pc < f.insts.len(),
        call_of(f, f.insts[pc], frame) is None,
        step(f, f.insts[pc], frame, heap) == Step::Goto(block, frame, heap),
        block_start(f, block) == Some(target),
    ensures
        exec(p, malloc, f, pc, frame, heap, depth, budget) == exec(
            p,
            malloc,
            f,
            target,
            frame,
            heap,
            depth,
            (budget - 1) as nat,
        ),
{
    reveal(exec);
}

/// One instruction that traps.
pub proof fn lemma_trapped_step(
    p: Program,
    malloc: FuncId,
    f: Body,
    pc: int,
    frame: Frame,
    heap: Heap,
    depth: nat,
    budget: nat,
    t: Trap,
)
    requires
        budget >= 1,
        0 <= pc < f.insts.len(),
        call_of(f, f.insts[pc], frame) is None,
        step(f, f.insts[pc], frame, heap) == Step::Trap(t),
    ensures
        exec(p, malloc, f, pc, frame, heap, depth, budget) == Err::<(u64, Heap), Trap>(t),
{
    reveal(exec);
}

/// One instruction that defines a value and goes on.
pub proof fn lemma_def_step(
    p: Program,
    malloc: FuncId,
    f: Body,
    st: Body,
    ty: Type,
    make: spec_fn(Value) -> Inst,
    frame: Frame,
    heap: Heap,
    depth: nat,
    budget: nat,
    x: u64,
)
    requires
        holds(f, st.with_def(ty, make)),
        fits(f),
        budget >= 1,
        call_of(f, make(st.next_value()), frame) is None,
        step(f, make(st.next_value()), frame, heap) == Step::Next(
            frame.with_val(st.next_value(), x),
            heap,
        ),
    ensures
        exec(p, malloc, f, st.insts.len() as int, frame, heap, depth, budget) == exec(
            p,
            malloc,
            f,
            st.insts.len() as int + 1,
            frame.with_val(st.next_value(), x),
            heap,
            depth,
            (budget - 1) as nat,
        ),
        keeps(frame, frame.with_val(st.next_value(), x), st),
        st.next_value().index == st.value_types.len(),
        st.with_def(ty, make).insts.len() == st.insts.len() + 1,
        st.with_def(ty, make).value_types.len() == st.value_types.len() + 1,
        holds(f, st),
{
    reveal(exec);
    let st1 = st.with_value(ty);
    lemma_inst_at(f, st1, make(st.next_value()));
    lemma_grows_steps(st);
    lemma_holds_grown(f, st, st1);
}

/// One instruction that traps.
pub proof fn lemma_trap_step(
    p: Program,
    malloc: FuncId,
    f: Body,
    st: Body,
    ty: Type,
    make: spec_fn(Value) -> Inst,
    frame: Frame,
    heap: Heap,
    depth: nat,
    budget: nat,
    t: Trap,
)
    requires
        holds(f, st.with_def(ty, make)),
        budget >= 1,
        call_of(f, make(st.next_value()), frame) is None,
        step(f, make(st.next_value()), frame, heap) == Step::Trap(t),
    ensures
        exec(p, malloc, f, st.insts.len() as int, frame, heap, depth, budget) == Err::<
            (u64, Heap),
            Trap,
        >(t),
{
    reveal(exec);
    let st1 = st.with_value(ty);
    lemma_inst_at(f, st1, make(st.next_value()));
}


/// Whether `expr` can be lowered from `st` on and the machine is ready to
/// run its instructions in `f`.
pub open spec fn expr_ready(
    cx: Context,
    scope: Map<Symbol, ScopeEntry>,
    st: Body,
    expr: Expr,
    f: Body,
    frame: Frame,
    budget: nat,
) -> bool {
    &&& lower_expr(cx, scope, st, expr) is Ok
    &&& ready(scope, st, lower_expr(cx, scope, st, expr)->Ok_0.0, f, frame, budget)
}

/// Whether running the instructions of `expr` in `f` does what evaluating
/// `expr` comes to.
pub open spec fn expr_sound(
    cx: Context,
    p: Program,
    scope: Map<Symbol, ScopeEntry>,
    st: Body,
    expr: Expr,
    f: Body,
    frame: Frame,
    heap: Heap,
    depth: nat,
    budget: nat,
    out: (Frame, nat),
) -> bool {
    simulates(
        p,
        cx.malloc,
        f,
        st,
        lower_expr(cx, scope, st, expr)->Ok_0.0,
        lower_expr(cx, scope, st, expr)->Ok_0.1,
        frame,
        heap,
        depth,
        budget,
        eval(cx, p, resolve(scope, frame), expr, heap, depth),
        out,
    )
}

/// The instruction of a literal defines the value of the literal.
pub proof fn lemma_literal_sound(
    cx: Context,
    p: Program,
    scope: Map<Symbol, ScopeEntry>,
    st: Body,
    expr: Expr,
    f: Body,
    frame: Frame,
    heap: Heap,
    depth: nat,
    budget: nat,
) -> (out: (Frame, nat))
    requires
        expr_ready(cx, scope, st, expr, f, frame, budget),
        expr is Int || expr is Float || expr is Bool || expr is Byte,
    ensures
        expr_sound(cx, p, scope, st, expr, f, frame, heap, depth, budget, out),
{
    let malloc = cx.malloc;
    let dst = st.next_value();
    match expr {
        Expr::Int(num) => {
            let make = |dst: Value| Inst::Iconst { dst, ty: Type::I64, imm: num };
            let x = mask(Type::I64, bits(num));
            lemma_def_step(p, malloc, f, st, Type::I64, make, frame, heap, depth, budget, x);
            (frame.with_val(dst, x), 1)
        },
        Expr::Float(b) => {
            let make = |dst: Value| Inst::F64const { dst, bits: b };
            lemma_def_step(p, malloc, f, st, Type::F64, make, frame, heap, depth, budget, b);
            (frame.with_val(dst, b), 1)
        },
        Expr::Bool(flag) => {
            let make = |dst: Value| Inst::Bconst { dst, flag };
            let x = if flag {
                1u64
            } else {
                0u64
            };
            lemma_def_step(p, malloc, f, st, Type::B1, make, frame, heap, depth, budget, x);
            (frame.with_val(dst, x), 1)
        },
        Expr::Byte(val) => {
            let make = |dst: Value| Inst::Iconst { dst, ty: Type::I8, imm: val as i64 };
            let x = mask(Type::I8, bits(val as i64));
            lemma_def_step(p, malloc, f, st, Type::I8, make, frame, heap, depth, budget, x);
            (frame.with_val(dst, x), 1)
        },
        _ => (frame, 0),
    }
}

/// The instruction of a load reads what the binding stands for.
pub proof fn lemma_load_sound(
    cx: Context,
    p: Program,
    scope: Map<Symbol, ScopeEntry>,
    st: Body,
    expr: Expr,
    f: Body,
    frame: Frame,
    heap: Heap,
    depth: nat,
    budget: nat,
) -> (out: (Frame, nat))
    requires
        expr_ready(cx, scope, st, expr, f, frame, budget),
        expr is Load,
    ensures
        expr_sound(cx, p, scope, st, expr, f, frame, heap, depth, budget, out),
{
    let malloc = cx.malloc;
    let dst = st.next_value();
    match expr {
        Expr::Load(name) => {
            assert(entry_ok(scope[name], frame, st));
            assert(resolve(scope, frame)[name] == resolved(scope[name], frame));
            match scope[name] {
                ScopeEntry::Stack { expr_type, slot } => {
                    let make = |dst: Value| Inst::StackLoad { dst, ty: expr_type, slot, offset: 0 };
                    let x = mask(expr_type, frame.slots[(slot.index, 0)]);
                    lemma_def_step(p, malloc, f, st, expr_type, make, frame, heap, depth, budget, x);
                    (frame.with_val(dst, x), 1)
                },
                ScopeEntry::Arg { expr_type, param } => (frame, 0),
                ScopeEntry::Heap { expr_type, ptr } => {
                    let make = |dst: Value| Inst::Load { dst, ty: expr_type, addr: ptr, offset: 0 };
                    match heap.load(expr_type, crate::machine::address(frame.val(ptr), 0, 0)) {
                        Ok(x) => {
                            lemma_def_step(
                                p,
                                malloc,
                                f,
                                st,
                                expr_type,
                                make,
                                frame,
                                heap,
                                depth,
                                budget,
                                x,
                            );
                            (frame.with_val(dst, x), 1)
                        },
                        Err(t) => {
                            lemma_trap_step(
                                p,
                                malloc,
                                f,
                                st,
                                expr_type,
                                make,
                                frame,
                                heap,
                                depth,
                                budget,
                                t,
                            );
                            (frame, 0)
                        },
                    }
                },
                ScopeEntry::Func { .. } => (frame, 0),
            }
        },
        _ => (frame, 0),
    }
}

/// The instruction of a function pointer defines the address of the function.
pub proof fn lemma_function_pointer_sound(
    cx: Context,
    p: Program,
    scope: Map<Symbol, ScopeEntry>,
    st: Body,
    expr: Expr,
    f: Body,
    frame: Frame,
    heap: Heap,
    depth: nat,
    budget: nat,
) -> (out: (Frame, nat))
    requires
        expr_ready(cx, scope, st, expr, f, frame, budget),
        expr is FunctionPointer,
    ensures
        expr_sound(cx, p, scope, st, expr, f, frame, heap, depth, budget, out),
{
    let malloc = cx.malloc;
    let dst = st.next_value();
    match expr {
        Expr::FunctionPointer(name) => {
            assert(resolve(scope, frame)[name] == resolved(scope[name], frame));
            match scope[name] {
                ScopeEntry::Func { func_id, sig } => {
                    let func = st.next_func_ref();
                    let ty = cx.cfg.pointer_ty();
                    let st1 = st.with_func_ref(func_id);
                    let make = |dst: Value| Inst::FuncAddr { dst, ty, func };
                    let x = crate::machine::func_address(ty, func_id);
                    lemma_grows_steps(st);
                    lemma_grows_def(st1, ty, make);
                    lemma_holds_grown(f, st1, st1.with_def(ty, make));
                    lemma_starts_with_index(f.func_refs, st1.func_refs, st.func_refs.len() as int);
                    lemma_def_step(p, malloc, f, st1, ty, make, frame, heap, depth, budget, x);
                    (frame.with_val(dst, x), 1)
                },
                _ => (frame, 0),
            }
        },
        _ => (frame, 0),
    }
}

/// The instructions of an expression compute what the expression means.
pub proof fn lemma_expr_sound(
    cx: Context,
    p: Program,
    scope: Map<Symbol, ScopeEntry>,
    st: Body,
    expr: Expr,
    f: Body,
    frame: Frame,
    heap: Heap,
    depth: nat,
    budget: nat,
) -> (out: (Frame, nat))
    requires
        expr_ready(cx, scope, st, expr, f, frame, budget),
    ensures
        expr_sound(cx, p, scope, st, expr, f, frame, heap, depth, budget, out),
    decreases expr, 1nat, 0nat,
{
    match expr {
        Expr::Int(_) | Expr::Float(_) | Expr::Bool(_) | Expr::Byte(_) => lemma_literal_sound(
            cx,
            p,
            scope,
            st,
            expr,
            f,
            frame,
            heap,
            depth,
            budget,
        ),
        Expr::Load(_) => lemma_load_sound(cx, p, scope, st, expr, f, frame, heap, depth, budget),
        Expr::FunctionPointer(_) => lemma_function_pointer_sound(
            cx,
            p,
            scope,
            st,
            expr,
            f,
            frame,
            heap,
            depth,
            budget,
        ),
        Expr::Cond { .. } => lemma_cond_sound(cx, p, scope, st, expr, f, frame, heap, depth, budget),
        Expr::Switch { .. } => lemma_switch_sound(
            cx,
            p,
            scope,
            st,
            expr,
            f,
            frame,
            heap,
            depth,
            budget,
        ),
        Expr::Store(..) => lemma_store_sound(cx, p, scope, st, expr, f, frame, heap, depth, budget),
        Expr::CallByName(..) => lemma_call_sound(cx, p, scope, st, expr, f, frame, heap, depth, budget),
        Expr::CallByPointer(..) => lemma_pointer_call_sound(
            cx,
            p,
            scope,
            st,
            expr,
            f,
            frame,
            heap,
            depth,
            budget,
        ),
        Expr::Struct { .. } => lemma_struct_sound(
            cx,
            p,
            scope,
            st,
            expr,
            f,
            frame,
            heap,
            depth,
            budget,
        ),
        Expr::Str(..) => lemma_str_sound(cx, p, scope, st, expr, f, frame, heap, depth, budget),
        Expr::Array { .. } => lemma_array_sound(cx, p, scope, st, expr, f, frame, heap, depth, budget),
    }
}

} // verus!
