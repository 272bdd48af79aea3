//! Calls compute what they mean.

use crate::builder::Body;
use crate::expr::Expr;
use crate::growth::{
    fits, lemma_args_grows, lemma_expr_grows, lemma_grows_def, lemma_grows_steps,
    lemma_starts_with_index, lemma_values_grows, sizes_le,
};
use crate::ir::{BinaryOp, FuncId, FuncRef, Inst, PoolRange, Type, Value};
use crate::layout::Layout;
use crate::lowered::{
    Context, lower_args, lower_expr, lower_values, slot_size, with_list_set, with_malloc,
};
use crate::machine::{
    address, binary, bits, exec, Frame, Heap, in_pool, mask, operand_values, Program, run, step,
    Step, Trap,
};
use crate::meaning::{allocated, eval, eval_args, eval_values, list_set};
use crate::scope::ScopeEntry;
use crate::sound::{
    holds, keeps, lemma_def_step, lemma_expr_sound, lemma_holds_grown, lemma_inst_at,
    lemma_keeps_trans, lemma_next_step, lemma_resolve_kept, lemma_trapped_step, ready, resolve,
};
use crate::symbol::Symbol;
use vstd::prelude::*;

verus! {

/// The values of `vs` in `frame`.
pub open spec fn values_of(vs: Seq<Value>, frame: Frame) -> Seq<u64> {
    Seq::new(vs.len(), |i: int| frame.val(vs[i]))
}

/// Whether all of `vs` are defined in `frame` and known to the body `st`.
pub open spec fn defined(vs: Seq<Value>, frame: Frame, st: Body) -> bool {
    forall|i: int|
        0 <= i < vs.len() ==> frame.has(#[trigger] vs[i]) && vs[i].index < st.value_types.len()
}

/// Values that are defined stay what they are in a frame that keeps what the
/// body knew.
pub proof fn lemma_values_kept(vs: Seq<Value>, before: Frame, after: Frame, st: Body, st2: Body)
    requires
        defined(vs, before, st),
        keeps(before, after, st),
        sizes_le(st, st2),
    ensures
        defined(vs, after, st2),
        values_of(vs, after) == values_of(vs, before),
{
    assert forall|i: int| 0 <= i < vs.len() implies after.has(#[trigger] vs[i]) && vs[i].index
        < st2.value_types.len() && after.val(vs[i]) == before.val(vs[i]) by {
        assert(before.has(vs[i]));
        assert(after.vals.contains_key(vs[i].index));
    }
    assert(values_of(vs, after) =~= values_of(vs, before));
}

/// The operands that were added to the pool last are in the pool of a body
/// that holds them, and the machine reads their values.
pub proof fn lemma_operands(f: Body, st: Body, vs: Seq<Value>, frame: Frame)
    requires
        holds(f, st.with_values(vs)),
        fits(f),
        defined(vs, frame, st),
    ensures
        in_pool(st.next_values(vs), f.value_pool.len()),
        f.value_pool.subrange(
            st.next_values(vs).start as int,
            st.next_values(vs).start + st.next_values(vs).len,
        ) == vs,
        operand_values(frame, vs) == Some(values_of(vs, frame)),
        holds(f, st),
{
    let st2 = st.with_values(vs);
    let range = st.next_values(vs);
    lemma_grows_steps(st);
    lemma_holds_grown(f, st, st2);
    assert(f.value_pool.subrange(range.start as int, range.start + range.len) =~= vs) by {
        assert forall|i: int| 0 <= i < vs.len() implies f.value_pool[st.value_pool.len() + i]
            == vs[i] by {
            lemma_starts_with_index(f.value_pool, st2.value_pool, st.value_pool.len() + i);
        }
    }
}

/// One call instruction.
pub proof fn lemma_call_step(
    p: Program,
    malloc: FuncId,
    f: Body,
    st: Body,
    ty: Type,
    func: FuncRef,
    range: PoolRange,
    frame: Frame,
    heap: Heap,
    depth: nat,
    budget: nat,
    callee: FuncId,
    xs: Seq<u64>,
)
    requires
        holds(f, st.with_def(ty, |dst: Value| Inst::Call { dst, func, args: range })),
        fits(f),
        budget >= 1,
        func.index < f.func_refs.len(),
        f.func_refs[func.index as int] == callee,
        in_pool(range, f.value_pool.len()),
        operand_values(
            frame,
            f.value_pool.subrange(range.start as int, range.start + range.len),
        ) == Some(xs),
    ensures
        exec(p, malloc, f, st.insts.len() as int, frame, heap, depth, budget) == (match run(
            p,
            malloc,
            callee,
            xs,
            heap,
            depth,
        ) {
            Err(t) => Err::<(u64, Heap), Trap>(t),
            Ok((x, heap2)) => exec(
                p,
                malloc,
                f,
                st.insts.len() as int + 1,
                frame.with_val(st.next_value(), x),
                heap2,
                depth,
                (budget - 1) as nat,
            ),
        }),
        forall|x: u64| keeps(frame, #[trigger] frame.with_val(st.next_value(), x), st),
        st.next_value().index == st.value_types.len(),
        st.with_def(ty, |dst: Value| Inst::Call { dst, func, args: range }).insts.len()
            == st.insts.len() + 1,
        st.with_def(ty, |dst: Value| Inst::Call { dst, func, args: range }).value_types.len()
            == st.value_types.len() + 1,
        holds(f, st),
{
    reveal(exec);
    let make = |dst: Value| Inst::Call { dst, func, args: range };
    let st1 = st.with_value(ty);
    lemma_inst_at(f, st1, make(st.next_value()));
    lemma_grows_steps(st);
    lemma_holds_grown(f, st, st1);
}

/// The instructions of a call of the allocation primitive allocate.
pub proof fn lemma_malloc_sound(
    cx: Context,
    p: Program,
    st: Body,
    size: int,
    f: Body,
    frame: Frame,
    heap: Heap,
    depth: nat,
    budget: nat,
) -> (out: Frame)
    requires
        st.filling,
        holds(f, with_malloc(cx, st, size as i64).0),
        fits(f),
        budget >= 2,
    ensures
        ({
            let (st2, ptr) = with_malloc(cx, st, size as i64);
            &&& st2.insts.len() == st.insts.len() + 2
            &&& st2.filling
            &&& sizes_le(st, st2)
            &&& holds(f, st)
            &&& match allocated(cx, p, size, heap, depth) {
                Err(t) => exec(p, cx.malloc, f, st.insts.len() as int, frame, heap, depth, budget)
                    == Err::<(u64, Heap), Trap>(t),
                Ok((x, heap2)) => {
                    &&& exec(p, cx.malloc, f, st.insts.len() as int, frame, heap, depth, budget)
                        == exec(
                        p,
                        cx.malloc,
                        f,
                        st2.insts.len() as int,
                        out,
                        heap2,
                        depth,
                        (budget - 2) as nat,
                    )
                    &&& out.has(ptr)
                    &&& out.val(ptr) == x
                    &&& ptr.index < st2.value_types.len()
                    &&& keeps(frame, out, st)
                },
            }
        }),
{
    let malloc = cx.malloc;
    let ptr_ty = cx.cfg.pointer_ty();
    let func = st.next_func_ref();
    let st1 = st.with_func_ref(cx.malloc);
    let make1 = |dst: Value| Inst::Iconst { dst, ty: ptr_ty, imm: size as i64 };
    let (st2, size_arg) = crate::lowered::def(st1, ptr_ty, make1);
    let args = st2.next_values(seq![size_arg]);
    let st3 = st2.with_values(seq![size_arg]);
    let make2 = |dst: Value| Inst::Call { dst, func, args };
    let st4 = st3.with_def(ptr_ty, make2);
    let x1 = mask(ptr_ty, bits(size as i64));
    let frame1 = frame.with_val(size_arg, x1);
    crate::growth::lemma_grows_malloc(cx, st, size as i64);
    lemma_grows_steps(st);
    lemma_grows_def(st1, ptr_ty, make1);
    lemma_grows_steps(st2);
    lemma_grows_def(st3, ptr_ty, make2);
    lemma_holds_grown(f, st3, st4);
    lemma_holds_grown(f, st2, st3);
    lemma_holds_grown(f, st1, st2);
    lemma_starts_with_index(f.func_refs, st1.func_refs, st.func_refs.len() as int);
    lemma_def_step(p, malloc, f, st1, ptr_ty, make1, frame, heap, depth, budget, x1);
    assert(defined(seq![size_arg], frame1, st2));
    lemma_operands(f, st2, seq![size_arg], frame1);
    assert(values_of(seq![size_arg], frame1) =~= seq![x1]);
    lemma_call_step(
        p,
        malloc,
        f,
        st3,
        ptr_ty,
        func,
        args,
        frame1,
        heap,
        depth,
        (budget - 1) as nat,
        cx.malloc,
        seq![x1],
    );
    lemma_holds_grown(f, st, st1);
    lemma_keeps_trans(frame, frame, frame1, st, st1);
    match allocated(cx, p, size, heap, depth) {
        Err(t) => frame,
        Ok((x, heap2)) => {
            let frame2 = frame1.with_val(st3.next_value(), x);
            assert(keeps(frame1, frame2, st3));
            lemma_keeps_trans(frame, frame1, frame2, st, st3);
            assert(frame2.has(st3.next_value()));
            frame2
        },
    }
}

/// The instructions of a store into a list store into the list.
pub proof fn lemma_list_set_sound(
    cx: Context,
    p: Program,
    st: Body,
    list_ptr: Value,
    elem_index: Value,
    elem: Value,
    elem_layout: Layout,
    f: Body,
    frame: Frame,
    heap: Heap,
    depth: nat,
    budget: nat,
) -> (out: Frame)
    requires
        st.filling,
        with_list_set(cx, st, list_ptr, elem_index, elem, elem_layout) is Ok,
        holds(f, with_list_set(cx, st, list_ptr, elem_index, elem, elem_layout)->Ok_0.0),
        fits(f),
        budget >= 3,
        defined(seq![list_ptr, elem_index, elem], frame, st),
    ensures
        ({
            let (st2, v) = with_list_set(cx, st, list_ptr, elem_index, elem, elem_layout)->Ok_0;
            &&& st2.insts.len() == st.insts.len() + 3
            &&& v == list_ptr
            &&& match list_set(
                cx,
                heap,
                frame.val(list_ptr),
                frame.val(elem_index),
                frame.val(elem),
                slot_size(cx, elem_layout)->Some_0,
            ) {
                Err(t) => exec(p, cx.malloc, f, st.insts.len() as int, frame, heap, depth, budget)
                    == Err::<(u64, Heap), Trap>(t),
                Ok((x, heap2)) => {
                    &&& exec(p, cx.malloc, f, st.insts.len() as int, frame, heap, depth, budget)
                        == exec(
                        p,
                        cx.malloc,
                        f,
                        st2.insts.len() as int,
                        out,
                        heap2,
                        depth,
                        (budget - 3) as nat,
                    )
                    &&& out.has(v)
                    &&& out.val(v) == x
                    &&& v.index < st2.value_types.len()
                    &&& keeps(frame, out, st)
                },
            }
        }),
{
    let malloc = cx.malloc;
    let elem_bytes = slot_size(cx, elem_layout)->Some_0;
    let make1 = |dst: Value| Inst::Iconst { dst, ty: Type::I64, imm: elem_bytes as i64 };
    let (st1, elem_size) = crate::lowered::def(st, Type::I64, make1);
    let make2 = |dst: Value|
        Inst::Binary { dst, op: BinaryOp::Imul, ty: Type::I64, lhs: elem_index, rhs: elem_size };
    let (st2, offset) = crate::lowered::def(st1, Type::I64, make2);
    let store = Inst::StoreComplex { value: elem, base: list_ptr, index: offset, offset: 0 };
    let st3 = st2.with_inst(store);
    let x1 = mask(Type::I64, bits(elem_bytes as i64));
    let frame1 = frame.with_val(elem_size, x1);
    assert(frame.has(list_ptr) && frame.has(elem_index) && frame.has(elem)) by {
        let vs = seq![list_ptr, elem_index, elem];
        assert(frame.has(vs[0]) && frame.has(vs[1]) && frame.has(vs[2]));
    }
    assert(list_ptr.index < st.value_types.len() && elem_index.index < st.value_types.len()
        && elem.index < st.value_types.len()) by {
        let vs = seq![list_ptr, elem_index, elem];
        assert(vs[0].index < st.value_types.len() && vs[1].index < st.value_types.len()
            && vs[2].index < st.value_types.len());
    }
    lemma_grows_def(st, Type::I64, make1);
    lemma_grows_def(st1, Type::I64, make2);
    lemma_inst_at(f, st2, store);
    lemma_holds_grown(f, st1, st2);
    lemma_def_step(p, malloc, f, st, Type::I64, make1, frame, heap, depth, budget, x1);
    let x2 = binary(BinaryOp::Imul, Type::I64, frame.val(elem_index), x1)->Ok_0;
    let frame2 = frame1.with_val(offset, x2);
    lemma_def_step(
        p,
        malloc,
        f,
        st1,
        Type::I64,
        make2,
        frame1,
        heap,
        depth,
        (budget - 1) as nat,
        x2,
    );
    lemma_keeps_trans(frame, frame1, frame2, st, st1);
    let pc2 = st2.insts.len() as int;
    match heap.store(address(frame.val(list_ptr), x2, 0), frame.val(elem)) {
        Err(t) => {
            assert(step(f, store, frame2, heap) == Step::Trap(t));
            lemma_trapped_step(p, malloc, f, pc2, frame2, heap, depth, (budget - 2) as nat, t);
            frame
        },
        Ok(heap2) => {
            assert(step(f, store, frame2, heap) == Step::Next(frame2, heap2));
            lemma_next_step(
                p,
                malloc,
                f,
                pc2,
                frame2,
                heap,
                depth,
                (budget - 2) as nat,
                frame2,
                heap2,
            );
            frame2
        },
    }
}

/// The instructions of the arguments of a call compute the values of the
/// arguments, from left to right.
pub proof fn lemma_args_sound(
    cx: Context,
    p: Program,
    scope: Map<Symbol, ScopeEntry>,
    st: Body,
    args: Vec<(Expr, Layout)>,
    from: nat,
    done: Seq<Value>,
    f: Body,
    frame: Frame,
    heap: Heap,
    depth: nat,
    budget: nat,
) -> (out: (Frame, nat))
    requires
        from <= args@.len(),
        lower_args(cx, scope, st, args, from, done) is Ok,
        ready(scope, st, lower_args(cx, scope, st, args, from, done)->Ok_0.0, f, frame, budget),
        defined(done, frame, st),
    ensures
        ({
            let (st2, vals) = lower_args(cx, scope, st, args, from, done)->Ok_0;
            &&& vals.len() == done.len() + args@.len() - from
            &&& st2.filling
            &&& sizes_le(st, st2)
            &&& match eval_args(
                cx,
                p,
                resolve(scope, frame),
                args,
                from,
                values_of(done, frame),
                heap,
                depth,
            ) {
                Err(t) => exec(p, cx.malloc, f, st.insts.len() as int, frame, heap, depth, budget)
                    == Err::<(u64, Heap), Trap>(t),
                Ok((xs, heap2)) => {
                    &&& exec(p, cx.malloc, f, st.insts.len() as int, frame, heap, depth, budget)
                        == exec(
                        p,
                        cx.malloc,
                        f,
                        st2.insts.len() as int,
                        out.0,
                        heap2,
                        depth,
                        (budget - out.1) as nat,
                    )
                    &&& out.1 <= st2.insts.len() - st.insts.len()
                    &&& keeps(frame, out.0, st)
                    &&& xs == values_of(vals, out.0)
                    &&& defined(vals, out.0, st2)
                },
            }
        }),
    decreases args, 0nat, args@.len() - from,
{
    lemma_args_grows(cx, scope, st, args, from, done);
    if from >= args@.len() {
        (frame, 0)
    } else {
        let (st_end, vals) = lower_args(cx, scope, st, args, from, done)->Ok_0;
        let (st1, value) = lower_expr(cx, scope, st, args@[from as int].0)->Ok_0;
        lemma_expr_grows(cx, scope, st, args@[from as int].0);
        lemma_args_grows(cx, scope, st1, args, from + 1, done.push(value));
        lemma_holds_grown(f, st1, st_end);
        let (frame1, used1) = lemma_expr_sound(
            cx,
            p,
            scope,
            st,
            args@[from as int].0,
            f,
            frame,
            heap,
            depth,
            budget,
        );
        match eval(cx, p, resolve(scope, frame), args@[from as int].0, heap, depth) {
            Err(t) => (frame, 0),
            Ok((x, heap1)) => {
                lemma_resolve_kept(scope, frame, frame1, st, st1);
                lemma_values_kept(done, frame, frame1, st, st1);
                assert(defined(done.push(value), frame1, st1));
                assert(values_of(done.push(value), frame1) =~= values_of(done, frame).push(x));
                let (frame2, used2) = lemma_args_sound(
                    cx,
                    p,
                    scope,
                    st1,
                    args,
                    from + 1,
                    done.push(value),
                    f,
                    frame1,
                    heap1,
                    depth,
                    (budget - used1) as nat,
                );
                match eval_args(
                    cx,
                    p,
                    resolve(scope, frame),
                    args,
                    from + 1,
                    values_of(done, frame).push(x),
                    heap1,
                    depth,
                ) {
                    Err(t) => (frame, 0),
                    Ok((xs, heap2)) => {
                        lemma_keeps_trans(frame, frame1, frame2, st, st1);
                        (frame2, used1 + used2)
                    },
                }
            },
        }
    }
}

/// The instructions of a list of expressions compute the values of the
/// expressions, from left to right.
pub proof fn lemma_values_sound(
    cx: Context,
    p: Program,
    scope: Map<Symbol, ScopeEntry>,
    st: Body,
    exprs: Vec<Expr>,
    from: nat,
    done: Seq<Value>,
    f: Body,
    frame: Frame,
    heap: Heap,
    depth: nat,
    budget: nat,
) -> (out: (Frame, nat))
    requires
        from <= exprs@.len(),
        lower_values(cx, scope, st, exprs, from, done) is Ok,
        ready(scope, st, lower_values(cx, scope, st, exprs, from, done)->Ok_0.0, f, frame, budget),
        defined(done, frame, st),
    ensures
        ({
            let (st2, vals) = lower_values(cx, scope, st, exprs, from, done)->Ok_0;
            &&& vals.len() == done.len() + exprs@.len() - from
            &&& st2.filling
            &&& sizes_le(st, st2)
            &&& match eval_values(
                cx,
                p,
                resolve(scope, frame),
                exprs,
                from,
                values_of(done, frame),
                heap,
                depth,
            ) {
                Err(t) => exec(p, cx.malloc, f, st.insts.len() as int, frame, heap, depth, budget)
                    == Err::<(u64, Heap), Trap>(t),
                Ok((xs, heap2)) => {
                    &&& exec(p, cx.malloc, f, st.insts.len() as int, frame, heap, depth, budget)
                        == exec(
                        p,
                        cx.malloc,
                        f,
                        st2.insts.len() as int,
                        out.0,
                        heap2,
                        depth,
                        (budget - out.1) as nat,
                    )
                    &&& out.1 <= st2.insts.len() - st.insts.len()
                    &&& keeps(frame, out.0, st)
                    &&& xs == values_of(vals, out.0)
                    &&& defined(vals, out.0, st2)
                },
            }
        }),
    decreases exprs, 0nat, exprs@.len() - from,
{
    lemma_values_grows(cx, scope, st, exprs, from, done);
    if from >= exprs@.len() {
        (frame, 0)
    } else {
        let (st_end, vals) = lower_values(cx, scope, st, exprs, from, done)->Ok_0;
        let (st1, value) = lower_expr(cx, scope, st, exprs@[from as int])->Ok_0;
        lemma_expr_grows(cx, scope, st, exprs@[from as int]);
        lemma_values_grows(cx, scope, st1, exprs, from + 1, done.push(value));
        lemma_holds_grown(f, st1, st_end);
        let (frame1, used1) = lemma_expr_sound(
            cx,
            p,
            scope,
            st,
            exprs@[from as int],
            f,
            frame,
            heap,
            depth,
            budget,
        );
        match eval(cx, p, resolve(scope, frame), exprs@[from as int], heap, depth) {
            Err(t) => (frame, 0),
            Ok((x, heap1)) => {
                lemma_resolve_kept(scope, frame, frame1, st, st1);
                lemma_values_kept(done, frame, frame1, st, st1);
                assert(defined(done.push(value), frame1, st1));
                assert(values_of(done.push(value), frame1) =~= values_of(done, frame).push(x));
                let (frame2, used2) = lemma_values_sound(
                    cx,
                    p,
                    scope,
                    st1,
                    exprs,
                    from + 1,
                    done.push(value),
                    f,
                    frame1,
                    heap1,
                    depth,
                    (budget - used1) as nat,
                );
                match eval_values(
                    cx,
                    p,
                    resolve(scope, frame),
                    exprs,
                    from + 1,
                    values_of(done, frame).push(x),
                    heap1,
                    depth,
                ) {
                    Err(t) => (frame, 0),
                    Ok((xs, heap2)) => {
                        lemma_keeps_trans(frame, frame1, frame2, st, st1);
                        (frame2, used1 + used2)
                    },
                }
            },
        }
    }
}

} // verus!
