//! Calls by name compute what they mean: the operations one by one.

use crate::builder::Body;
use crate::expr::Expr;
use crate::growth::{
    lemma_args_grows, lemma_expr_grows, lemma_grows_def, lemma_grows_steps,
    lemma_starts_with_index,
};
use crate::ir::{BinaryOp, FuncId, Inst, Type, Value};
use crate::layout::Layout;
use crate::lowered::{Context, lower_args, lower_expr, slot_size, with_list_set};
use crate::machine::{address, binary, bits, Frame, Heap, mask, Outcome, Program, run};
use crate::meaning::{Binding, eval, eval_args, list_set};
use crate::scope::ScopeEntry;
use crate::sound::{
    keeps, lemma_def_step, lemma_expr_sound, lemma_holds_grown, lemma_keeps_trans, lemma_trap_step,
    ready, resolve, scope_ok, simulates,
};
use crate::sound_call::{
    defined, lemma_args_sound, lemma_call_step, lemma_list_set_sound, lemma_operands, values_of,
};
use crate::symbol::Symbol;
use vstd::prelude::*;

verus! {

/// What an operation on the values of two arguments comes to.
pub open spec fn binary_outcome(
    cx: Context,
    p: Program,
    env: Map<Symbol, Binding>,
    args: Vec<(Expr, Layout)>,
    bin: BinaryOp,
    ty: Type,
    heap: Heap,
    depth: nat,
) -> Outcome {
    match eval_args(cx, p, env, args, 0, Seq::empty(), heap, depth) {
        Err(t) => Err(t),
        Ok((vals, heap2)) => match binary(bin, ty, vals[0], vals[1]) {
            Err(t) => Err(t),
            Ok(x) => Ok((x, heap2)),
        },
    }
}

/// An operation on two values.
pub proof fn lemma_binary_sound(
    cx: Context,
    p: Program,
    scope: Map<Symbol, ScopeEntry>,
    st: Body,
    args: Vec<(Expr, Layout)>,
    bin: BinaryOp,
    ty: Type,
    res_ty: Type,
    f: Body,
    frame: Frame,
    heap: Heap,
    depth: nat,
    budget: nat,
) -> (out: (Frame, nat))
    requires
        args@.len() == 2,
        lower_args(cx, scope, st, args, 0, Seq::empty()) is Ok,
        ready(
            scope,
            st,
            lower_args(cx, scope, st, args, 0, Seq::empty())->Ok_0.0.with_def(
                res_ty,
                |dst: Value|
                    Inst::Binary {
                        dst,
                        op: bin,
                        ty,
                        lhs: lower_args(cx, scope, st, args, 0, Seq::empty())->Ok_0.1[0],
                        rhs: lower_args(cx, scope, st, args, 0, Seq::empty())->Ok_0.1[1],
                    },
            ),
            f,
            frame,
            budget,
        ),
    ensures
        ({
            let (st1, vals) = lower_args(cx, scope, st, args, 0, Seq::empty())->Ok_0;
            simulates(
                p,
                cx.malloc,
                f,
                st,
                st1.with_def(
                    res_ty,
                    |dst: Value| Inst::Binary { dst, op: bin, ty, lhs: vals[0], rhs: vals[1] },
                ),
                st1.next_value(),
                frame,
                heap,
                depth,
                budget,
                binary_outcome(cx, p, resolve(scope, frame), args, bin, ty, heap, depth),
                out,
            )
        }),
    decreases args, 1nat, 0nat,
{
    let malloc = cx.malloc;
    let (st1, vals) = lower_args(cx, scope, st, args, 0, Seq::empty())->Ok_0;
    let make = |dst: Value| Inst::Binary { dst, op: bin, ty, lhs: vals[0], rhs: vals[1] };
    lemma_args_grows(cx, scope, st, args, 0, Seq::empty());
    lemma_grows_def(st1, res_ty, make);
    lemma_holds_grown(f, st1, st1.with_def(res_ty, make));
    assert(values_of(Seq::<Value>::empty(), frame) =~= Seq::<u64>::empty());
    let (frame1, used1) = lemma_args_sound(
        cx,
        p,
        scope,
        st,
        args,
        0,
        Seq::empty(),
        f,
        frame,
        heap,
        depth,
        budget,
    );
    match eval_args(cx, p, resolve(scope, frame), args, 0, Seq::empty(), heap, depth) {
        Err(t) => (frame, 0),
        Ok((xs, heap1)) => {
            let budget1 = (budget - used1) as nat;
            assert(frame1.has(vals[0]) && frame1.has(vals[1]));
            assert(xs[0] == frame1.val(vals[0]) && xs[1] == frame1.val(vals[1]));
            match binary(bin, ty, xs[0], xs[1]) {
                Err(t) => {
                    lemma_trap_step(p, malloc, f, st1, res_ty, make, frame1, heap1, depth, budget1, t);
                    (frame, 0)
                },
                Ok(x) => {
                    lemma_def_step(p, malloc, f, st1, res_ty, make, frame1, heap1, depth, budget1, x);
                    let frame2 = frame1.with_val(st1.next_value(), x);
                    lemma_keeps_trans(frame, frame1, frame2, st, st1);
                    (frame2, used1 + 1)
                },
            }
        },
    }
}

/// What the negation of the value of an expression comes to.
pub open spec fn neg_outcome(
    cx: Context,
    p: Program,
    env: Map<Symbol, Binding>,
    arg: Expr,
    ty: Type,
    heap: Heap,
    depth: nat,
) -> Outcome {
    match eval(cx, p, env, arg, heap, depth) {
        Err(t) => Err(t),
        Ok((a, heap2)) => Ok((mask(ty, 0u64.wrapping_sub(a)), heap2)),
    }
}

/// The negation of a value.
pub proof fn lemma_neg_sound(
    cx: Context,
    p: Program,
    scope: Map<Symbol, ScopeEntry>,
    st: Body,
    arg: Expr,
    ty: Type,
    f: Body,
    frame: Frame,
    heap: Heap,
    depth: nat,
    budget: nat,
) -> (out: (Frame, nat))
    requires
        lower_expr(cx, scope, st, arg) is Ok,
        ready(
            scope,
            st,
            lower_expr(cx, scope, st, arg)->Ok_0.0.with_def(
                ty,
                |dst: Value| Inst::Ineg { dst, ty, arg: lower_expr(cx, scope, st, arg)->Ok_0.1 },
            ),
            f,
            frame,
            budget,
        ),
    ensures
        ({
            let (st1, a) = lower_expr(cx, scope, st, arg)->Ok_0;
            simulates(
                p,
                cx.malloc,
                f,
                st,
                st1.with_def(ty, |dst: Value| Inst::Ineg { dst, ty, arg: a }),
                st1.next_value(),
                frame,
                heap,
                depth,
                budget,
                neg_outcome(cx, p, resolve(scope, frame), arg, ty, heap, depth),
                out,
            )
        }),
    decreases arg, 2nat, 0nat,
{
    let malloc = cx.malloc;
    let (st1, a) = lower_expr(cx, scope, st, arg)->Ok_0;
    let make = |dst: Value| Inst::Ineg { dst, ty, arg: a };
    lemma_expr_grows(cx, scope, st, arg);
    lemma_grows_def(st1, ty, make);
    lemma_holds_grown(f, st1, st1.with_def(ty, make));
    let (frame1, used1) = lemma_expr_sound(cx, p, scope, st, arg, f, frame, heap, depth, budget);
    match eval(cx, p, resolve(scope, frame), arg, heap, depth) {
        Err(t) => (frame, 0),
        Ok((x0, heap1)) => {
            let x = mask(ty, 0u64.wrapping_sub(x0));
            lemma_def_step(
                p,
                malloc,
                f,
                st1,
                ty,
                make,
                frame1,
                heap1,
                depth,
                (budget - used1) as nat,
                x,
            );
            let frame2 = frame1.with_val(st1.next_value(), x);
            lemma_keeps_trans(frame, frame1, frame2, st, st1);
            (frame2, used1 + 1)
        },
    }
}

/// The body after the instructions that read the element of a list were
/// emitted, and the value read.
pub open spec fn with_list_get(st1: Body, vals: Seq<Value>, elem_bytes: u32, elem_type: Type) -> (
    Body,
    Value,
) {
    let (st2, elem_size) = crate::lowered::def(
        st1,
        Type::I64,
        |dst: Value| Inst::Iconst { dst, ty: Type::I64, imm: elem_bytes as i64 },
    );
    let (st3, offset) = crate::lowered::def(
        st2,
        Type::I64,
        |dst: Value|
            Inst::Binary { dst, op: BinaryOp::Imul, ty: Type::I64, lhs: vals[1], rhs: elem_size },
    );
    crate::lowered::def(
        st3,
        elem_type,
        |dst: Value|
            Inst::LoadComplex { dst, ty: elem_type, base: vals[0], index: offset, offset: 0 },
    )
}

/// What the read of an element of a list comes to.
pub open spec fn list_get_outcome(
    cx: Context,
    p: Program,
    env: Map<Symbol, Binding>,
    args: Vec<(Expr, Layout)>,
    elem_bytes: u32,
    elem_type: Type,
    heap: Heap,
    depth: nat,
) -> Outcome {
    match eval_args(cx, p, env, args, 0, Seq::empty(), heap, depth) {
        Err(t) => Err(t),
        Ok((vals, heap2)) => match binary(
            BinaryOp::Imul,
            Type::I64,
            vals[1],
            mask(Type::I64, bits(elem_bytes as i64)),
        ) {
            Err(t) => Err(t),
            Ok(offset) => match heap2.load(elem_type, address(vals[0], offset, 0)) {
                Err(t) => Err(t),
                Ok(x) => Ok((x, heap2)),
            },
        },
    }
}

/// The read of an element of a list.
pub proof fn lemma_list_get_sound(
    cx: Context,
    p: Program,
    scope: Map<Symbol, ScopeEntry>,
    st: Body,
    args: Vec<(Expr, Layout)>,
    elem_bytes: u32,
    elem_type: Type,
    f: Body,
    frame: Frame,
    heap: Heap,
    depth: nat,
    budget: nat,
) -> (out: (Frame, nat))
    requires
        args@.len() == 2,
        lower_args(cx, scope, st, args, 0, Seq::empty()) is Ok,
        ready(
            scope,
            st,
            with_list_get(
                lower_args(cx, scope, st, args, 0, Seq::empty())->Ok_0.0,
                lower_args(cx, scope, st, args, 0, Seq::empty())->Ok_0.1,
                elem_bytes,
                elem_type,
            ).0,
            f,
            frame,
            budget,
        ),
    ensures
        ({
            let (st1, vals) = lower_args(cx, scope, st, args, 0, Seq::empty())->Ok_0;
            simulates(
                p,
                cx.malloc,
                f,
                st,
                with_list_get(st1, vals, elem_bytes, elem_type).0,
                with_list_get(st1, vals, elem_bytes, elem_type).1,
                frame,
                heap,
                depth,
                budget,
                list_get_outcome(
                    cx,
                    p,
                    resolve(scope, frame),
                    args,
                    elem_bytes,
                    elem_type,
                    heap,
                    depth,
                ),
                out,
            )
        }),
    decreases args, 1nat, 0nat,
{
    let malloc = cx.malloc;
    let (st1, vals) = lower_args(cx, scope, st, args, 0, Seq::empty())->Ok_0;
    let make1 = |dst: Value| Inst::Iconst { dst, ty: Type::I64, imm: elem_bytes as i64 };
    let (st2, elem_size) = crate::lowered::def(st1, Type::I64, make1);
    let make2 = |dst: Value|
        Inst::Binary { dst, op: BinaryOp::Imul, ty: Type::I64, lhs: vals[1], rhs: elem_size };
    let (st3, offset) = crate::lowered::def(st2, Type::I64, make2);
    let make3 = |dst: Value|
        Inst::LoadComplex { dst, ty: elem_type, base: vals[0], index: offset, offset: 0 };
    let st4 = st3.with_def(elem_type, make3);
    lemma_args_grows(cx, scope, st, args, 0, Seq::empty());
    lemma_grows_def(st1, Type::I64, make1);
    lemma_grows_def(st2, Type::I64, make2);
    lemma_grows_def(st3, elem_type, make3);
    lemma_holds_grown(f, st3, st4);
    lemma_holds_grown(f, st2, st3);
    lemma_holds_grown(f, st1, st2);
    assert(values_of(Seq::<Value>::empty(), frame) =~= Seq::<u64>::empty());
    let (frame1, used1) = lemma_args_sound(
        cx,
        p,
        scope,
        st,
        args,
        0,
        Seq::empty(),
        f,
        frame,
        heap,
        depth,
        budget,
    );
    match eval_args(cx, p, resolve(scope, frame), args, 0, Seq::empty(), heap, depth) {
        Err(t) => (frame, 0),
        Ok((xs, heap1)) => {
            let budget1 = (budget - used1) as nat;
            assert(frame1.has(vals[0]) && frame1.has(vals[1]));
            assert(vals[0].index < st1.value_types.len());
            assert(xs[0] == frame1.val(vals[0]) && xs[1] == frame1.val(vals[1]));
            let x1 = mask(Type::I64, bits(elem_bytes as i64));
            let frame2 = frame1.with_val(elem_size, x1);
            lemma_def_step(p, malloc, f, st1, Type::I64, make1, frame1, heap1, depth, budget1, x1);
            let x2 = binary(BinaryOp::Imul, Type::I64, xs[1], x1)->Ok_0;
            let frame3 = frame2.with_val(offset, x2);
            lemma_def_step(
                p,
                malloc,
                f,
                st2,
                Type::I64,
                make2,
                frame2,
                heap1,
                depth,
                (budget1 - 1) as nat,
                x2,
            );
            lemma_keeps_trans(frame1, frame2, frame3, st1, st2);
            assert(frame3.vals.contains_key(vals[0].index));
            match heap1.load(elem_type, address(xs[0], x2, 0)) {
                Err(t) => {
                    lemma_trap_step(
                        p,
                        malloc,
                        f,
                        st3,
                        elem_type,
                        make3,
                        frame3,
                        heap1,
                        depth,
                        (budget1 - 2) as nat,
                        t,
                    );
                    (frame, 0)
                },
                Ok(x) => {
                    lemma_def_step(
                        p,
                        malloc,
                        f,
                        st3,
                        elem_type,
                        make3,
                        frame3,
                        heap1,
                        depth,
                        (budget1 - 2) as nat,
                        x,
                    );
                    let frame4 = frame3.with_val(st3.next_value(), x);
                    lemma_keeps_trans(frame1, frame3, frame4, st1, st3);
                    lemma_keeps_trans(frame, frame1, frame4, st, st1);
                    (frame4, used1 + 3)
                },
            }
        },
    }
}

/// What evaluating the index and the element and storing the element into
/// the list at `list` comes to.
pub open spec fn list_put_outcome(
    cx: Context,
    p: Program,
    env: Map<Symbol, Binding>,
    args: Vec<(Expr, Layout)>,
    list: u64,
    elem_bytes: u32,
    heap: Heap,
    depth: nat,
) -> Outcome {
    match eval_args(cx, p, env, args, 1, Seq::empty(), heap, depth) {
        Err(t) => Err(t),
        Ok((vals, heap2)) => list_set(cx, heap2, list, vals[0], vals[1], elem_bytes),
    }
}

/// The index and the element of a write into a list, and the write.
pub proof fn lemma_list_put_sound(
    cx: Context,
    p: Program,
    scope: Map<Symbol, ScopeEntry>,
    st: Body,
    args: Vec<(Expr, Layout)>,
    list: Value,
    elem_layout: Layout,
    f: Body,
    frame: Frame,
    heap: Heap,
    depth: nat,
    budget: nat,
) -> (out: (Frame, nat))
    requires
        args@.len() == 3,
        lower_args(cx, scope, st, args, 1, Seq::empty()) is Ok,
        with_list_set(
            cx,
            lower_args(cx, scope, st, args, 1, Seq::empty())->Ok_0.0,
            list,
            lower_args(cx, scope, st, args, 1, Seq::empty())->Ok_0.1[0],
            lower_args(cx, scope, st, args, 1, Seq::empty())->Ok_0.1[1],
            elem_layout,
        ) is Ok,
        ready(
            scope,
            st,
            with_list_set(
                cx,
                lower_args(cx, scope, st, args, 1, Seq::empty())->Ok_0.0,
                list,
                lower_args(cx, scope, st, args, 1, Seq::empty())->Ok_0.1[0],
                lower_args(cx, scope, st, args, 1, Seq::empty())->Ok_0.1[1],
                elem_layout,
            )->Ok_0.0,
            f,
            frame,
            budget,
        ),
        frame.has(list),
        list.index < st.value_types.len(),
    ensures
        ({
            let (st1, vals) = lower_args(cx, scope, st, args, 1, Seq::empty())->Ok_0;
            let (st2, v) = with_list_set(cx, st1, list, vals[0], vals[1], elem_layout)->Ok_0;
            simulates(
                p,
                cx.malloc,
                f,
                st,
                st2,
                v,
                frame,
                heap,
                depth,
                budget,
                list_put_outcome(
                    cx,
                    p,
                    resolve(scope, frame),
                    args,
                    frame.val(list),
                    slot_size(cx, elem_layout)->Some_0,
                    heap,
                    depth,
                ),
                out,
            )
        }),
    decreases args, 1nat, 0nat,
{
    let malloc = cx.malloc;
    let elem_bytes = slot_size(cx, elem_layout)->Some_0;
    let (st1, vals) = lower_args(cx, scope, st, args, 1, Seq::empty())->Ok_0;
    let (st2, v) = with_list_set(cx, st1, list, vals[0], vals[1], elem_layout)->Ok_0;
    lemma_args_grows(cx, scope, st, args, 1, Seq::empty());
    crate::growth::lemma_grows_list_set(cx, st1, list, vals[0], vals[1], elem_layout);
    lemma_holds_grown(f, st1, st2);
    assert(values_of(Seq::<Value>::empty(), frame) =~= Seq::<u64>::empty());
    let (frame1, used1) = lemma_args_sound(
        cx,
        p,
        scope,
        st,
        args,
        1,
        Seq::empty(),
        f,
        frame,
        heap,
        depth,
        budget,
    );
    match eval_args(cx, p, resolve(scope, frame), args, 1, Seq::empty(), heap, depth) {
        Err(t) => (frame, 0),
        Ok((xs, heap1)) => {
            assert(frame1.has(vals[0]) && frame1.has(vals[1]));
            assert(vals[0].index < st1.value_types.len() && vals[1].index < st1.value_types.len());
            assert(xs[0] == frame1.val(vals[0]) && xs[1] == frame1.val(vals[1]));
            assert(frame1.vals.contains_key(list.index));
            assert(defined(seq![list, vals[0], vals[1]], frame1, st1));
            let frame2 = lemma_list_set_sound(
                cx,
                p,
                st1,
                list,
                vals[0],
                vals[1],
                elem_layout,
                f,
                frame1,
                heap1,
                depth,
                (budget - used1) as nat,
            );
            match list_set(cx, heap1, frame.val(list), xs[0], xs[1], elem_bytes) {
                Err(t) => (frame, 0),
                Ok((y, heap2)) => {
                    lemma_keeps_trans(frame, frame1, frame2, st, st1);
                    (frame2, used1 + 3)
                },
            }
        },
    }
}

/// What the call of the function `func_id` with the values of `args` comes to.
pub open spec fn user_call_outcome(
    cx: Context,
    p: Program,
    env: Map<Symbol, Binding>,
    args: Vec<(Expr, Layout)>,
    func_id: FuncId,
    heap: Heap,
    depth: nat,
) -> Outcome {
    match eval_args(cx, p, env, args, 0, Seq::empty(), heap, depth) {
        Err(t) => Err(t),
        Ok((vals, heap2)) => run(p, cx.malloc, func_id, vals, heap2, depth),
    }
}

/// The body after a call of the function `func_id` with `args` was lowered,
/// and the value of the call.
pub open spec fn with_user_call(
    cx: Context,
    scope: Map<Symbol, ScopeEntry>,
    st: Body,
    args: Vec<(Expr, Layout)>,
    func_id: FuncId,
    ret_ty: Type,
) -> (Body, Value) {
    let func = st.next_func_ref();
    let (st1, arg_vals) = lower_args(
        cx,
        scope,
        st.with_func_ref(func_id),
        args,
        0,
        Seq::empty(),
    )->Ok_0;
    let range = st1.next_values(arg_vals);
    crate::lowered::def(
        st1.with_values(arg_vals),
        ret_ty,
        |dst: Value| Inst::Call { dst, func, args: range },
    )
}

/// The call of a function.
pub proof fn lemma_user_call_sound(
    cx: Context,
    p: Program,
    scope: Map<Symbol, ScopeEntry>,
    st: Body,
    args: Vec<(Expr, Layout)>,
    func_id: FuncId,
    ret_ty: Type,
    f: Body,
    frame: Frame,
    heap: Heap,
    depth: nat,
    budget: nat,
) -> (out: (Frame, nat))
    requires
        lower_args(cx, scope, st.with_func_ref(func_id), args, 0, Seq::empty()) is Ok,
        ready(scope, st, with_user_call(cx, scope, st, args, func_id, ret_ty).0, f, frame, budget),
    ensures
        simulates(
            p,
            cx.malloc,
            f,
            st,
            with_user_call(cx, scope, st, args, func_id, ret_ty).0,
            with_user_call(cx, scope, st, args, func_id, ret_ty).1,
            frame,
            heap,
            depth,
            budget,
            user_call_outcome(cx, p, resolve(scope, frame), args, func_id, heap, depth),
            out,
        ),
    decreases args, 1nat, 0nat,
{
    let malloc = cx.malloc;
    let func = st.next_func_ref();
    let st0 = st.with_func_ref(func_id);
    let (st1, arg_vals) = lower_args(cx, scope, st0, args, 0, Seq::empty())->Ok_0;
    let range = st1.next_values(arg_vals);
    let st2 = st1.with_values(arg_vals);
    let make = |dst: Value| Inst::Call { dst, func, args: range };
    let st3 = st2.with_def(ret_ty, make);
    lemma_grows_steps(st);
    lemma_args_grows(cx, scope, st0, args, 0, Seq::empty());
    lemma_grows_steps(st1);
    lemma_grows_def(st2, ret_ty, make);
    lemma_holds_grown(f, st2, st3);
    lemma_holds_grown(f, st1, st2);
    lemma_holds_grown(f, st0, st1);
    lemma_starts_with_index(f.func_refs, st0.func_refs, st.func_refs.len() as int);
    assert(scope_ok(scope, frame, st0));
    assert(values_of(Seq::<Value>::empty(), frame) =~= Seq::<u64>::empty());
    let (frame1, used1) = lemma_args_sound(
        cx,
        p,
        scope,
        st0,
        args,
        0,
        Seq::empty(),
        f,
        frame,
        heap,
        depth,
        budget,
    );
    match eval_args(cx, p, resolve(scope, frame), args, 0, Seq::empty(), heap, depth) {
        Err(t) => (frame, 0),
        Ok((xs, heap1)) => {
            lemma_operands(f, st1, arg_vals, frame1);
            lemma_call_step(
                p,
                malloc,
                f,
                st2,
                ret_ty,
                func,
                range,
                frame1,
                heap1,
                depth,
                (budget - used1) as nat,
                func_id,
                xs,
            );
            match run(p, malloc, func_id, xs, heap1, depth) {
                Err(t) => (frame, 0),
                Ok((x, heap2)) => {
                    let frame2 = frame1.with_val(st2.next_value(), x);
                    assert(keeps(frame1, frame2, st2));
                    lemma_keeps_trans(frame1, frame1, frame2, st1, st2);
                    lemma_keeps_trans(frame, frame1, frame2, st0, st1);
                    lemma_keeps_trans(frame, frame, frame2, st, st0);
                    assert(frame2.has(st2.next_value()));
                    (frame2, used1 + 1)
                },
            }
        },
    }
}

} // verus!
