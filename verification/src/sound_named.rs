//! Calls by name compute what they mean.

use crate::builder::Body;
use crate::expr::Expr;
use crate::growth::{lemma_args_grows, lemma_expr_grows};
use crate::ir::Type;
use crate::lowered::{
    binary_of, Context, elem_layout_of, LIST_SET_CAPACITY, lower_args, lower_builtin, lower_call,
    lower_expr, slot_size, with_list_set, with_malloc,
};
use crate::machine::{Frame, Heap, Program, Trap};
use crate::meaning::{allocated, eval, eval_call};
use crate::scope::ScopeEntry;
use crate::sound::{
    expr_ready, expr_sound, lemma_expr_sound, lemma_holds_grown, lemma_keeps_trans,
    lemma_resolve_kept, resolve, resolved,
};
use crate::sound_builtin::{
    binary_outcome, lemma_binary_sound, lemma_list_get_sound, lemma_list_put_sound,
    lemma_neg_sound, lemma_user_call_sound, list_get_outcome, list_put_outcome, neg_outcome,
    with_user_call,
};
use crate::sound_call::lemma_malloc_sound;
use crate::symbol::{BuiltinOp, Symbol};
use vstd::prelude::*;

verus! {

/// The call of a function that a symbol is bound to.
proof fn lemma_named_user(
    cx: Context,
    p: Program,
    scope: Map<Symbol, ScopeEntry>,
    st: Body,
    expr: Expr,
    f: Body,
    frame: Frame,
    heap: Heap,
    depth: nat,
    budget: nat,
) -> (out: (Frame, nat))
    requires
        expr_ready(cx, scope, st, expr, f, frame, budget),
        expr is CallByName,
        expr->CallByName_0.builtin() is None,
    ensures
        expr_sound(cx, p, scope, st, expr, f, frame, heap, depth, budget, out),
    decreases expr, 0nat, 0nat,
{
    let symbol = expr->CallByName_0;
    let args = expr->CallByName_1;
    assert(decreases_to!(expr => expr->CallByName_1));
    assert(lower_expr(cx, scope, st, expr) == lower_call(cx, scope, st, symbol, args));
    assert(eval(cx, p, resolve(scope, frame), expr, heap, depth) == eval_call(
        cx,
        p,
        resolve(scope, frame),
        symbol,
        args,
        heap,
        depth,
    ));
    assert(resolve(scope, frame)[symbol] == resolved(scope[symbol], frame));
    let func_id = scope[symbol]->Func_func_id;
    let ret_ty = scope[symbol]->Func_sig@.returns[0];
    assert(lower_expr(cx, scope, st, expr)->Ok_0 == with_user_call(
        cx,
        scope,
        st,
        args,
        func_id,
        ret_ty,
    ));
    lemma_user_call_sound(cx, p, scope, st, args, func_id, ret_ty, f, frame, heap, depth, budget)
}

/// The negation.
proof fn lemma_named_neg(
    cx: Context,
    p: Program,
    scope: Map<Symbol, ScopeEntry>,
    st: Body,
    expr: Expr,
    f: Body,
    frame: Frame,
    heap: Heap,
    depth: nat,
    budget: nat,
) -> (out: (Frame, nat))
    requires
        expr_ready(cx, scope, st, expr, f, frame, budget),
        expr is CallByName,
        expr->CallByName_0.builtin() == Some(BuiltinOp::IntNeg),
    ensures
        expr_sound(cx, p, scope, st, expr, f, frame, heap, depth, budget, out),
    decreases expr, 0nat, 0nat,
{
    let symbol = expr->CallByName_0;
    let args = expr->CallByName_1;
    assert(decreases_to!(expr => expr->CallByName_1));
    assert(lower_expr(cx, scope, st, expr) == lower_call(cx, scope, st, symbol, args));
    assert(eval(cx, p, resolve(scope, frame), expr, heap, depth) == eval_call(
        cx,
        p,
        resolve(scope, frame),
        symbol,
        args,
        heap,
        depth,
    ));
    vstd::std_specs::vec::axiom_vec_index_decreases(args, 0);
    let ty = args@[0].1.machine_type(cx.cfg);
    assert(lower_call(cx, scope, st, symbol, args) == lower_builtin(
        cx,
        scope,
        st,
        symbol,
        BuiltinOp::IntNeg,
        args,
    ));
    assert(eval_call(cx, p, resolve(scope, frame), symbol, args, heap, depth) == neg_outcome(
        cx,
        p,
        resolve(scope, frame),
        args@[0].0,
        ty,
        heap,
        depth,
    ));
    lemma_neg_sound(cx, p, scope, st, args@[0].0, ty, f, frame, heap, depth, budget)
}

/// An operation on two values.
proof fn lemma_named_binary(
    cx: Context,
    p: Program,
    scope: Map<Symbol, ScopeEntry>,
    st: Body,
    expr: Expr,
    f: Body,
    frame: Frame,
    heap: Heap,
    depth: nat,
    budget: nat,
) -> (out: (Frame, nat))
    requires
        expr_ready(cx, scope, st, expr, f, frame, budget),
        expr is CallByName,
        expr->CallByName_0.builtin() is Some && binary_of(expr->CallByName_0.builtin()->Some_0, Type::I64) is Some,
    ensures
        expr_sound(cx, p, scope, st, expr, f, frame, heap, depth, budget, out),
    decreases expr, 0nat, 0nat,
{
    let symbol = expr->CallByName_0;
    let args = expr->CallByName_1;
    assert(decreases_to!(expr => expr->CallByName_1));
    assert(lower_expr(cx, scope, st, expr) == lower_call(cx, scope, st, symbol, args));
    assert(eval(cx, p, resolve(scope, frame), expr, heap, depth) == eval_call(
        cx,
        p,
        resolve(scope, frame),
        symbol,
        args,
        heap,
        depth,
    ));
    let op = symbol.builtin()->Some_0;
    let (bin, ty, res_ty) = binary_of(op, args@[0].1.machine_type(cx.cfg))->Some_0;
    assert(lower_call(cx, scope, st, symbol, args) == lower_builtin(cx, scope, st, symbol, op, args));
    assert(eval_call(cx, p, resolve(scope, frame), symbol, args, heap, depth) == binary_outcome(
        cx,
        p,
        resolve(scope, frame),
        args,
        bin,
        ty,
        heap,
        depth,
    ));
    lemma_binary_sound(cx, p, scope, st, args, bin, ty, res_ty, f, frame, heap, depth, budget)
}

/// The read of an element of a list.
proof fn lemma_named_list_get(
    cx: Context,
    p: Program,
    scope: Map<Symbol, ScopeEntry>,
    st: Body,
    expr: Expr,
    f: Body,
    frame: Frame,
    heap: Heap,
    depth: nat,
    budget: nat,
) -> (out: (Frame, nat))
    requires
        expr_ready(cx, scope, st, expr, f, frame, budget),
        expr is CallByName,
        expr->CallByName_0.builtin() == Some(BuiltinOp::ListGetUnsafe),
    ensures
        expr_sound(cx, p, scope, st, expr, f, frame, heap, depth, budget, out),
    decreases expr, 0nat, 0nat,
{
    let symbol = expr->CallByName_0;
    let args = expr->CallByName_1;
    assert(decreases_to!(expr => expr->CallByName_1));
    assert(lower_expr(cx, scope, st, expr) == lower_call(cx, scope, st, symbol, args));
    assert(eval(cx, p, resolve(scope, frame), expr, heap, depth) == eval_call(
        cx,
        p,
        resolve(scope, frame),
        symbol,
        args,
        heap,
        depth,
    ));
    let elem_layout = elem_layout_of(args@[0].1)->Some_0;
    let elem_bytes = slot_size(cx, elem_layout)->Some_0;
    let elem_type = elem_layout.machine_type(cx.cfg);
    assert(lower_call(cx, scope, st, symbol, args) == lower_builtin(
        cx,
        scope,
        st,
        symbol,
        BuiltinOp::ListGetUnsafe,
        args,
    ));
    assert(eval_call(cx, p, resolve(scope, frame), symbol, args, heap, depth) == list_get_outcome(
        cx,
        p,
        resolve(scope, frame),
        args,
        elem_bytes,
        elem_type,
        heap,
        depth,
    ));
    lemma_list_get_sound(
        cx,
        p,
        scope,
        st,
        args,
        elem_bytes,
        elem_type,
        f,
        frame,
        heap,
        depth,
        budget,
    )
}

/// The write of an element into a fresh list.
proof fn lemma_named_list_set(
    cx: Context,
    p: Program,
    scope: Map<Symbol, ScopeEntry>,
    st: Body,
    expr: Expr,
    f: Body,
    frame: Frame,
    heap: Heap,
    depth: nat,
    budget: nat,
) -> (out: (Frame, nat))
    requires
        expr_ready(cx, scope, st, expr, f, frame, budget),
        expr is CallByName,
        expr->CallByName_0.builtin() == Some(BuiltinOp::ListSet),
    ensures
        expr_sound(cx, p, scope, st, expr, f, frame, heap, depth, budget, out),
    decreases expr, 0nat, 0nat,
{
    let symbol = expr->CallByName_0;
    let args = expr->CallByName_1;
    assert(decreases_to!(expr => expr->CallByName_1));
    assert(lower_expr(cx, scope, st, expr) == lower_call(cx, scope, st, symbol, args));
    assert(eval(cx, p, resolve(scope, frame), expr, heap, depth) == eval_call(
        cx,
        p,
        resolve(scope, frame),
        symbol,
        args,
        heap,
        depth,
    ));
    let elem_layout = elem_layout_of(args@[0].1)->Some_0;
    let elem_bytes = slot_size(cx, elem_layout)->Some_0;
    let size = elem_bytes * LIST_SET_CAPACITY + 1;
    let (st1, ptr) = with_malloc(cx, st, size as i64);
    let (st2, vals) = lower_args(cx, scope, st1, args, 1, Seq::empty())->Ok_0;
    assert(lower_call(cx, scope, st, symbol, args) == lower_builtin(
        cx,
        scope,
        st,
        symbol,
        BuiltinOp::ListSet,
        args,
    ));
    assert(lower_expr(cx, scope, st, expr) == with_list_set(
        cx,
        st2,
        ptr,
        vals[0],
        vals[1],
        elem_layout,
    ));
    assert(eval_call(cx, p, resolve(scope, frame), symbol, args, heap, depth) == (match allocated(
        cx,
        p,
        size,
        heap,
        depth,
    ) {
        Err(t) => Err::<(u64, Heap), Trap>(t),
        Ok((x, heap2)) => list_put_outcome(
            cx,
            p,
            resolve(scope, frame),
            args,
            x,
            elem_bytes,
            heap2,
            depth,
        ),
    }));
    let st3 = with_list_set(cx, st2, ptr, vals[0], vals[1], elem_layout)->Ok_0.0;
    crate::growth::lemma_grows_malloc(cx, st, size as i64);
    lemma_args_grows(cx, scope, st1, args, 1, Seq::empty());
    crate::growth::lemma_grows_list_set(cx, st2, ptr, vals[0], vals[1], elem_layout);
    lemma_holds_grown(f, st2, st3);
    lemma_holds_grown(f, st1, st2);
    let frame1 = lemma_malloc_sound(cx, p, st, size, f, frame, heap, depth, budget);
    match allocated(cx, p, size, heap, depth) {
        Err(t) => (frame, 0),
        Ok((x, heap1)) => {
            lemma_resolve_kept(scope, frame, frame1, st, st1);
            let (frame2, used2) = lemma_list_put_sound(
                cx,
                p,
                scope,
                st1,
                args,
                ptr,
                elem_layout,
                f,
                frame1,
                heap1,
                depth,
                (budget - 2) as nat,
            );
            match list_put_outcome(cx, p, resolve(scope, frame), args, x, elem_bytes, heap1, depth) {
                Err(t) => (frame, 0),
                Ok((y, heap2)) => {
                    lemma_keeps_trans(frame, frame1, frame2, st, st1);
                    (frame2, 2 + used2)
                },
            }
        },
    }
}

/// The write of an element into a list in place.
proof fn lemma_named_list_set_in_place(
    cx: Context,
    p: Program,
    scope: Map<Symbol, ScopeEntry>,
    st: Body,
    expr: Expr,
    f: Body,
    frame: Frame,
    heap: Heap,
    depth: nat,
    budget: nat,
) -> (out: (Frame, nat))
    requires
        expr_ready(cx, scope, st, expr, f, frame, budget),
        expr is CallByName,
        expr->CallByName_0.builtin() == Some(BuiltinOp::ListSetInPlace),
    ensures
        expr_sound(cx, p, scope, st, expr, f, frame, heap, depth, budget, out),
    decreases expr, 0nat, 0nat,
{
    let symbol = expr->CallByName_0;
    let args = expr->CallByName_1;
    assert(decreases_to!(expr => expr->CallByName_1));
    assert(lower_expr(cx, scope, st, expr) == lower_call(cx, scope, st, symbol, args));
    assert(eval(cx, p, resolve(scope, frame), expr, heap, depth) == eval_call(
        cx,
        p,
        resolve(scope, frame),
        symbol,
        args,
        heap,
        depth,
    ));
    vstd::std_specs::vec::axiom_vec_index_decreases(args, 0);
    let elem_layout = elem_layout_of(args@[0].1)->Some_0;
    let elem_bytes = slot_size(cx, elem_layout)->Some_0;
    let (st1, list) = lower_expr(cx, scope, st, args@[0].0)->Ok_0;
    let (st2, vals) = lower_args(cx, scope, st1, args, 1, Seq::empty())->Ok_0;
    assert(lower_call(cx, scope, st, symbol, args) == lower_builtin(
        cx,
        scope,
        st,
        symbol,
        BuiltinOp::ListSetInPlace,
        args,
    ));
    assert(lower_expr(cx, scope, st, expr) == with_list_set(
        cx,
        st2,
        list,
        vals[0],
        vals[1],
        elem_layout,
    ));
    assert(eval_call(cx, p, resolve(scope, frame), symbol, args, heap, depth) == (match eval(
        cx,
        p,
        resolve(scope, frame),
        args@[0].0,
        heap,
        depth,
    ) {
        Err(t) => Err::<(u64, Heap), Trap>(t),
        Ok((x, heap2)) => list_put_outcome(
            cx,
            p,
            resolve(scope, frame),
            args,
            x,
            elem_bytes,
            heap2,
            depth,
        ),
    }));
    let st3 = with_list_set(cx, st2, list, vals[0], vals[1], elem_layout)->Ok_0.0;
    lemma_expr_grows(cx, scope, st, args@[0].0);
    lemma_args_grows(cx, scope, st1, args, 1, Seq::empty());
    crate::growth::lemma_grows_list_set(cx, st2, list, vals[0], vals[1], elem_layout);
    lemma_holds_grown(f, st2, st3);
    lemma_holds_grown(f, st1, st2);
    let (frame1, used1) = lemma_expr_sound(cx, p, scope, st, args@[0].0, f, frame, heap, depth, budget);
    match eval(cx, p, resolve(scope, frame), args@[0].0, heap, depth) {
        Err(t) => (frame, 0),
        Ok((x, heap1)) => {
            lemma_resolve_kept(scope, frame, frame1, st, st1);
            let (frame2, used2) = lemma_list_put_sound(
                cx,
                p,
                scope,
                st1,
                args,
                list,
                elem_layout,
                f,
                frame1,
                heap1,
                depth,
                (budget - used1) as nat,
            );
            match list_put_outcome(cx, p, resolve(scope, frame), args, x, elem_bytes, heap1, depth) {
                Err(t) => (frame, 0),
                Ok((y, heap2)) => {
                    lemma_keeps_trans(frame, frame1, frame2, st, st1);
                    (frame2, used1 + used2)
                },
            }
        },
    }
}

/// The instructions of a call by name compute what the call means.
pub proof fn lemma_call_sound(
    cx: Context,
    p: Program,
    scope: Map<Symbol, ScopeEntry>,
    st: Body,
    expr: Expr,
    f: Body,
    frame: Frame,
    heap: Heap,
    depth: nat,
    budget: nat,
) -> (out: (Frame, nat))
    requires
        expr_ready(cx, scope, st, expr, f, frame, budget),
        expr is CallByName,
    ensures
        expr_sound(cx, p, scope, st, expr, f, frame, heap, depth, budget, out),
    decreases expr, 0nat, 1nat,
{
    match expr->CallByName_0.builtin() {
        None => lemma_named_user(cx, p, scope, st, expr, f, frame, heap, depth, budget),
        Some(BuiltinOp::IntNeg) => lemma_named_neg(cx, p, scope, st, expr, f, frame, heap, depth, budget),
        Some(BuiltinOp::ListGetUnsafe) => lemma_named_list_get(
            cx,
            p,
            scope,
            st,
            expr,
            f,
            frame,
            heap,
            depth,
            budget,
        ),
        Some(BuiltinOp::ListSet) => lemma_named_list_set(
            cx,
            p,
            scope,
            st,
            expr,
            f,
            frame,
            heap,
            depth,
            budget,
        ),
        Some(BuiltinOp::ListSetInPlace) => lemma_named_list_set_in_place(
            cx,
            p,
            scope,
            st,
            expr,
            f,
            frame,
            heap,
            depth,
            budget,
        ),
        Some(_) => lemma_named_binary(cx, p, scope, st, expr, f, frame, heap, depth, budget),
    }
}

} // verus!
