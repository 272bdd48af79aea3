//! Calls through an address compute what they mean.

use crate::builder::Body;
use crate::expr::Expr;
use crate::growth::{fits, lemma_expr_grows, lemma_grows_def, lemma_grows_steps, lemma_values_grows};
use crate::ir::{FuncId, Inst, PoolRange, SigRef, Type, Value};
use crate::lowered::{Context, lower_expr, lower_values};
use crate::machine::{address, exec, Frame, Heap, in_pool, operand_values, Program, run, Trap};
use crate::meaning::{eval, eval_values};
use crate::scope::ScopeEntry;
use crate::sound::{
    expr_ready, expr_sound, holds, keeps, lemma_expr_sound, lemma_holds_grown, lemma_inst_at,
    lemma_keeps_trans, lemma_resolve_kept, resolve,
};
use crate::sound_call::{lemma_operands, lemma_values_kept, lemma_values_sound, values_of};
use crate::symbol::Symbol;
use vstd::prelude::*;

verus! {

/// One call through an address.
pub proof fn lemma_call_indirect_step(
    p: Program,
    malloc: FuncId,
    f: Body,
    st: Body,
    ty: Type,
    sig: SigRef,
    callee: Value,
    range: PoolRange,
    frame: Frame,
    heap: Heap,
    depth: nat,
    budget: nat,
    xs: Seq<u64>,
)
    requires
        holds(f, st.with_def(ty, |dst: Value| Inst::CallIndirect { dst, sig, callee, args: range })),
        fits(f),
        budget >= 1,
        frame.has(callee),
        in_pool(range, f.value_pool.len()),
        operand_values(
            frame,
            f.value_pool.subrange(range.start as int, range.start + range.len),
        ) == Some(xs),
    ensures
        exec(p, malloc, f, st.insts.len() as int, frame, heap, depth, budget) == (match run(
            p,
            malloc,
            crate::machine::func_at(frame.val(callee)),
            xs,
            heap,
            depth,
        ) {
            Err(t) => Err::<(u64, Heap), Trap>(t),
            Ok((x, heap2)) => exec(
                p,
                malloc,
                f,
                st.insts.len() as int + 1,
                frame.with_val(st.next_value(), x),
                heap2,
                depth,
                (budget - 1) as nat,
            ),
        }),
        forall|x: u64| keeps(frame, #[trigger] frame.with_val(st.next_value(), x), st),
        st.next_value().index == st.value_types.len(),
        st.with_def(
            ty,
            |dst: Value| Inst::CallIndirect { dst, sig, callee, args: range },
        ).insts.len() == st.insts.len() + 1,
        st.with_def(
            ty,
            |dst: Value| Inst::CallIndirect { dst, sig, callee, args: range },
        ).value_types.len() == st.value_types.len() + 1,
        holds(f, st),
{
    reveal(exec);
    let make = |dst: Value| Inst::CallIndirect { dst, sig, callee, args: range };
    let st1 = st.with_value(ty);
    lemma_inst_at(f, st1, make(st.next_value()));
    lemma_grows_steps(st);
    lemma_holds_grown(f, st, st1);
}

/// The instructions of a call through an address compute what the call
/// means.
pub proof fn lemma_pointer_call_sound(
    cx: Context,
    p: Program,
    scope: Map<Symbol, ScopeEntry>,
    st: Body,
    expr: Expr,
    f: Body,
    frame: Frame,
    heap: Heap,
    depth: nat,
    budget: nat,
) -> (out: (Frame, nat))
    requires
        expr_ready(cx, scope, st, expr, f, frame, budget),
        expr is CallByPointer,
    ensures
        expr_sound(cx, p, scope, st, expr, f, frame, heap, depth, budget, out),
    decreases expr, 0nat, 0nat,
{
    let malloc = cx.malloc;
    let sub = *expr->CallByPointer_0;
    let args = expr->CallByPointer_1;
    let layout = expr->CallByPointer_2;
    assert(decreases_to!(expr => expr->CallByPointer_1));
    let (st1, arg_vals) = lower_values(cx, scope, st, args, 0, Seq::empty())->Ok_0;
    let sig = crate::layout::signature_of(layout, cx.cfg)->Some_0;
    let (st2, callee) = lower_expr(cx, scope, st1, sub)->Ok_0;
    let sig_ref = st2.next_sig_ref();
    let st3 = st2.with_sig_ref(sig);
    let range = st3.next_values(arg_vals);
    let st4 = st3.with_values(arg_vals);
    let ret_ty = sig.returns[0];
    let make = |dst: Value| Inst::CallIndirect { dst, sig: sig_ref, callee, args: range };
    let st5 = st4.with_def(ret_ty, make);
    lemma_values_grows(cx, scope, st, args, 0, Seq::empty());
    lemma_expr_grows(cx, scope, st1, sub);
    lemma_grows_steps(st2);
    lemma_grows_steps(st3);
    lemma_grows_def(st4, ret_ty, make);
    lemma_holds_grown(f, st4, st5);
    lemma_holds_grown(f, st3, st4);
    lemma_holds_grown(f, st2, st3);
    lemma_holds_grown(f, st1, st2);
    assert(values_of(Seq::<Value>::empty(), frame) =~= Seq::<u64>::empty());
    let (frame1, used1) = lemma_values_sound(
        cx,
        p,
        scope,
        st,
        args,
        0,
        Seq::empty(),
        f,
        frame,
        heap,
        depth,
        budget,
    );
    match eval_values(cx, p, resolve(scope, frame), args, 0, Seq::empty(), heap, depth) {
        Err(t) => (frame, 0),
        Ok((xs, heap1)) => {
            lemma_resolve_kept(scope, frame, frame1, st, st1);
            let (frame2, used2) = lemma_expr_sound(
                cx,
                p,
                scope,
                st1,
                sub,
                f,
                frame1,
                heap1,
                depth,
                (budget - used1) as nat,
            );
            match eval(cx, p, resolve(scope, frame), sub, heap1, depth) {
                Err(t) => (frame, 0),
                Ok((c, heap2)) => {
                    lemma_values_kept(arg_vals, frame1, frame2, st1, st3);
                    lemma_operands(f, st3, arg_vals, frame2);
                    lemma_call_indirect_step(
                        p,
                        malloc,
                        f,
                        st4,
                        ret_ty,
                        sig_ref,
                        callee,
                        range,
                        frame2,
                        heap2,
                        depth,
                        (budget - used1 - used2) as nat,
                        xs,
                    );
                    match run(p, malloc, crate::machine::func_at(c), xs, heap2, depth) {
                        Err(t) => (frame, 0),
                        Ok((x, heap3)) => {
                            let frame3 = frame2.with_val(st4.next_value(), x);
                            assert(keeps(frame2, frame3, st4));
                            lemma_keeps_trans(frame2, frame2, frame3, st2, st4);
                            lemma_keeps_trans(frame1, frame2, frame3, st1, st2);
                            lemma_keeps_trans(frame, frame1, frame3, st, st1);
                            assert(frame3.has(st4.next_value()));
                            (frame3, used1 + used2 + 1)
                        },
                    }
                },
            }
        },
    }
}

} // verus!
