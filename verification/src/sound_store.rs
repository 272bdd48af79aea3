//! Sequences of bindings compute what they mean.

use crate::builder::Body;
use crate::expr::Expr;
use crate::growth::{
    lemma_expr_grows, lemma_grows_steps, lemma_starts_with_index, lemma_stores_grows,
};
use crate::ir::{Inst, Value};
use crate::layout::Layout;
use crate::lowered::{Context, lower_expr, lower_stores, slot_size};
use crate::machine::{exec, Frame, Heap, mask, Program, step, Step, Trap};
use crate::meaning::{Binding, eval, eval_stores};
use crate::scope::ScopeEntry;
use crate::sound::{
    entry_ok, expr_ready, expr_sound, holds, keeps, lemma_expr_sound, lemma_holds_grown,
    lemma_inst_at, lemma_keeps_trans, lemma_next_step, lemma_resolve_kept, ready, resolve,
    scope_ok,
};
use crate::symbol::Symbol;
use vstd::prelude::*;

verus! {

/// The instructions of a sequence of bindings compute what the bindings
/// mean, and leave every binding in place.
pub proof fn lemma_stores_sound(
    cx: Context,
    p: Program,
    scope: Map<Symbol, ScopeEntry>,
    st: Body,
    stores: Vec<(Symbol, Layout, Expr)>,
    from: nat,
    f: Body,
    frame: Frame,
    heap: Heap,
    depth: nat,
    budget: nat,
) -> (out: (Frame, nat))
    requires
        lower_stores(cx, scope, st, stores, from) is Ok,
        ready(scope, st, lower_stores(cx, scope, st, stores, from)->Ok_0.0, f, frame, budget),
    ensures
        ({
            let (st2, inner) = lower_stores(cx, scope, st, stores, from)->Ok_0;
            match eval_stores(cx, p, resolve(scope, frame), stores, from, heap, depth) {
                Err(t) => exec(p, cx.malloc, f, st.insts.len() as int, frame, heap, depth, budget)
                    == Err::<(u64, Heap), Trap>(t),
                Ok((env2, heap2)) => {
                    &&& exec(p, cx.malloc, f, st.insts.len() as int, frame, heap, depth, budget)
                        == exec(
                        p,
                        cx.malloc,
                        f,
                        st2.insts.len() as int,
                        out.0,
                        heap2,
                        depth,
                        (budget - out.1) as nat,
                    )
                    &&& out.1 <= st2.insts.len() - st.insts.len()
                    &&& keeps(frame, out.0, st)
                    &&& env2 == resolve(inner, out.0)
                    &&& scope_ok(inner, out.0, st2)
                },
            }
        }),
    decreases stores, 0nat, stores@.len() - from,
{
    let malloc = cx.malloc;
    let (st_end, inner_end) = lower_stores(cx, scope, st, stores, from)->Ok_0;
    if from >= stores@.len() {
        (frame, 0)
    } else {
        let (name, layout, init) = stores@[from as int];
        let (st1, value) = lower_expr(cx, scope, st, init)->Ok_0;
        let size = slot_size(cx, layout)->Some_0;
        let expr_type = layout.machine_type(cx.cfg);
        let slot = st1.next_slot();
        let st1b = st1.with_slot(size);
        let inst = Inst::StackStore { value, slot, offset: 0 };
        let st2 = st1b.with_inst(inst);
        let inner = scope.insert(name, ScopeEntry::Stack { expr_type, slot });
        // What `f` holds, from the end backwards.
        lemma_expr_grows(cx, scope, st, init);
        lemma_stores_grows(cx, inner, st2, stores, from + 1);
        lemma_holds_grown(f, st2, st_end);
        lemma_inst_at(f, st1b, inst);
        lemma_grows_steps(st1);
        lemma_holds_grown(f, st1, st1b);
        lemma_starts_with_index(f.stack_slots, st1b.stack_slots, st1.stack_slots.len() as int);
        let (frame1, used1) = lemma_expr_sound(cx, p, scope, st, init, f, frame, heap, depth, budget);
        match eval(cx, p, resolve(scope, frame), init, heap, depth) {
            Err(t) => (frame, 0),
            Ok((x, heap1)) => {
                let pc1 = st1.insts.len() as int;
                let frame1b = Frame { slots: frame1.slots.insert((slot.index, 0), x), ..frame1 };
                let budget1 = (budget - used1) as nat;
                assert(step(f, inst, frame1, heap1) == Step::Next(frame1b, heap1));
            lemma_next_step(p, malloc, f, pc1, frame1, heap1, depth, budget1, frame1b, heap1);
                assert(keeps(frame1, frame1b, st1));
                lemma_keeps_trans(frame, frame1, frame1b, st, st1);
                lemma_resolve_kept(scope, frame, frame1b, st, st2);
                assert(scope_ok(inner, frame1b, st2)) by {
                    assert forall|s: Symbol| inner.contains_key(s) implies entry_ok(
                        #[trigger] inner[s],
                        frame1b,
                        st2,
                    ) by {
                        if s != name {
                            assert(scope.contains_key(s));
                            assert(entry_ok(scope[s], frame1b, st2));
                        }
                    }
                }
                assert(resolve(inner, frame1b) =~= resolve(scope, frame).insert(
                    name,
                    Binding::Value(mask(expr_type, x)),
                ));
                let (frame2, used2) = lemma_stores_sound(
                    cx,
                    p,
                    inner,
                    st2,
                    stores,
                    from + 1,
                    f,
                    frame1b,
                    heap1,
                    depth,
                    (budget1 - 1) as nat,
                );
                match eval_stores(cx, p, resolve(inner, frame1b), stores, from + 1, heap1, depth) {
                    Err(t) => (frame, 0),
                    Ok((env2, heap2)) => {
                        lemma_keeps_trans(frame, frame1b, frame2, st, st2);
                        (frame2, used1 + 1 + used2)
                    },
                }
            },
        }
    }
}

/// The instructions of a sequence of bindings and its body compute what the
/// sequence means.
pub proof fn lemma_store_sound(
    cx: Context,
    p: Program,
    scope: Map<Symbol, ScopeEntry>,
    st: Body,
    expr: Expr,
    f: Body,
    frame: Frame,
    heap: Heap,
    depth: nat,
    budget: nat,
) -> (out: (Frame, nat))
    requires
        expr_ready(cx, scope, st, expr, f, frame, budget),
        expr is Store,
    ensures
        expr_sound(cx, p, scope, st, expr, f, frame, heap, depth, budget, out),
    decreases expr, 0nat, 0nat,
{
    match expr {
        Expr::Store(stores, ret) => {
            let (st1, inner) = lower_stores(cx, scope, st, stores, 0)->Ok_0;
            let (st2, v) = lower_expr(cx, inner, st1, *ret)->Ok_0;
            lemma_stores_grows(cx, scope, st, stores, 0);
            lemma_expr_grows(cx, inner, st1, *ret);
            lemma_holds_grown(f, st1, st2);
            let (frame1, used1) = lemma_stores_sound(
                cx,
                p,
                scope,
                st,
                stores,
                0,
                f,
                frame,
                heap,
                depth,
                budget,
            );
            match eval_stores(cx, p, resolve(scope, frame), stores, 0, heap, depth) {
                Err(t) => (frame, 0),
                Ok((env1, heap1)) => {
                    let (frame2, used2) = lemma_expr_sound(
                        cx,
                        p,
                        inner,
                        st1,
                        *ret,
                        f,
                        frame1,
                        heap1,
                        depth,
                        (budget - used1) as nat,
                    );
                    match eval(cx, p, env1, *ret, heap1, depth) {
                        Err(t) => (frame, 0),
                        Ok((x, heap2)) => {
                            lemma_keeps_trans(frame, frame1, frame2, st, st1);
                            (frame2, used1 + used2)
                        },
                    }
                },
            }
        },
        _ => (frame, 0),
    }
}

} // verus!
