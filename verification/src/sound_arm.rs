//! The arms of conditionals and switches compute what they mean.

use crate::builder::Body;
use crate::expr::Expr;
use crate::growth::{fits, lemma_expr_grows, lemma_starts_with_index, sizes_le};
use crate::ir::{Block, Inst, Value, Variable};
use crate::lowered::{Context, lower_arm, lower_expr};
use crate::machine::{block_start, exec, Frame, Heap, Program, step, Step, Trap};
use crate::meaning::eval;
use crate::scope::ScopeEntry;
use crate::sound::{
    holds, keeps, lemma_expr_sound, lemma_goto_step, lemma_holds_begun, lemma_holds_grown,
    lemma_inst_at, lemma_keeps_trans, lemma_next_step, resolve, scope_ok,
};
use crate::symbol::Symbol;
use vstd::prelude::*;

verus! {

/// What `f` holds of an arm: the body before the arm, and the block of the
/// arm where the arm begins.
pub proof fn lemma_arm_holds(
    cx: Context,
    scope: Map<Symbol, ScopeEntry>,
    st: Body,
    block: Block,
    expr: Expr,
    ret: Variable,
    ret_block: Block,
    f: Body,
)
    requires
        lower_arm(cx, scope, st, block, expr, ret, ret_block) is Ok,
        holds(f, lower_arm(cx, scope, st, block, expr, ret, ret_block)->Ok_0),
        fits(f),
        block.index < st.block_starts.len(),
        st.block_starts[block.index as int] is None,
    ensures
        holds(f, st),
        block_start(f, block) == Some(st.insts.len() as int),
        holds(f, lower_expr(cx, scope, st.at_block(block), expr)->Ok_0.0),
{
    let res = lower_arm(cx, scope, st, block, expr, ret, ret_block)->Ok_0;
    let st0 = st.at_block(block);
    let (st1, value) = lower_expr(cx, scope, st0, expr)->Ok_0;
    let st2 = st1.with_inst(Inst::DefVar { var: ret, value });
    lemma_inst_at(f, st2, Inst::Jump { target: ret_block });
    lemma_inst_at(f, st1, Inst::DefVar { var: ret, value });
    lemma_expr_grows(cx, scope, st0, expr);
    lemma_holds_grown(f, st0, st1);
    lemma_holds_begun(f, st, block);
}

/// The instructions of an arm compute what the expression of the arm means,
/// assign it to the variable of the conditional, and go on where the arms
/// meet.
pub proof fn lemma_arm_sound(
    cx: Context,
    p: Program,
    scope: Map<Symbol, ScopeEntry>,
    st: Body,
    block: Block,
    expr: Expr,
    ret: Variable,
    ret_block: Block,
    f: Body,
    frame: Frame,
    heap: Heap,
    depth: nat,
    budget: nat,
    meet: int,
) -> (out: (Frame, nat))
    requires
        lower_arm(cx, scope, st, block, expr, ret, ret_block) is Ok,
        holds(f, lower_arm(cx, scope, st, block, expr, ret, ret_block)->Ok_0),
        fits(f),
        block.index < st.block_starts.len(),
        st.block_starts[block.index as int] is None,
        scope_ok(scope, frame, st),
        ret.index < st.variables.len(),
        block_start(f, ret_block) == Some(meet),
        budget >= lower_arm(cx, scope, st, block, expr, ret, ret_block)->Ok_0.insts.len()
            - st.insts.len(),
    ensures
        ({
            let res = lower_arm(cx, scope, st, block, expr, ret, ret_block)->Ok_0;
            match eval(cx, p, resolve(scope, frame), expr, heap, depth) {
                Err(t) => exec(p, cx.malloc, f, st.insts.len() as int, frame, heap, depth, budget)
                    == Err::<(u64, Heap), Trap>(t),
                Ok((x, heap2)) => {
                    &&& exec(p, cx.malloc, f, st.insts.len() as int, frame, heap, depth, budget)
                        == exec(p, cx.malloc, f, meet, out.0, heap2, depth, (budget - out.1) as nat)
                    &&& out.1 <= res.insts.len() - st.insts.len()
                    &&& out.0.vars.contains_key(ret.index)
                    &&& out.0.vars[ret.index] == x
                    &&& keeps(frame, out.0, st)
                },
            }
        }),
    decreases expr, 2nat, 0nat,
{
    let malloc = cx.malloc;
    let res = lower_arm(cx, scope, st, block, expr, ret, ret_block)->Ok_0;
    let st0 = st.at_block(block);
    let (st1, value) = lower_expr(cx, scope, st0, expr)->Ok_0;
    let def_var = Inst::DefVar { var: ret, value };
    let jump = Inst::Jump { target: ret_block };
    let st2 = st1.with_inst(def_var);
    lemma_arm_holds(cx, scope, st, block, expr, ret, ret_block, f);
    lemma_inst_at(f, st2, jump);
    lemma_inst_at(f, st1, def_var);
    lemma_expr_grows(cx, scope, st0, expr);
    assert(scope_ok(scope, frame, st0));
    let (frame1, used1) = lemma_expr_sound(cx, p, scope, st0, expr, f, frame, heap, depth, budget);
    match eval(cx, p, resolve(scope, frame), expr, heap, depth) {
        Err(t) => (frame, 0),
        Ok((x, heap1)) => {
            let pc1 = st1.insts.len() as int;
            let budget1 = (budget - used1) as nat;
            let frame2 = Frame { vars: frame1.vars.insert(ret.index, x), ..frame1 };
            lemma_starts_with_index(f.variables, st0.variables, ret.index as int);
            assert(step(f, def_var, frame1, heap1) == Step::Next(frame2, heap1));
            lemma_next_step(p, malloc, f, pc1, frame1, heap1, depth, budget1, frame2, heap1);
            assert(step(f, jump, frame2, heap1) == Step::Goto(ret_block, frame2, heap1));
            lemma_goto_step(p, malloc, f, pc1 + 1, frame2, heap1, depth, (budget1 - 1) as nat, ret_block, meet);
            assert(keeps(frame1, frame2, st1));
            lemma_keeps_trans(frame, frame1, frame2, st0, st1);
            lemma_keeps_trans(frame, frame, frame2, st, st0);
            (frame2, used1 + 2)
        },
    }
}


/// The instructions of an arm and the read of the variable where the arms
/// meet compute what the expression of the arm means: the value is in `dst`.
pub proof fn lemma_arm_meets(
    cx: Context,
    p: Program,
    scope: Map<Symbol, ScopeEntry>,
    st: Body,
    block: Block,
    expr: Expr,
    ret: Variable,
    ret_block: Block,
    f: Body,
    frame: Frame,
    heap: Heap,
    depth: nat,
    budget: nat,
    meet: Body,
    dst: Value,
) -> (out: (Frame, nat))
    requires
        lower_arm(cx, scope, st, block, expr, ret, ret_block) is Ok,
        holds(f, lower_arm(cx, scope, st, block, expr, ret, ret_block)->Ok_0),
        fits(f),
        block.index < st.block_starts.len(),
        st.block_starts[block.index as int] is None,
        scope_ok(scope, frame, st),
        ret.index < st.variables.len(),
        block_start(f, ret_block) == Some(meet.insts.len() as int),
        meet.insts.len() < f.insts.len(),
        f.insts[meet.insts.len() as int] == (Inst::UseVar { dst, var: ret }),
        dst.index == meet.value_types.len(),
        sizes_le(st, meet),
        budget >= lower_arm(cx, scope, st, block, expr, ret, ret_block)->Ok_0.insts.len()
            - st.insts.len() + 1,
    ensures
        ({
            let res = lower_arm(cx, scope, st, block, expr, ret, ret_block)->Ok_0;
            match eval(cx, p, resolve(scope, frame), expr, heap, depth) {
                Err(t) => exec(p, cx.malloc, f, st.insts.len() as int, frame, heap, depth, budget)
                    == Err::<(u64, Heap), Trap>(t),
                Ok((x, heap2)) => {
                    &&& exec(p, cx.malloc, f, st.insts.len() as int, frame, heap, depth, budget)
                        == exec(
                        p,
                        cx.malloc,
                        f,
                        meet.insts.len() as int + 1,
                        out.0,
                        heap2,
                        depth,
                        (budget - out.1) as nat,
                    )
                    &&& out.1 <= res.insts.len() - st.insts.len() + 1
                    &&& out.0.has(dst)
                    &&& out.0.val(dst) == x
                    &&& keeps(frame, out.0, st)
                },
            }
        }),
    decreases expr, 3nat, 0nat,
{
    let malloc = cx.malloc;
    let at = meet.insts.len() as int;
    let (frame1, used1) = lemma_arm_sound(
        cx,
        p,
        scope,
        st,
        block,
        expr,
        ret,
        ret_block,
        f,
        frame,
        heap,
        depth,
        budget,
        at,
    );
    match eval(cx, p, resolve(scope, frame), expr, heap, depth) {
        Err(t) => (frame, 0),
        Ok((x, heap1)) => {
            let budget1 = (budget - used1) as nat;
            let use_var = Inst::UseVar { dst, var: ret };
            let frame2 = frame1.with_val(dst, x);
            assert(step(f, use_var, frame1, heap1) == Step::Next(frame2, heap1));
            lemma_next_step(p, malloc, f, at, frame1, heap1, depth, budget1, frame2, heap1);
            assert(keeps(frame1, frame2, st));
            lemma_keeps_trans(frame, frame1, frame2, st, st);
            (frame2, used1 + 1)
        },
    }
}

} // verus!
