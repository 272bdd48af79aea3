//! Conditionals compute what they mean.

use crate::builder::Body;
use crate::expr::Expr;
use crate::growth::{
    fits, lemma_arm_grows, lemma_expr_grows, lemma_grows_at_block, lemma_grows_def,
    lemma_grows_steps, lemma_grows_trans, lemma_starts_with_index, sizes_le,
};
use crate::ir::{Block, Inst, Type, Value, Variable};
use crate::lowered::{Context, lower_arm, lower_expr};
use crate::machine::{block_start, Frame, Heap, Program, step, Step};
use crate::meaning::eval;
use crate::scope::ScopeEntry;
use crate::sound::{
    expr_ready, expr_sound, holds, lemma_expr_sound, lemma_goto_step, lemma_holds_begun,
    lemma_holds_grown, lemma_inst_at, lemma_keeps_trans, lemma_next_step, lemma_resolve_kept,
    resolve, scope_ok,
};
use crate::sound_arm::{lemma_arm_holds, lemma_arm_meets};
use crate::symbol::Symbol;
use vstd::prelude::*;

verus! {

/// The bodies and the names that lowering a conditional goes through.
pub struct CondParts {
    pub ret_type: Type,
    pub ret_block: Block,
    pub ret: Variable,
    /// Before the condition.
    pub st2: Body,
    /// After the condition.
    pub st3: Body,
    pub c: Value,
    pub pass_block: Block,
    pub fail_block: Block,
    /// After the branch.
    pub st5: Body,
    /// After the arm that is taken when the condition holds.
    pub st6: Body,
    /// After the other arm.
    pub st7: Body,
    /// Where the arms meet.
    pub st8: Body,
    pub dst: Value,
    pub st9: Body,
}

/// The bodies and the names that lowering the conditional `expr` goes
/// through.
pub open spec fn cond_parts(cx: Context, scope: Map<Symbol, ScopeEntry>, st: Body, expr: Expr)
    -> CondParts {
    let ret_type = expr->Cond_ret_layout.machine_type(cx.cfg);
    let ret_block = st.next_block();
    let ret = st.with_block().next_variable();
    let st2 = st.with_block().with_variable(ret_type);
    let (st3, c) = lower_expr(cx, scope, st2, *expr->Cond_cond)->Ok_0;
    let pass_block = st3.next_block();
    let fail_block = st3.with_block().next_block();
    let st5 = st3.with_block().with_block().with_inst(
        Inst::Brnz { cond: c, target: pass_block },
    ).with_inst(Inst::Jump { target: fail_block });
    let st6 = lower_arm(cx, scope, st5, pass_block, *expr->Cond_pass, ret, ret_block)->Ok_0;
    let st7 = lower_arm(cx, scope, st6, fail_block, *expr->Cond_fail, ret, ret_block)->Ok_0;
    let st8 = st7.at_block(ret_block);
    CondParts {
        ret_type,
        ret_block,
        ret,
        st2,
        st3,
        c,
        pass_block,
        fail_block,
        st5,
        st6,
        st7,
        st8,
        dst: st8.next_value(),
        st9: st8.with_def(ret_type, |dst: Value| Inst::UseVar { dst, var: ret }),
    }
}

/// What a body that holds a lowered conditional holds of its parts.
pub proof fn lemma_cond_holds(cx: Context, scope: Map<Symbol, ScopeEntry>, st: Body, expr: Expr, f: Body)
    requires
        expr is Cond,
        lower_expr(cx, scope, st, expr) is Ok,
        st.filling,
        holds(f, lower_expr(cx, scope, st, expr)->Ok_0.0),
        fits(f),
    ensures
        ({
            let parts = cond_parts(cx, scope, st, expr);
            &&& lower_expr(cx, scope, st, expr)->Ok_0 == (parts.st9, parts.dst)
            &&& lower_expr(cx, scope, parts.st2, *expr->Cond_cond) is Ok
            &&& lower_arm(
                cx,
                scope,
                parts.st5,
                parts.pass_block,
                *expr->Cond_pass,
                parts.ret,
                parts.ret_block,
            ) is Ok
            &&& lower_arm(
                cx,
                scope,
                parts.st6,
                parts.fail_block,
                *expr->Cond_fail,
                parts.ret,
                parts.ret_block,
            ) is Ok
            &&& parts.st2.filling
            &&& holds(f, parts.st3)
            &&& holds(f, parts.st6)
            &&& holds(f, parts.st7)
            &&& sizes_le(st, parts.st2)
            &&& sizes_le(parts.st2, parts.st3)
            &&& sizes_le(parts.st3, parts.st5)
            &&& sizes_le(parts.st5, parts.st6)
            &&& sizes_le(parts.st6, parts.st7)
            &&& parts.st2.value_types.len() == st.value_types.len()
            &&& parts.st2.stack_slots.len() == st.stack_slots.len()
            &&& parts.st2.insts.len() == st.insts.len()
            &&& parts.st5.insts.len() == parts.st3.insts.len() + 2
            &&& parts.st9.insts.len() == parts.st7.insts.len() + 1
            &&& parts.st7.insts.len() < f.insts.len()
            &&& f.insts[parts.st3.insts.len() as int] == Inst::Brnz {
                cond: parts.c,
                target: parts.pass_block,
            }
            &&& f.insts[parts.st3.insts.len() as int + 1] == Inst::Jump { target: parts.fail_block }
            &&& f.insts[parts.st7.insts.len() as int] == Inst::UseVar {
                dst: parts.dst,
                var: parts.ret,
            }
            &&& block_start(f, parts.ret_block) == Some(parts.st7.insts.len() as int)
            &&& block_start(f, parts.pass_block) == Some(parts.st5.insts.len() as int)
            &&& block_start(f, parts.fail_block) == Some(parts.st6.insts.len() as int)
            &&& parts.pass_block.index < parts.st5.block_starts.len()
            &&& parts.st5.block_starts[parts.pass_block.index as int] is None
            &&& parts.fail_block.index < parts.st6.block_starts.len()
            &&& parts.st6.block_starts[parts.fail_block.index as int] is None
            &&& parts.ret.index < parts.st5.variables.len()
            &&& parts.dst.index == parts.st7.value_types.len()
            &&& parts.st9.value_types.len() == parts.st7.value_types.len() + 1
        }),
{
    let parts = cond_parts(cx, scope, st, expr);
    match expr {
        Expr::Cond { cond, cond_layout, pass, fail, ret_layout } => {
            let ret_type = parts.ret_type;
            let ret_block = parts.ret_block;
            let ret = parts.ret;
            let st1 = st.with_block();
            let st2 = parts.st2;
            let st3 = parts.st3;
            let c = parts.c;
            let pass_block = parts.pass_block;
            let fail_block = parts.fail_block;
            let st4 = st3.with_block().with_block();
            let brnz = Inst::Brnz { cond: c, target: pass_block };
            let jump = Inst::Jump { target: fail_block };
            let st4b = st4.with_inst(brnz);
            let st5 = parts.st5;
            let st6 = parts.st6;
            let st7 = parts.st7;
            let st8 = parts.st8;
            let use_var = |dst: Value| Inst::UseVar { dst, var: ret };
            let st9 = parts.st9;
            let dst = parts.dst;
            lemma_grows_steps(st);
            lemma_grows_steps(st1);
            lemma_expr_grows(cx, scope, st2, *cond);
            lemma_grows_steps(st3);
            lemma_grows_steps(st3.with_block());
            lemma_grows_steps(st4);
            lemma_grows_steps(st4b);
            lemma_arm_grows(cx, scope, st5, pass_block, *pass, ret, ret_block, st5);
            lemma_arm_grows(cx, scope, st6, fail_block, *fail, ret, ret_block, st6);
            lemma_grows_at_block(st7, st7, ret_block);
            lemma_grows_def(st8, ret_type, use_var);
            assert(fits(st9));
            assert(fits(st3));
            lemma_starts_with_index(st3.block_starts, st2.block_starts, ret_block.index as int);
            assert(st5.block_starts[ret_block.index as int] is None);
            assert(st5.block_starts[pass_block.index as int] is None);
            assert(st5.block_starts[fail_block.index as int] is None);
            assert(st6.block_starts[ret_block.index as int] is None);
            assert(st6.block_starts[fail_block.index as int] is None);
            assert(st7.block_starts[ret_block.index as int] is None);
            lemma_holds_grown(f, st8, st9);
            lemma_holds_begun(f, st7, ret_block);
            lemma_arm_holds(cx, scope, st6, fail_block, *fail, ret, ret_block, f);
            lemma_arm_holds(cx, scope, st5, pass_block, *pass, ret, ret_block, f);
            lemma_inst_at(f, st4b, jump);
            lemma_inst_at(f, st4, brnz);
            lemma_grows_trans(st3, st3.with_block(), st4);
            lemma_holds_grown(f, st3, st4);
            lemma_inst_at(f, st8.with_value(ret_type), use_var(dst));
        },
        _ => {},
    }
}

/// The instructions of a conditional compute what the conditional means.
pub proof fn lemma_cond_sound(
    cx: Context,
    p: Program,
    scope: Map<Symbol, ScopeEntry>,
    st: Body,
    expr: Expr,
    f: Body,
    frame: Frame,
    heap: Heap,
    depth: nat,
    budget: nat,
) -> (out: (Frame, nat))
    requires
        expr_ready(cx, scope, st, expr, f, frame, budget),
        expr is Cond,
    ensures
        expr_sound(cx, p, scope, st, expr, f, frame, heap, depth, budget, out),
    decreases expr, 0nat, 0nat,
{
    let malloc = cx.malloc;
    let parts = cond_parts(cx, scope, st, expr);
    lemma_cond_holds(cx, scope, st, expr, f);
    let cond = *expr->Cond_cond;
    let pass = *expr->Cond_pass;
    let fail = *expr->Cond_fail;
    assert(scope_ok(scope, frame, parts.st2));
    let (frame3, used3) = lemma_expr_sound(cx, p, scope, parts.st2, cond, f, frame, heap, depth, budget);
    match eval(cx, p, resolve(scope, frame), cond, heap, depth) {
        Err(t) => (frame, 0),
        Ok((x, heap3)) => {
            let pc3 = parts.st3.insts.len() as int;
            let budget3 = (budget - used3) as nat;
            lemma_resolve_kept(scope, frame, frame3, parts.st2, parts.st5);
            lemma_resolve_kept(scope, frame, frame3, parts.st2, parts.st6);
            lemma_keeps_trans(frame, frame, frame3, st, parts.st2);
            let brnz = Inst::Brnz { cond: parts.c, target: parts.pass_block };
            let jump = Inst::Jump { target: parts.fail_block };
            if x != 0 {
                assert(step(f, brnz, frame3, heap3) == Step::Goto(parts.pass_block, frame3, heap3));
            lemma_goto_step(p, malloc, f, pc3, frame3, heap3, depth, budget3, parts.pass_block, parts.st5.insts.len() as int);
                let (frame9, used6) = lemma_arm_meets(
                    cx,
                    p,
                    scope,
                    parts.st5,
                    parts.pass_block,
                    pass,
                    parts.ret,
                    parts.ret_block,
                    f,
                    frame3,
                    heap3,
                    depth,
                    (budget3 - 1) as nat,
                    parts.st7,
                    parts.dst,
                );
                match eval(cx, p, resolve(scope, frame), pass, heap3, depth) {
                    Err(t) => (frame, 0),
                    Ok((y, heap6)) => {
                        lemma_keeps_trans(frame, frame3, frame9, st, parts.st5);
                        (frame9, used3 + 1 + used6)
                    },
                }
            } else {
                assert(step(f, brnz, frame3, heap3) == Step::Next(frame3, heap3));
            lemma_next_step(p, malloc, f, pc3, frame3, heap3, depth, budget3, frame3, heap3);
                assert(step(f, jump, frame3, heap3) == Step::Goto(parts.fail_block, frame3, heap3));
            lemma_goto_step(p, malloc, f, pc3 + 1, frame3, heap3, depth, (budget3 - 1) as nat, parts.fail_block, parts.st6.insts.len() as int);
                let (frame9, used7) = lemma_arm_meets(
                    cx,
                    p,
                    scope,
                    parts.st6,
                    parts.fail_block,
                    fail,
                    parts.ret,
                    parts.ret_block,
                    f,
                    frame3,
                    heap3,
                    depth,
                    (budget3 - 2) as nat,
                    parts.st7,
                    parts.dst,
                );
                match eval(cx, p, resolve(scope, frame), fail, heap3, depth) {
                    Err(t) => (frame, 0),
                    Ok((y, heap7)) => {
                        lemma_keeps_trans(frame, frame3, frame9, st, parts.st6);
                        (frame9, used3 + 2 + used7)
                    },
                }
            }
        },
    }
}

} // verus!
