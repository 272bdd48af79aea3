//! Switches compute what they mean.

use crate::builder::Body;
use crate::expr::Expr;
use crate::growth::{
    fits, lemma_arm_grows, lemma_branches_grows, lemma_expr_grows, lemma_grows_at_block,
    lemma_grows_blocks, lemma_grows_def, lemma_grows_steps, lemma_starts_with_index, sizes_le,
};
use crate::ir::{Block, Inst, Type, Value, Variable};
use crate::lowered::{Context, lower_arm, lower_branches, lower_expr};
use crate::machine::{block_start, Frame, Heap, Program, step, Step};
use crate::meaning::{Binding, eval, eval_selected};
use crate::scope::ScopeEntry;
use crate::sound::{
    expr_ready, expr_sound, holds, lemma_expr_sound, lemma_goto_step, lemma_holds_begun,
    lemma_holds_grown, lemma_inst_at, lemma_keeps_trans, lemma_resolve_kept, resolve, scope_ok,
};
use crate::sound_arm::{lemma_arm_holds, lemma_arm_meets};
use crate::symbol::Symbol;
use vstd::prelude::*;

verus! {

/// The block of case `k` of a switch whose first case has the block `first`.
pub open spec fn case_block(first: Block, k: int) -> Block {
    Block { index: (first.index + k) as usize }
}

/// The body before the arm of case `k` is lowered: the body `st` after the
/// arms of the cases before `k`.
pub open spec fn arm_state(
    cx: Context,
    scope: Map<Symbol, ScopeEntry>,
    st: Body,
    branches: Vec<(u64, Expr)>,
    k: nat,
    first: Block,
    ret: Variable,
    ret_block: Block,
) -> Body
    decreases k,
{
    if k == 0 {
        st
    } else {
        lower_arm(
            cx,
            scope,
            arm_state(cx, scope, st, branches, (k - 1) as nat, first, ret, ret_block),
            case_block(first, k - 1),
            branches@[k - 1].1,
            ret,
            ret_block,
        )->Ok_0
    }
}

/// Whether the blocks of a switch from the one of the default on, but those
/// of the cases before `k`, have not been begun in `st`.
pub open spec fn cases_open(st: Body, first: Block, n: nat, k: nat) -> bool {
    &&& first.index >= 2
    &&& first.index + n <= st.block_starts.len()
    &&& forall|j: int|
        first.index - 2 <= j < first.index + n && !(first.index <= j < first.index + k) ==> (
        #[trigger] st.block_starts[j]) is None
}

/// Lowering the arms of a switch goes through the body before each arm.
pub proof fn lemma_arm_states(
    cx: Context,
    scope: Map<Symbol, ScopeEntry>,
    st: Body,
    branches: Vec<(u64, Expr)>,
    k: nat,
    first: Block,
    ret: Variable,
    ret_block: Block,
)
    requires
        k <= branches@.len(),
        lower_branches(cx, scope, st, branches, 0, first, ret, ret_block) is Ok,
        fits(lower_branches(cx, scope, st, branches, 0, first, ret, ret_block)->Ok_0),
        !st.filling,
        cases_open(st, first, branches@.len(), 0),
    ensures
        ({
            let at = arm_state(cx, scope, st, branches, k, first, ret, ret_block);
            let end = lower_branches(cx, scope, st, branches, 0, first, ret, ret_block)->Ok_0;
            &&& lower_branches(cx, scope, at, branches, k, first, ret, ret_block) == Ok::<
                Body,
                crate::lowered::LowerError,
            >(end)
            &&& sizes_le(st, at)
            &&& sizes_le(at, end)
            &&& !at.filling
            &&& cases_open(at, first, branches@.len(), k)
            &&& at.variables.len() >= st.variables.len()
            &&& k == branches@.len() ==> at == end
        }),
    decreases k,
{
    let end = lower_branches(cx, scope, st, branches, 0, first, ret, ret_block)->Ok_0;
    if k == 0 {
        lemma_branches_grows(cx, scope, st, branches, 0, first, ret, ret_block, st);
    } else {
        let before = arm_state(cx, scope, st, branches, (k - 1) as nat, first, ret, ret_block);
        let at = arm_state(cx, scope, st, branches, k, first, ret, ret_block);
        let block = case_block(first, k - 1);
        lemma_arm_states(cx, scope, st, branches, (k - 1) as nat, first, ret, ret_block);
        lemma_arm_grows(cx, scope, before, block, branches@[k - 1].1, ret, ret_block, before);
        lemma_branches_grows(cx, scope, at, branches, k, first, ret, ret_block, at);
        assert(fits(at));
        assert(cases_open(at, first, branches@.len(), k)) by {
            assert forall|j: int|
                first.index - 2 <= j < first.index + branches@.len() && !(first.index <= j
                    < first.index + k) implies (#[trigger] at.block_starts[j]) is None by {
                assert(before.block_starts[j] is None);
            }
        }
    }
}

/// What a body that holds the lowered arms of a switch holds of the body
/// before each arm, and where the block of each case begins.
pub proof fn lemma_arm_states_held(
    cx: Context,
    scope: Map<Symbol, ScopeEntry>,
    st: Body,
    branches: Vec<(u64, Expr)>,
    k: nat,
    first: Block,
    ret: Variable,
    ret_block: Block,
    f: Body,
)
    requires
        k <= branches@.len(),
        lower_branches(cx, scope, st, branches, 0, first, ret, ret_block) is Ok,
        holds(f, lower_branches(cx, scope, st, branches, 0, first, ret, ret_block)->Ok_0),
        fits(f),
        !st.filling,
        cases_open(st, first, branches@.len(), 0),
    ensures
        ({
            let at = arm_state(cx, scope, st, branches, k, first, ret, ret_block);
            &&& holds(f, at)
            &&& k < branches@.len() ==> block_start(f, case_block(first, k as int)) == Some(
                at.insts.len() as int,
            ) && lower_arm(
                cx,
                scope,
                at,
                case_block(first, k as int),
                branches@[k as int].1,
                ret,
                ret_block,
            ) is Ok && holds(
                f,
                lower_arm(
                    cx,
                    scope,
                    at,
                    case_block(first, k as int),
                    branches@[k as int].1,
                    ret,
                    ret_block,
                )->Ok_0,
            )
        }),
    decreases branches@.len() - k,
{
    let end = lower_branches(cx, scope, st, branches, 0, first, ret, ret_block)->Ok_0;
    let at = arm_state(cx, scope, st, branches, k, first, ret, ret_block);
    lemma_arm_states(cx, scope, st, branches, k, first, ret, ret_block);
    if k < branches@.len() {
        let next = arm_state(cx, scope, st, branches, k + 1, first, ret, ret_block);
        lemma_arm_states_held(cx, scope, st, branches, k + 1, first, ret, ret_block, f);
        lemma_arm_holds(
            cx,
            scope,
            at,
            case_block(first, k as int),
            branches@[k as int].1,
            ret,
            ret_block,
            f,
        );
    }
}

/// The case that a switch takes for `key`: the first from `from` on that
/// equals `key`.
pub open spec fn chosen(branches: Seq<(u64, Expr)>, from: int, key: u64) -> Option<int>
    decreases branches.len() - from,
{
    if from < 0 || from >= branches.len() {
        None
    } else if branches[from].0 == key {
        Some(from)
    } else {
        chosen(branches, from + 1, key)
    }
}

/// The machine and the meaning take the same case.
pub proof fn lemma_chosen(
    cx: Context,
    p: Program,
    env: Map<Symbol, Binding>,
    expr: Expr,
    from: nat,
    key: u64,
    heap: Heap,
    depth: nat,
    first: Block,
    default: Block,
)
    requires
        expr is Switch,
        first.index + expr->Switch_branches@.len() <= usize::MAX,
    ensures
        ({
            let branches = expr->Switch_branches@;
            match chosen(branches, from as int, key) {
                Some(k) => from <= k < branches.len() && crate::machine::select_case(
                    crate::lowered::case_table(branches, first),
                    from as int,
                    key,
                    default,
                ) == case_block(first, k) && eval_selected(cx, p, env, expr, from, key, heap, depth)
                    == eval(cx, p, env, branches[k].1, heap, depth),
                None => crate::machine::select_case(
                    crate::lowered::case_table(branches, first),
                    from as int,
                    key,
                    default,
                ) == default && eval_selected(cx, p, env, expr, from, key, heap, depth) == eval(
                    cx,
                    p,
                    env,
                    *expr->Switch_default_branch,
                    heap,
                    depth,
                ),
            }
        }),
    decreases expr->Switch_branches@.len() - from,
{
    let branches = expr->Switch_branches@;
    if from < branches.len() && branches[from as int].0 != key {
        lemma_chosen(cx, p, env, expr, from + 1, key, heap, depth, first, default);
    }
}

/// The bodies and the names that lowering a switch goes through.
pub struct SwitchParts {
    pub ret_type: Type,
    pub ret: Variable,
    pub default_block: Block,
    pub ret_block: Block,
    pub first: Block,
    /// Before the discriminant.
    pub st3: Body,
    /// After the discriminant.
    pub st4: Body,
    pub c: Value,
    pub switch: Inst,
    /// After the dispatch.
    pub st5: Body,
    /// After the arms of the cases.
    pub st6: Body,
    /// After the arm of the default.
    pub st7: Body,
    pub st8: Body,
    pub dst: Value,
    pub st9: Body,
}

/// The bodies and the names that lowering the switch `expr` goes through.
pub open spec fn switch_parts(cx: Context, scope: Map<Symbol, ScopeEntry>, st: Body, expr: Expr)
    -> SwitchParts {
    let branches = expr->Switch_branches;
    let ret_type = expr->Switch_ret_layout.machine_type(cx.cfg);
    let ret = st.next_variable();
    let st1 = st.with_variable(ret_type);
    let default_block = st1.next_block();
    let ret_block = st1.with_block().next_block();
    let st2 = st1.with_block().with_block();
    let first = st2.next_block();
    let st3 = crate::lowered::with_blocks(st2, branches@.len());
    let (st4, c) = lower_expr(cx, scope, st3, *expr->Switch_cond)->Ok_0;
    let table = crate::lowered::case_table(branches@, first);
    let switch = Inst::Switch { cond: c, cases: st4.next_cases(table), default: default_block };
    let st5 = st4.with_cases(table).with_inst(switch);
    let st6 = lower_branches(cx, scope, st5, branches, 0, first, ret, ret_block)->Ok_0;
    let st7 = lower_arm(
        cx,
        scope,
        st6,
        default_block,
        *expr->Switch_default_branch,
        ret,
        ret_block,
    )->Ok_0;
    let st8 = st7.at_block(ret_block);
    SwitchParts {
        ret_type,
        ret,
        default_block,
        ret_block,
        first,
        st3,
        st4,
        c,
        switch,
        st5,
        st6,
        st7,
        st8,
        dst: st8.next_value(),
        st9: st8.with_def(ret_type, |dst: Value| Inst::UseVar { dst, var: ret }),
    }
}

/// What a body that holds a lowered switch holds of its parts.
pub proof fn lemma_switch_holds(cx: Context, scope: Map<Symbol, ScopeEntry>, st: Body, expr: Expr, f: Body)
    requires
        expr is Switch,
        lower_expr(cx, scope, st, expr) is Ok,
        st.filling,
        holds(f, lower_expr(cx, scope, st, expr)->Ok_0.0),
        fits(f),
    ensures
        ({
            let parts = switch_parts(cx, scope, st, expr);
            let branches = expr->Switch_branches;
            &&& lower_expr(cx, scope, st, expr)->Ok_0 == (parts.st9, parts.dst)
            &&& lower_expr(cx, scope, parts.st3, *expr->Switch_cond) is Ok
            &&& lower_branches(
                cx,
                scope,
                parts.st5,
                branches,
                0,
                parts.first,
                parts.ret,
                parts.ret_block,
            ) is Ok
            &&& lower_arm(
                cx,
                scope,
                parts.st6,
                parts.default_block,
                *expr->Switch_default_branch,
                parts.ret,
                parts.ret_block,
            ) is Ok
            &&& parts.st3.filling
            &&& !parts.st5.filling
            &&& cases_open(parts.st5, parts.first, branches@.len(), 0)
            &&& holds(f, parts.st4)
            &&& holds(f, parts.st6)
            &&& holds(f, parts.st7)
            &&& fits(parts.st6)
            &&& sizes_le(st, parts.st3)
            &&& sizes_le(parts.st3, parts.st4)
            &&& sizes_le(parts.st4, parts.st5)
            &&& sizes_le(parts.st5, parts.st6)
            &&& sizes_le(parts.st6, parts.st7)
            &&& parts.st3.value_types.len() == st.value_types.len()
            &&& parts.st3.stack_slots.len() == st.stack_slots.len()
            &&& parts.st3.insts.len() == st.insts.len()
            &&& parts.st5.insts.len() == parts.st4.insts.len() + 1
            &&& parts.st9.insts.len() == parts.st7.insts.len() + 1
            &&& parts.st7.insts.len() < f.insts.len()
            &&& f.insts[parts.st4.insts.len() as int] == parts.switch
            &&& f.insts[parts.st7.insts.len() as int] == Inst::UseVar {
                dst: parts.dst,
                var: parts.ret,
            }
            &&& parts.switch matches Inst::Switch { cond, cases, default } && cond == parts.c
                && default == parts.default_block && crate::machine::in_pool(
                cases,
                f.case_pool.len(),
            ) && f.case_pool.subrange(cases.start as int, cases.start + cases.len)
                == crate::lowered::case_table(branches@, parts.first)
            &&& block_start(f, parts.ret_block) == Some(parts.st7.insts.len() as int)
            &&& block_start(f, parts.default_block) == Some(parts.st6.insts.len() as int)
            &&& parts.default_block.index < parts.st6.block_starts.len()
            &&& parts.st6.block_starts[parts.default_block.index as int] is None
            &&& parts.ret.index < parts.st5.variables.len()
            &&& parts.dst.index == parts.st7.value_types.len()
            &&& parts.st9.value_types.len() == parts.st7.value_types.len() + 1
            &&& parts.first.index + branches@.len() <= usize::MAX
        }),
{
    let parts = switch_parts(cx, scope, st, expr);
    match expr {
        Expr::Switch { cond, cond_layout, branches, default_branch, ret_layout } => {
            let ret_type = parts.ret_type;
            let ret = parts.ret;
            let st1 = st.with_variable(ret_type);
            let st1b = st1.with_block();
            let st2 = st1b.with_block();
            let default_block = parts.default_block;
            let ret_block = parts.ret_block;
            let first = parts.first;
            let st3 = parts.st3;
            let st4 = parts.st4;
            let table = crate::lowered::case_table(branches@, first);
            let st4b = st4.with_cases(table);
            let st5 = parts.st5;
            let st6 = parts.st6;
            let st7 = parts.st7;
            let st8 = parts.st8;
            let use_var = |dst: Value| Inst::UseVar { dst, var: ret };
            let st9 = parts.st9;
            lemma_grows_steps(st);
            lemma_grows_steps(st1);
            lemma_grows_steps(st1b);
            lemma_grows_blocks(st2, branches@.len());
            lemma_expr_grows(cx, scope, st3, *cond);
            lemma_grows_steps(st4);
            lemma_grows_steps(st4b);
            lemma_branches_grows(cx, scope, st5, branches, 0, first, ret, ret_block, st5);
            lemma_arm_grows(cx, scope, st6, default_block, *default_branch, ret, ret_block, st6);
            lemma_grows_at_block(st7, st7, ret_block);
            lemma_grows_def(st8, ret_type, use_var);
            assert(fits(st9));
            assert(fits(st4));
            assert forall|j: int| first.index - 2 <= j < first.index + branches@.len() implies (
            #[trigger] st5.block_starts[j]) is None by {
                lemma_starts_with_index(st4.block_starts, st3.block_starts, j);
                if j < st2.block_starts.len() {
                    lemma_starts_with_index(st3.block_starts, st2.block_starts, j);
                }
            }
            assert(st6.block_starts[default_block.index as int] is None);
            assert(st6.block_starts[ret_block.index as int] is None);
            assert(st7.block_starts[ret_block.index as int] is None);
            lemma_holds_grown(f, st8, st9);
            lemma_holds_begun(f, st7, ret_block);
            lemma_arm_holds(cx, scope, st6, default_block, *default_branch, ret, ret_block, f);
            lemma_arm_states_held(cx, scope, st5, branches, 0, first, ret, ret_block, f);
            lemma_inst_at(f, st4b, parts.switch);
            lemma_holds_grown(f, st4, st4b);
            lemma_inst_at(f, st8.with_value(ret_type), use_var(parts.dst));
            assert(f.case_pool.subrange(
                st4.case_pool.len() as int,
                (st4.case_pool.len() + table.len()) as int,
            ) == table) by {
                assert forall|i: int| 0 <= i < table.len() implies f.case_pool[st4.case_pool.len()
                    + i] == table[i] by {
                    lemma_starts_with_index(f.case_pool, st4b.case_pool, st4.case_pool.len() + i);
                }
            }
        },
        _ => {},
    }
}

/// The instructions of a switch compute what the switch means.
pub proof fn lemma_switch_sound(
    cx: Context,
    p: Program,
    scope: Map<Symbol, ScopeEntry>,
    st: Body,
    expr: Expr,
    f: Body,
    frame: Frame,
    heap: Heap,
    depth: nat,
    budget: nat,
) -> (out: (Frame, nat))
    requires
        expr_ready(cx, scope, st, expr, f, frame, budget),
        expr is Switch,
    ensures
        expr_sound(cx, p, scope, st, expr, f, frame, heap, depth, budget, out),
    decreases expr, 0nat, 0nat,
{
    let malloc = cx.malloc;
    let parts = switch_parts(cx, scope, st, expr);
    lemma_switch_holds(cx, scope, st, expr, f);
    let cond = *expr->Switch_cond;
    let branches = expr->Switch_branches;
    let default = *expr->Switch_default_branch;
    assert(scope_ok(scope, frame, parts.st3));
    let (frame4, used4) = lemma_expr_sound(cx, p, scope, parts.st3, cond, f, frame, heap, depth, budget);
    match eval(cx, p, resolve(scope, frame), cond, heap, depth) {
        Err(t) => (frame, 0),
        Ok((x, heap4)) => {
            let pc4 = parts.st4.insts.len() as int;
            let budget4 = (budget - used4) as nat;
            lemma_keeps_trans(frame, frame, frame4, st, parts.st3);
            lemma_chosen(
                cx,
                p,
                resolve(scope, frame),
                expr,
                0,
                x,
                heap4,
                depth,
                parts.first,
                parts.default_block,
            );
            let (at, block, arm) = match chosen(branches@, 0, x) {
                Some(k) => (
                    arm_state(
                        cx,
                        scope,
                        parts.st5,
                        branches,
                        k as nat,
                        parts.first,
                        parts.ret,
                        parts.ret_block,
                    ),
                    case_block(parts.first, k),
                    branches@[k].1,
                ),
                None => (parts.st6, parts.default_block, default),
            };
            match chosen(branches@, 0, x) {
                Some(k) => {
                    lemma_arm_states(
                        cx,
                        scope,
                        parts.st5,
                        branches,
                        k as nat,
                        parts.first,
                        parts.ret,
                        parts.ret_block,
                    );
                    lemma_arm_states(
                        cx,
                        scope,
                        parts.st5,
                        branches,
                        (k + 1) as nat,
                        parts.first,
                        parts.ret,
                        parts.ret_block,
                    );
                    lemma_arm_states_held(
                        cx,
                        scope,
                        parts.st5,
                        branches,
                        k as nat,
                        parts.first,
                        parts.ret,
                        parts.ret_block,
                        f,
                    );
                    assert(block.index == parts.first.index + k);
                    assert(at.block_starts[parts.first.index + k] is None);
                    lemma_arm_grows(cx, scope, at, block, arm, parts.ret, parts.ret_block, at);
                    vstd::std_specs::vec::axiom_vec_index_decreases(branches, k);
                },
                None => {},
            }
            let after = lower_arm(cx, scope, at, block, arm, parts.ret, parts.ret_block)->Ok_0;
            assert(sizes_le(parts.st5, at) && sizes_le(at, after) && sizes_le(after, parts.st7));
            lemma_resolve_kept(scope, frame, frame4, parts.st3, at);
            assert(step(f, parts.switch, frame4, heap4) == Step::Goto(block, frame4, heap4));
            lemma_goto_step(p, malloc, f, pc4, frame4, heap4, depth, budget4, block, at.insts.len() as int);
            assert(decreases_to!(expr => arm)) by {
                assert(decreases_to!(expr => expr->Switch_branches));
                assert(decreases_to!(expr => expr->Switch_default_branch));
            }
            let (frame9, used7) = lemma_arm_meets(
                cx,
                p,
                scope,
                at,
                block,
                arm,
                parts.ret,
                parts.ret_block,
                f,
                frame4,
                heap4,
                depth,
                (budget4 - 1) as nat,
                parts.st7,
                parts.dst,
            );
            match eval(cx, p, resolve(scope, frame), arm, heap4, depth) {
                Err(t) => (frame, 0),
                Ok((y, heap7)) => {
                    lemma_keeps_trans(frame, frame4, frame9, st, at);
                    (frame9, used4 + 1 + used7)
                },
            }
        },
    }
}

} // verus!
