//! Lowering only ever adds to a function body.
//!
//! Whatever was emitted, created, declared or imported before an expression
//! is lowered is still there afterwards, unchanged, and the block that was
//! being filled before is the one that instructions go to after.

use crate::builder::Body;
use crate::expr::Expr;
use crate::ir::{Block, Inst, StackSlot, Type, Value, Variable};
use crate::layout::Layout;
use crate::lowered::{
    Context, def, lower_args, lower_arm, lower_branches, lower_builtin, lower_call, lower_elems,
    lower_expr, lower_fields, lower_stores, lower_values, with_blocks, with_bytes, with_list_set,
    with_malloc, with_terminator,
};
use crate::scope::ScopeEntry;
use crate::symbol::{BuiltinOp, Symbol};
use vstd::prelude::*;

verus! {

/// Whether `b` starts with `a`.
pub open spec fn starts_with<T>(b: Seq<T>, a: Seq<T>) -> bool {
    a.len() <= b.len() && b.take(a.len() as int) == a
}

/// Whether the body `b` holds all of the body `a`, unchanged and in place.
pub open spec fn grows(a: Body, b: Body) -> bool {
    &&& starts_with(b.insts, a.insts)
    &&& starts_with(b.block_starts, a.block_starts)
    &&& starts_with(b.value_types, a.value_types)
    &&& starts_with(b.stack_slots, a.stack_slots)
    &&& starts_with(b.variables, a.variables)
    &&& starts_with(b.func_refs, a.func_refs)
    &&& starts_with(b.sig_refs, a.sig_refs)
    &&& starts_with(b.value_pool, a.value_pool)
    &&& starts_with(b.case_pool, a.case_pool)
    &&& a.params == b.params
    &&& a.sealed == b.sealed
}

/// Whether no table of `a` is longer than the same table of `b`.
pub open spec fn sizes_le(a: Body, b: Body) -> bool {
    &&& a.insts.len() <= b.insts.len()
    &&& a.block_starts.len() <= b.block_starts.len()
    &&& a.value_types.len() <= b.value_types.len()
    &&& a.stack_slots.len() <= b.stack_slots.len()
    &&& a.variables.len() <= b.variables.len()
    &&& a.func_refs.len() <= b.func_refs.len()
    &&& a.sig_refs.len() <= b.sig_refs.len()
    &&& a.value_pool.len() <= b.value_pool.len()
    &&& a.case_pool.len() <= b.case_pool.len()
}

/// Whether every table of the body is short enough for its indices to be
/// machine integers. The body of a function builder always is.
pub open spec fn fits(a: Body) -> bool {
    &&& a.insts.len() <= usize::MAX
    &&& a.block_starts.len() <= usize::MAX
    &&& a.value_types.len() <= usize::MAX
    &&& a.stack_slots.len() <= usize::MAX
    &&& a.variables.len() <= usize::MAX
    &&& a.func_refs.len() <= usize::MAX
    &&& a.sig_refs.len() <= usize::MAX
    &&& a.value_pool.len() <= usize::MAX
    &&& a.case_pool.len() <= usize::MAX
}

/// A sequence starts with itself.
pub proof fn lemma_starts_with_refl<T>(a: Seq<T>)
    ensures
        starts_with(a, a),
{
    assert(a.take(a.len() as int) == a);
}

/// A sequence with one more element starts with the sequence.
pub proof fn lemma_starts_with_push<T>(a: Seq<T>, x: T)
    ensures
        starts_with(a.push(x), a),
{
    assert(a.push(x).take(a.len() as int) == a);
}

/// A sequence with more elements starts with the sequence.
pub proof fn lemma_starts_with_add<T>(a: Seq<T>, more: Seq<T>)
    ensures
        starts_with(a + more, a),
{
    assert((a + more).take(a.len() as int) == a);
}

/// Starting with is transitive.
pub proof fn lemma_starts_with_trans<T>(c: Seq<T>, b: Seq<T>, a: Seq<T>)
    requires
        starts_with(c, b),
        starts_with(b, a),
    ensures
        starts_with(c, a),
{
    assert(c.take(a.len() as int) == c.take(b.len() as int).take(a.len() as int));
}

/// What a sequence starts with is found in it, element by element.
pub proof fn lemma_starts_with_index<T>(b: Seq<T>, a: Seq<T>, i: int)
    requires
        starts_with(b, a),
        0 <= i < a.len(),
    ensures
        b[i] == a[i],
{
    assert(b.take(a.len() as int)[i] == b[i]);
}

/// A body holds itself.
pub proof fn lemma_grows_refl(a: Body)
    ensures
        grows(a, a),
{
    lemma_starts_with_refl(a.insts);
    lemma_starts_with_refl(a.block_starts);
    lemma_starts_with_refl(a.value_types);
    lemma_starts_with_refl(a.stack_slots);
    lemma_starts_with_refl(a.variables);
    lemma_starts_with_refl(a.func_refs);
    lemma_starts_with_refl(a.sig_refs);
    lemma_starts_with_refl(a.value_pool);
    lemma_starts_with_refl(a.case_pool);
}

/// Holding is transitive.
pub proof fn lemma_grows_trans(a: Body, b: Body, c: Body)
    ensures
        grows(a, b) && grows(b, c) ==> grows(a, c),
{
    if grows(a, b) && grows(b, c) {
        lemma_grows_trans_strict(a, b, c);
    }
}

proof fn lemma_grows_trans_strict(a: Body, b: Body, c: Body)
    requires
        grows(a, b),
        grows(b, c),
    ensures
        grows(a, c),
{
    lemma_starts_with_trans(c.insts, b.insts, a.insts);
    lemma_starts_with_trans(c.block_starts, b.block_starts, a.block_starts);
    lemma_starts_with_trans(c.value_types, b.value_types, a.value_types);
    lemma_starts_with_trans(c.stack_slots, b.stack_slots, a.stack_slots);
    lemma_starts_with_trans(c.variables, b.variables, a.variables);
    lemma_starts_with_trans(c.func_refs, b.func_refs, a.func_refs);
    lemma_starts_with_trans(c.sig_refs, b.sig_refs, a.sig_refs);
    lemma_starts_with_trans(c.value_pool, b.value_pool, a.value_pool);
    lemma_starts_with_trans(c.case_pool, b.case_pool, a.case_pool);
}

/// Each single step of building adds to the body.
pub proof fn lemma_grows_steps(a: Body)
    ensures
        forall|ty: Type| grows(a, #[trigger] a.with_value(ty)),
        forall|inst: Inst| grows(a, #[trigger] a.with_inst(inst)),
        grows(a, a.with_block()),
        forall|size: u32| grows(a, #[trigger] a.with_slot(size)),
        forall|ty: Type| grows(a, #[trigger] a.with_variable(ty)),
        forall|func: crate::ir::FuncId| grows(a, #[trigger] a.with_func_ref(func)),
        forall|sig: crate::ir::SignatureView| grows(a, #[trigger] a.with_sig_ref(sig)),
        forall|values: Seq<Value>| grows(a, #[trigger] a.with_values(values)),
        forall|cases: Seq<(u64, Block)>| grows(a, #[trigger] a.with_cases(cases)),
{
    lemma_grows_refl(a);
    assert forall|ty: Type| grows(a, #[trigger] a.with_value(ty)) by {
        lemma_starts_with_push(a.value_types, ty);
    }
    assert forall|inst: Inst| grows(a, #[trigger] a.with_inst(inst)) by {
        lemma_starts_with_push(a.insts, inst);
    }
    lemma_starts_with_push(a.block_starts, None);
    assert forall|size: u32| grows(a, #[trigger] a.with_slot(size)) by {
        lemma_starts_with_push(a.stack_slots, size);
    }
    assert forall|ty: Type| grows(a, #[trigger] a.with_variable(ty)) by {
        lemma_starts_with_push(a.variables, ty);
    }
    assert forall|func: crate::ir::FuncId| grows(a, #[trigger] a.with_func_ref(func)) by {
        lemma_starts_with_push(a.func_refs, func);
    }
    assert forall|sig: crate::ir::SignatureView| grows(a, #[trigger] a.with_sig_ref(sig)) by {
        lemma_starts_with_push(a.sig_refs, sig);
    }
    assert forall|values: Seq<Value>| grows(a, #[trigger] a.with_values(values)) by {
        lemma_starts_with_add(a.value_pool, values);
    }
    assert forall|cases: Seq<(u64, Block)>| grows(a, #[trigger] a.with_cases(cases)) by {
        lemma_starts_with_add(a.case_pool, cases);
    }
}

/// Defining a value by an instruction adds to the body.
pub proof fn lemma_grows_def(a: Body, ty: Type, make: spec_fn(Value) -> Inst)
    ensures
        grows(a, a.with_def(ty, make)),
        a.filling && !make(a.next_value()).is_terminator() ==> a.with_def(ty, make).filling,
{
    lemma_grows_steps(a);
    lemma_grows_steps(a.with_value(ty));
    lemma_grows_trans(a, a.with_value(ty), a.with_def(ty, make));
}


/// Switching to a block that `base` does not know keeps all of `base`.
pub proof fn lemma_grows_at_block(base: Body, a: Body, block: Block)
    ensures
        grows(base, a) && base.block_starts.len() <= block.index < a.block_starts.len() ==> grows(
            base,
            a.at_block(block),
        ),
        a.at_block(block).filling,
        sizes_le(a, a.at_block(block)),
        sizes_le(a.at_block(block), a),
{
    if grows(base, a) && base.block_starts.len() <= block.index < a.block_starts.len() {
        assert(a.at_block(block).block_starts.take(base.block_starts.len() as int)
            == a.block_starts.take(base.block_starts.len() as int));
    }
}

/// Creating blocks adds to the body, and all of them are empty.
pub proof fn lemma_grows_blocks(a: Body, n: nat)
    ensures
        grows(a, with_blocks(a, n)),
        with_blocks(a, n).block_starts.len() == a.block_starts.len() + n,
        with_blocks(a, n) == (Body { block_starts: with_blocks(a, n).block_starts, ..a }),
        forall|i: int|
            a.block_starts.len() <= i < a.block_starts.len() + n ==> with_blocks(
                a,
                n,
            ).block_starts[i] is None,
    decreases n,
{
    if n == 0 {
        lemma_grows_refl(a);
    } else {
        lemma_grows_blocks(a, (n - 1) as nat);
        lemma_grows_steps(with_blocks(a, (n - 1) as nat));
        lemma_grows_trans(a, with_blocks(a, (n - 1) as nat), with_blocks(a, n));
    }
}

/// Calling the allocation primitive adds to the body.
pub proof fn lemma_grows_malloc(cx: Context, st: Body, size: i64)
    requires
        st.filling,
    ensures
        grows(st, with_malloc(cx, st, size).0),
        with_malloc(cx, st, size).0.filling,
{
    let ptr_ty = cx.cfg.pointer_ty();
    let func = st.next_func_ref();
    let st1 = st.with_func_ref(cx.malloc);
    let make1 = |dst: Value| Inst::Iconst { dst, ty: ptr_ty, imm: size };
    let (st2, size_arg) = def(st1, ptr_ty, make1);
    let args = st2.next_values(seq![size_arg]);
    let st3 = st2.with_values(seq![size_arg]);
    let make2 = |dst: Value| Inst::Call { dst, func, args };
    lemma_grows_steps(st);
    lemma_grows_def(st1, ptr_ty, make1);
    lemma_grows_steps(st2);
    lemma_grows_def(st3, ptr_ty, make2);
    lemma_grows_trans(st, st1, st2);
    lemma_grows_trans(st, st2, st3);
    lemma_grows_trans(st, st3, st3.with_def(ptr_ty, make2));
}

/// Storing the sentinel byte adds to the body.
pub proof fn lemma_grows_terminator(st: Body, ptr: Value, offset: i32)
    requires
        st.filling,
    ensures
        grows(st, with_terminator(st, ptr, offset)),
        with_terminator(st, ptr, offset).filling,
{
    let make = |dst: Value| Inst::Iconst { dst, ty: Type::I8, imm: 0 };
    let (st1, nul) = def(st, Type::I8, make);
    lemma_grows_def(st, Type::I8, make);
    lemma_grows_steps(st1);
    lemma_grows_trans(st, st1, with_terminator(st, ptr, offset));
}

/// Storing the bytes of a string adds to the body.
pub proof fn lemma_grows_bytes(st: Body, bytes: Seq<u8>, from: int, ptr: Value)
    requires
        st.filling,
    ensures
        grows(st, with_bytes(st, bytes, from, ptr)),
        with_bytes(st, bytes, from, ptr).filling,
    decreases bytes.len() - from,
{
    if from < 0 || from >= bytes.len() {
        lemma_grows_refl(st);
    } else {
        let make = |dst: Value| Inst::Iconst { dst, ty: Type::I8, imm: bytes[from] as i64 };
        let (st1, val) = def(st, Type::I8, make);
        let st2 = st1.with_inst(Inst::Store { value: val, addr: ptr, offset: from as i32 });
        lemma_grows_def(st, Type::I8, make);
        lemma_grows_steps(st1);
        lemma_grows_trans(st, st1, st2);
        lemma_grows_bytes(st2, bytes, from + 1, ptr);
        lemma_grows_trans(st, st2, with_bytes(st, bytes, from, ptr));
    }
}

/// Storing into a list adds to the body.
pub proof fn lemma_grows_list_set(
    cx: Context,
    st: Body,
    list_ptr: Value,
    elem_index: Value,
    elem: Value,
    elem_layout: Layout,
)
    requires
        st.filling,
    ensures
        with_list_set(cx, st, list_ptr, elem_index, elem, elem_layout) matches Ok((st2, v))
            ==> grows(st, st2) && st2.filling,
{
    match crate::lowered::slot_size(cx, elem_layout) {
        None => {},
        Some(elem_bytes) => {
            let make1 = |dst: Value| Inst::Iconst { dst, ty: Type::I64, imm: elem_bytes as i64 };
            let (st1, elem_size) = def(st, Type::I64, make1);
            let make2 = |dst: Value|
                Inst::Binary {
                    dst,
                    op: crate::ir::BinaryOp::Imul,
                    ty: Type::I64,
                    lhs: elem_index,
                    rhs: elem_size,
                };
            let (st2, offset) = def(st1, Type::I64, make2);
            lemma_grows_def(st, Type::I64, make1);
            lemma_grows_def(st1, Type::I64, make2);
            lemma_grows_steps(st2);
            lemma_grows_trans(st, st1, st2);
            lemma_grows_trans(
                st,
                st2,
                st2.with_inst(
                    Inst::StoreComplex { value: elem, base: list_ptr, index: offset, offset: 0 },
                ),
            );
        },
    }
}

/// Whether `res` has every block of `st` but `block` as `st` has it.
pub open spec fn arm_keeps(st: Body, res: Body, block: Block) -> bool {
    forall|i: int|
        0 <= i < st.block_starts.len() && i != block.index ==> res.block_starts[i]
            == st.block_starts[i]
}

/// Lowering an expression adds to the body and goes on filling.
pub proof fn lemma_expr_grows(cx: Context, scope: Map<Symbol, ScopeEntry>, st: Body, expr: Expr)
    requires
        st.filling,
    ensures
        lower_expr(cx, scope, st, expr) matches Ok((st2, v)) ==> sizes_le(st, st2) && st2.filling
            && (fits(st2) ==> grows(st, st2)),
    decreases expr, 1nat, 0nat,
{
    lemma_grows_steps(st);
    match expr {
        Expr::Int(num) => {
            lemma_grows_def(st, Type::I64, |dst: Value| Inst::Iconst { dst, ty: Type::I64, imm: num });
        },
        Expr::Float(bits) => {
            lemma_grows_def(st, Type::F64, |dst: Value| Inst::F64const { dst, bits });
        },
        Expr::Bool(flag) => {
            lemma_grows_def(st, Type::B1, |dst: Value| Inst::Bconst { dst, flag });
        },
        Expr::Byte(val) => {
            lemma_grows_def(
                st,
                Type::I8,
                |dst: Value| Inst::Iconst { dst, ty: Type::I8, imm: val as i64 },
            );
        },
        Expr::Cond { .. } => {
            lemma_cond_grows(cx, scope, st, expr);
        },
        Expr::Switch { .. } => {
            lemma_switch_grows(cx, scope, st, expr);
        },
        Expr::Store(..) => {
            lemma_store_grows(cx, scope, st, expr);
        },
        Expr::CallByName(symbol, args) => {
            lemma_call_grows(cx, scope, st, symbol, args);
        },
        Expr::FunctionPointer(name) => {
            if scope.contains_key(name) {
                match scope[name] {
                    ScopeEntry::Func { func_id, .. } => {
                        let func = st.next_func_ref();
                        let ty = cx.cfg.pointer_ty();
                        let st1 = st.with_func_ref(func_id);
                        let make = |dst: Value| Inst::FuncAddr { dst, ty, func };
                        lemma_grows_def(st1, ty, make);
                        lemma_grows_trans(st, st1, st1.with_def(ty, make));
                    },
                    _ => {},
                }
            }
        },
        Expr::CallByPointer(..) => {
            lemma_pointer_call_grows(cx, scope, st, expr);
        },
        Expr::Load(name) => {
            if scope.contains_key(name) {
                match scope[name] {
                    ScopeEntry::Stack { expr_type, slot } => {
                        lemma_grows_def(
                            st,
                            expr_type,
                            |dst: Value| Inst::StackLoad { dst, ty: expr_type, slot, offset: 0 },
                        );
                    },
                    ScopeEntry::Arg { param, .. } => {
                        lemma_grows_refl(st);
                    },
                    ScopeEntry::Heap { expr_type, ptr } => {
                        lemma_grows_def(
                            st,
                            expr_type,
                            |dst: Value| Inst::Load { dst, ty: expr_type, addr: ptr, offset: 0 },
                        );
                    },
                    ScopeEntry::Func { .. } => {},
                }
            }
        },
        Expr::Struct { .. } => {
            lemma_struct_grows(cx, scope, st, expr);
        },
        Expr::Str(..) => {
            lemma_str_grows(cx, scope, st, expr);
        },
        Expr::Array { .. } => {
            lemma_array_grows(cx, scope, st, expr);
        },
    }
}

/// Lowering a conditional adds to the body and goes on filling.
proof fn lemma_cond_grows(cx: Context, scope: Map<Symbol, ScopeEntry>, st: Body, expr: Expr)
    requires
        st.filling,
        expr is Cond,
    ensures
        lower_expr(cx, scope, st, expr) matches Ok((st2, v)) ==> sizes_le(st, st2) && st2.filling
            && (fits(st2) ==> grows(st, st2)),
    decreases expr, 0nat, 0nat,
{
    lemma_grows_steps(st);
    match expr {
        Expr::Cond { cond, cond_layout, pass, fail, ret_layout } => {
            let ret_type = ret_layout.machine_type(cx.cfg);
            let ret_block = st.next_block();
            let st1 = st.with_block();
            let ret = st1.next_variable();
            let st2 = st1.with_variable(ret_type);
            lemma_grows_steps(st1);
            lemma_grows_trans(st, st1, st2);
            lemma_expr_grows(cx, scope, st2, *cond);
            match lower_expr(cx, scope, st2, *cond) {
                Err(e) => {},
                Ok((st3, c)) => {
                    lemma_grows_trans(st, st2, st3);
                    let pass_block = st3.next_block();
                    let fail_block = st3.with_block().next_block();
                    let st4 = st3.with_block().with_block();
                    lemma_grows_steps(st3);
                    lemma_grows_steps(st3.with_block());
                    lemma_grows_trans(st, st3, st3.with_block());
                    lemma_grows_trans(st, st3.with_block(), st4);
                    let st4b = st4.with_inst(Inst::Brnz { cond: c, target: pass_block });
                    let st5 = st4b.with_inst(Inst::Jump { target: fail_block });
                    lemma_grows_steps(st4);
                    lemma_grows_steps(st4b);
                    lemma_grows_trans(st, st4, st4b);
                    lemma_grows_trans(st, st4b, st5);
                    if cond_layout is Builtin && cond_layout->Builtin_0 is Bool {
                        lemma_arm_grows(cx, scope, st5, pass_block, *pass, ret, ret_block, st);
                        match lower_arm(cx, scope, st5, pass_block, *pass, ret, ret_block) {
                            Err(e) => {},
                            Ok(st6) => {
                                lemma_arm_grows(cx, scope, st6, fail_block, *fail, ret, ret_block, st);
                                match lower_arm(cx, scope, st6, fail_block, *fail, ret, ret_block) {
                                    Err(e) => {},
                                    Ok(st7) => {
                                        lemma_grows_at_block(st, st7, ret_block);
                                        let st8 = st7.at_block(ret_block);
                                        let make = |dst: Value| Inst::UseVar { dst, var: ret };
                                        lemma_grows_def(st8, ret_type, make);
                                        lemma_grows_trans(st, st8, st8.with_def(ret_type, make));
                                    },
                                }
                            },
                        }
                    }
                },
            }
        },
        _ => {},
    }
}

/// Lowering a switch adds to the body and goes on filling.
proof fn lemma_switch_grows(cx: Context, scope: Map<Symbol, ScopeEntry>, st: Body, expr: Expr)
    requires
        st.filling,
        expr is Switch,
    ensures
        lower_expr(cx, scope, st, expr) matches Ok((st2, v)) ==> sizes_le(st, st2) && st2.filling
            && (fits(st2) ==> grows(st, st2)),
    decreases expr, 0nat, 0nat,
{
    lemma_grows_steps(st);
    match expr {
        Expr::Switch { cond, cond_layout, branches, default_branch, ret_layout } => {
            let ret_type = ret_layout.machine_type(cx.cfg);
            let ret = st.next_variable();
            let st1 = st.with_variable(ret_type);
            let default_block = st1.next_block();
            let ret_block = st1.with_block().next_block();
            let st2 = st1.with_block().with_block();
            let first = st2.next_block();
            lemma_grows_steps(st1);
            lemma_grows_steps(st1.with_block());
            lemma_grows_trans(st, st1, st1.with_block());
            lemma_grows_trans(st, st1.with_block(), st2);
            let st3 = with_blocks(st2, branches@.len());
            lemma_grows_blocks(st2, branches@.len());
            lemma_grows_trans(st, st2, st3);
            lemma_expr_grows(cx, scope, st3, *cond);
            match lower_expr(cx, scope, st3, *cond) {
                Err(e) => {},
                Ok((st4, c)) => {
                    lemma_grows_trans(st, st3, st4);
                    let table = crate::lowered::case_table(branches@, first);
                    let cases = st4.next_cases(table);
                    let st4b = st4.with_cases(table);
                    let st5 = st4b.with_inst(Inst::Switch { cond: c, cases, default: default_block });
                    lemma_grows_steps(st4);
                    lemma_grows_steps(st4b);
                    lemma_grows_trans(st, st4, st4b);
                    lemma_grows_trans(st, st4b, st5);
                    lemma_branches_grows(cx, scope, st5, branches, 0, first, ret, ret_block, st);
                    match lower_branches(cx, scope, st5, branches, 0, first, ret, ret_block) {
                        Err(e) => {},
                        Ok(st6) => {
                            lemma_arm_grows(
                                cx,
                                scope,
                                st6,
                                default_block,
                                *default_branch,
                                ret,
                                ret_block,
                                st,
                            );
                            match lower_arm(
                                cx,
                                scope,
                                st6,
                                default_block,
                                *default_branch,
                                ret,
                                ret_block,
                            ) {
                                Err(e) => {},
                                Ok(st7) => {
                                    lemma_grows_at_block(st, st7, ret_block);
                                    let st8 = st7.at_block(ret_block);
                                    let make = |dst: Value| Inst::UseVar { dst, var: ret };
                                    lemma_grows_def(st8, ret_type, make);
                                    lemma_grows_trans(st, st8, st8.with_def(ret_type, make));
                                },
                            }
                        },
                    }
                },
            }
        },
        _ => {},
    }
}

/// Lowering a sequence of bindings adds to the body and goes on filling.
proof fn lemma_store_grows(cx: Context, scope: Map<Symbol, ScopeEntry>, st: Body, expr: Expr)
    requires
        st.filling,
        expr is Store,
    ensures
        lower_expr(cx, scope, st, expr) matches Ok((st2, v)) ==> sizes_le(st, st2) && st2.filling
            && (fits(st2) ==> grows(st, st2)),
    decreases expr, 0nat, 0nat,
{
    lemma_grows_steps(st);
    match expr {
        Expr::Store(stores, ret) => {
            lemma_stores_grows(cx, scope, st, stores, 0);
            match lower_stores(cx, scope, st, stores, 0) {
                Err(e) => {},
                Ok((st1, inner)) => {
                    lemma_expr_grows(cx, inner, st1, *ret);
                    match lower_expr(cx, inner, st1, *ret) {
                        Err(e) => {},
                        Ok((st2, v)) => {
                            lemma_grows_trans(st, st1, st2);
                        },
                    }
                },
            }
        },
        _ => {},
    }
}

/// Lowering a call through an address adds to the body and goes on filling.
proof fn lemma_pointer_call_grows(cx: Context, scope: Map<Symbol, ScopeEntry>, st: Body, expr: Expr)
    requires
        st.filling,
        expr is CallByPointer,
    ensures
        lower_expr(cx, scope, st, expr) matches Ok((st2, v)) ==> sizes_le(st, st2) && st2.filling
            && (fits(st2) ==> grows(st, st2)),
    decreases expr, 0nat, 0nat,
{
    lemma_grows_steps(st);
    match expr {
        Expr::CallByPointer(sub_expr, args, layout) => {
            lemma_values_grows(cx, scope, st, args, 0, Seq::empty());
            match lower_values(cx, scope, st, args, 0, Seq::empty()) {
                Err(e) => {},
                Ok((st1, arg_vals)) => match crate::layout::signature_of(layout, cx.cfg) {
                    None => {},
                    Some(sig) => {
                        lemma_expr_grows(cx, scope, st1, *sub_expr);
                        match lower_expr(cx, scope, st1, *sub_expr) {
                            Err(e) => {},
                            Ok((st2, callee)) => {
                                let sig_ref = st2.next_sig_ref();
                                let st3 = st2.with_sig_ref(sig);
                                let range = st3.next_values(arg_vals);
                                let st4 = st3.with_values(arg_vals);
                                let make = |dst: Value|
                                    Inst::CallIndirect { dst, sig: sig_ref, callee, args: range };
                                lemma_grows_steps(st2);
                                lemma_grows_steps(st3);
                                lemma_grows_def(st4, sig.returns[0], make);
                                lemma_grows_trans(st, st1, st2);
                                lemma_grows_trans(st, st2, st3);
                                lemma_grows_trans(st, st3, st4);
                                lemma_grows_trans(st, st4, st4.with_def(sig.returns[0], make));
                            },
                        }
                    },
                },
            }
        },
        _ => {},
    }
}

/// Lowering a record adds to the body and goes on filling.
proof fn lemma_struct_grows(cx: Context, scope: Map<Symbol, ScopeEntry>, st: Body, expr: Expr)
    requires
        st.filling,
        expr is Struct,
    ensures
        lower_expr(cx, scope, st, expr) matches Ok((st2, v)) ==> sizes_le(st, st2) && st2.filling
            && (fits(st2) ==> grows(st, st2)),
    decreases expr, 0nat, 0nat,
{
    lemma_grows_steps(st);
    match expr {
        Expr::Struct { layout, fields } => match crate::lowered::slot_size(cx, layout) {
            None => {},
            Some(size) => {
                let slot = st.next_slot();
                let order = crate::fields::order_by_name(
                    crate::lowered::field_names(fields@),
                    fields@.len(),
                );
                let st0 = st.with_slot(size);
                lemma_fields_grows(cx, scope, st0, fields, layout, order, 0, slot, 0);
                match lower_fields(cx, scope, st0, fields, layout, order, 0, slot, 0) {
                    Err(e) => {},
                    Ok(st1) => {
                        let ty = layout.machine_type(cx.cfg);
                        let make = |dst: Value| Inst::StackAddr { dst, ty, slot, offset: 0 };
                        lemma_grows_def(st1, ty, make);
                        lemma_grows_trans(st, st0, st1);
                        lemma_grows_trans(st, st1, st1.with_def(ty, make));
                    },
                }
            },
        },
        _ => {},
    }
}

/// Lowering a string adds to the body and goes on filling.
proof fn lemma_str_grows(cx: Context, scope: Map<Symbol, ScopeEntry>, st: Body, expr: Expr)
    requires
        st.filling,
        expr is Str,
    ensures
        lower_expr(cx, scope, st, expr) matches Ok((st2, v)) ==> sizes_le(st, st2) && st2.filling
            && (fits(st2) ==> grows(st, st2)),
    decreases expr, 0nat, 0nat,
{
    lemma_grows_steps(st);
    match expr {
        Expr::Str(text) => {
            let bytes = crate::fields::name_bytes(text);
            if bytes.len() != 0 && bytes.len() + 1 <= crate::lowered::MAX_OFFSET {
                let (st1, ptr) = with_malloc(cx, st, (bytes.len() + 1) as i64);
                let st2 = with_bytes(st1, bytes, 0, ptr);
                lemma_grows_malloc(cx, st, (bytes.len() + 1) as i64);
                lemma_grows_bytes(st1, bytes, 0, ptr);
                lemma_grows_terminator(st2, ptr, bytes.len() as i32);
                lemma_grows_trans(st, st1, st2);
                lemma_grows_trans(st, st2, with_terminator(st2, ptr, bytes.len() as i32));
            }
        },
        _ => {},
    }
}

/// Lowering an array adds to the body and goes on filling.
proof fn lemma_array_grows(cx: Context, scope: Map<Symbol, ScopeEntry>, st: Body, expr: Expr)
    requires
        st.filling,
        expr is Array,
    ensures
        lower_expr(cx, scope, st, expr) matches Ok((st2, v)) ==> sizes_le(st, st2) && st2.filling
            && (fits(st2) ==> grows(st, st2)),
    decreases expr, 0nat, 0nat,
{
    lemma_grows_steps(st);
    match expr {
        Expr::Array { elem_layout, elems } => {
            if elems@.len() != 0 {
                match crate::lowered::slot_size(cx, elem_layout) {
                    None => {},
                    Some(elem_bytes) => {
                        if elem_bytes * elems@.len() + 1 <= crate::lowered::MAX_OFFSET {
                            let size = (elem_bytes * elems@.len() + 1) as i64;
                            let (st1, ptr) = with_malloc(cx, st, size);
                            lemma_grows_malloc(cx, st, size);
                            lemma_elems_grows(cx, scope, st1, elems, 0, ptr, elem_bytes);
                            match lower_elems(cx, scope, st1, elems, 0, ptr, elem_bytes) {
                                Err(e) => {},
                                Ok(st2) => {
                                    let at = (elem_bytes * elems@.len()) as i32;
                                    lemma_grows_terminator(st2, ptr, at);
                                    lemma_grows_trans(st, st1, st2);
                                    lemma_grows_trans(st, st2, with_terminator(st2, ptr, at));
                                },
                            }
                        }
                    },
                }
            }
        },
        _ => {},
    }
}

/// Lowering an arm keeps what an earlier body held and touches no block but
/// its own among those that were there.
pub proof fn lemma_arm_grows(
    cx: Context,
    scope: Map<Symbol, ScopeEntry>,
    st: Body,
    block: Block,
    expr: Expr,
    ret: Variable,
    ret_block: Block,
    base: Body,
)
    ensures
        lower_arm(cx, scope, st, block, expr, ret, ret_block) matches Ok(res) ==> sizes_le(st, res)
            && !res.filling && (fits(res) ==> arm_keeps(st, res, block)) && (fits(res) && grows(
            base,
            st,
        ) && base.block_starts.len() <= block.index < st.block_starts.len() ==> grows(base, res)),
    decreases expr, 2nat, 0nat,
{
    let st0 = st.at_block(block);
    lemma_grows_at_block(base, st, block);
    lemma_expr_grows(cx, scope, st0, expr);
    match lower_expr(cx, scope, st0, expr) {
        Err(e) => {},
        Ok((st1, value)) => {
            let st2 = st1.with_inst(Inst::DefVar { var: ret, value });
            let st3 = st2.with_inst(Inst::Jump { target: ret_block });
            lemma_grows_steps(st1);
            lemma_grows_steps(st2);
            lemma_grows_trans(base, st0, st1);
            lemma_grows_trans(base, st1, st2);
            lemma_grows_trans(base, st2, st3);
            if fits(st3) {
                assert forall|i: int|
                    0 <= i < st.block_starts.len() && i != block.index implies st3.block_starts[i]
                    == st.block_starts[i] by {
                    lemma_starts_with_index(st1.block_starts, st0.block_starts, i);
                }
            }
        },
    }
}

/// Lowering the cases of a switch keeps what an earlier body held and
/// touches no block but those of the cases.
pub proof fn lemma_branches_grows(
    cx: Context,
    scope: Map<Symbol, ScopeEntry>,
    st: Body,
    branches: Vec<(u64, Expr)>,
    from: nat,
    first: Block,
    ret: Variable,
    ret_block: Block,
    base: Body,
)
    requires
        !st.filling,
    ensures
        lower_branches(cx, scope, st, branches, from, first, ret, ret_block) matches Ok(res) ==> {
            &&& sizes_le(st, res)
            &&& !res.filling
            &&& fits(res) && first.index + branches@.len() <= st.block_starts.len() ==> forall|
                i: int,
            |
                0 <= i < st.block_starts.len() && !(first.index + from <= i < first.index
                    + branches@.len()) ==> res.block_starts[i] == st.block_starts[i]
            &&& fits(res) && grows(base, st) && base.block_starts.len() <= first.index
                && first.index + branches@.len() <= st.block_starts.len() ==> grows(base, res)
        },
    decreases branches, 0nat, branches@.len() - from,
{
    if from >= branches@.len() {
    } else {
        let block = Block { index: (first.index + from) as usize };
        lemma_arm_grows(cx, scope, st, block, branches@[from as int].1, ret, ret_block, base);
        match lower_arm(cx, scope, st, block, branches@[from as int].1, ret, ret_block) {
            Err(e) => {},
            Ok(st1) => {
                lemma_branches_grows(cx, scope, st1, branches, from + 1, first, ret, ret_block, base);
            },
        }
    }
}

/// Lowering bindings adds to the body and goes on filling.
pub proof fn lemma_stores_grows(
    cx: Context,
    scope: Map<Symbol, ScopeEntry>,
    st: Body,
    stores: Vec<(Symbol, Layout, Expr)>,
    from: nat,
)
    requires
        st.filling,
    ensures
        lower_stores(cx, scope, st, stores, from) matches Ok((st2, inner)) ==> sizes_le(st, st2)
            && st2.filling && (fits(st2) ==> grows(st, st2)),
    decreases stores, 0nat, stores@.len() - from,
{
    if from >= stores@.len() {
        lemma_grows_refl(st);
    } else {
        let (name, layout, init) = stores@[from as int];
        lemma_expr_grows(cx, scope, st, init);
        match lower_expr(cx, scope, st, init) {
            Err(e) => {},
            Ok((st1, value)) => match crate::lowered::slot_size(cx, layout) {
                None => {},
                Some(size) => {
                    let expr_type = layout.machine_type(cx.cfg);
                    let slot = st1.next_slot();
                    let st1b = st1.with_slot(size);
                    let st2 = st1b.with_inst(Inst::StackStore { value, slot, offset: 0 });
                    lemma_grows_steps(st1);
                    lemma_grows_steps(st1b);
                    lemma_grows_trans(st, st1, st1b);
                    lemma_grows_trans(st, st1b, st2);
                    let inner = scope.insert(name, ScopeEntry::Stack { expr_type, slot });
                    lemma_stores_grows(cx, inner, st2, stores, from + 1);
                    match lower_stores(cx, inner, st2, stores, from + 1) {
                        Err(e) => {},
                        Ok((st3, s)) => {
                            lemma_grows_trans(st, st2, st3);
                        },
                    }
                },
            },
        }
    }
}

/// Lowering a list of expressions adds to the body and goes on filling; it
/// yields one value for each expression.
pub proof fn lemma_values_grows(
    cx: Context,
    scope: Map<Symbol, ScopeEntry>,
    st: Body,
    exprs: Vec<Expr>,
    from: nat,
    done: Seq<Value>,
)
    requires
        st.filling,
        from <= exprs@.len(),
    ensures
        lower_values(cx, scope, st, exprs, from, done) matches Ok((st2, vals)) ==> sizes_le(st, st2)
            && st2.filling && vals.len() == done.len() + exprs@.len() - from && starts_with(
            vals,
            done,
        ) && (fits(st2) ==> grows(st, st2)),
    decreases exprs, 0nat, exprs@.len() - from,
{
    if from >= exprs@.len() {
        lemma_grows_refl(st);
        lemma_starts_with_refl(done);
    } else {
        lemma_expr_grows(cx, scope, st, exprs@[from as int]);
        match lower_expr(cx, scope, st, exprs@[from as int]) {
            Err(e) => {},
            Ok((st1, value)) => {
                lemma_values_grows(cx, scope, st1, exprs, from + 1, done.push(value));
                match lower_values(cx, scope, st1, exprs, from + 1, done.push(value)) {
                    Err(e) => {},
                    Ok((st2, vals)) => {
                        lemma_grows_trans(st, st1, st2);
                        lemma_starts_with_push(done, value);
                        lemma_starts_with_trans(vals, done.push(value), done);
                    },
                }
            },
        }
    }
}

/// Lowering the arguments of a call adds to the body and goes on filling; it
/// yields one value for each argument.
pub proof fn lemma_args_grows(
    cx: Context,
    scope: Map<Symbol, ScopeEntry>,
    st: Body,
    args: Vec<(Expr, Layout)>,
    from: nat,
    done: Seq<Value>,
)
    requires
        st.filling,
        from <= args@.len(),
    ensures
        lower_args(cx, scope, st, args, from, done) matches Ok((st2, vals)) ==> sizes_le(st, st2)
            && st2.filling && vals.len() == done.len() + args@.len() - from && starts_with(
            vals,
            done,
        ) && (fits(st2) ==> grows(st, st2)),
    decreases args, 0nat, args@.len() - from,
{
    if from >= args@.len() {
        lemma_grows_refl(st);
        lemma_starts_with_refl(done);
    } else {
        lemma_expr_grows(cx, scope, st, args@[from as int].0);
        match lower_expr(cx, scope, st, args@[from as int].0) {
            Err(e) => {},
            Ok((st1, value)) => {
                lemma_args_grows(cx, scope, st1, args, from + 1, done.push(value));
                match lower_args(cx, scope, st1, args, from + 1, done.push(value)) {
                    Err(e) => {},
                    Ok((st2, vals)) => {
                        lemma_grows_trans(st, st1, st2);
                        lemma_starts_with_push(done, value);
                        lemma_starts_with_trans(vals, done.push(value), done);
                    },
                }
            },
        }
    }
}

/// Lowering the elements of an array adds to the body and goes on filling.
pub proof fn lemma_elems_grows(
    cx: Context,
    scope: Map<Symbol, ScopeEntry>,
    st: Body,
    elems: Vec<Expr>,
    from: nat,
    ptr: Value,
    elem_bytes: u32,
)
    requires
        st.filling,
    ensures
        lower_elems(cx, scope, st, elems, from, ptr, elem_bytes) matches Ok(st2) ==> sizes_le(
            st,
            st2,
        ) && st2.filling && (fits(st2) ==> grows(st, st2)),
    decreases elems, 0nat, elems@.len() - from,
{
    if from >= elems@.len() {
        lemma_grows_refl(st);
    } else {
        lemma_expr_grows(cx, scope, st, elems@[from as int]);
        match lower_expr(cx, scope, st, elems@[from as int]) {
            Err(e) => {},
            Ok((st1, value)) => {
                let st2 = st1.with_inst(
                    Inst::Store { value, addr: ptr, offset: (elem_bytes * from) as i32 },
                );
                lemma_grows_steps(st1);
                lemma_grows_trans(st, st1, st2);
                lemma_elems_grows(cx, scope, st2, elems, from + 1, ptr, elem_bytes);
                match lower_elems(cx, scope, st2, elems, from + 1, ptr, elem_bytes) {
                    Err(e) => {},
                    Ok(st3) => {
                        lemma_grows_trans(st, st2, st3);
                    },
                }
            },
        }
    }
}

/// Lowering the fields of a record adds to the body and goes on filling.
pub proof fn lemma_fields_grows(
    cx: Context,
    scope: Map<Symbol, ScopeEntry>,
    st: Body,
    fields: Vec<(String, Expr)>,
    layout: Layout,
    order: Seq<usize>,
    from: nat,
    slot: StackSlot,
    offset: nat,
)
    requires
        st.filling,
    ensures
        lower_fields(cx, scope, st, fields, layout, order, from, slot, offset) matches Ok(st2)
            ==> sizes_le(st, st2) && st2.filling && (fits(st2) ==> grows(st, st2)),
    decreases fields, 0nat, order.len() - from,
{
    if from >= order.len() {
        lemma_grows_refl(st);
    } else if order[from as int] >= fields@.len() {
        lemma_grows_refl(st);
    } else {
        let (name, init) = fields@[order[from as int] as int];
        lemma_expr_grows(cx, scope, st, init);
        match lower_expr(cx, scope, st, init) {
            Err(e) => {},
            Ok((st1, value)) => match crate::lowered::field_layout(
                layout,
                crate::fields::name_bytes(name),
            ) {
                None => {},
                Some(field) => match crate::lowered::slot_size(cx, field) {
                    None => {},
                    Some(size) => {
                        if offset + size <= crate::lowered::MAX_OFFSET {
                            let st2 = st1.with_inst(
                                Inst::StackStore { value, slot, offset: offset as i32 },
                            );
                            lemma_grows_steps(st1);
                            lemma_grows_trans(st, st1, st2);
                            lemma_fields_grows(
                                cx,
                                scope,
                                st2,
                                fields,
                                layout,
                                order,
                                from + 1,
                                slot,
                                offset + size as nat,
                            );
                            match lower_fields(
                                cx,
                                scope,
                                st2,
                                fields,
                                layout,
                                order,
                                from + 1,
                                slot,
                                offset + size as nat,
                            ) {
                                Err(e) => {},
                                Ok(st3) => {
                                    lemma_grows_trans(st, st2, st3);
                                },
                            }
                        }
                    },
                },
            },
        }
    }
}

/// Lowering a call by name adds to the body and goes on filling.
pub proof fn lemma_call_grows(
    cx: Context,
    scope: Map<Symbol, ScopeEntry>,
    st: Body,
    symbol: Symbol,
    args: Vec<(Expr, Layout)>,
)
    requires
        st.filling,
    ensures
        lower_call(cx, scope, st, symbol, args) matches Ok((st2, v)) ==> sizes_le(st, st2)
            && st2.filling && (fits(st2) ==> grows(st, st2)),
    decreases args, 1nat, 0nat,
{
    match symbol.builtin() {
        Some(op) => {
            if args@.len() == op.arity() {
                lemma_builtin_grows(cx, scope, st, symbol, op, args);
            }
        },
        None => {
            if scope.contains_key(symbol) {
                match scope[symbol] {
                    ScopeEntry::Func { func_id, sig } => {
                        let func = st.next_func_ref();
                        let st0 = st.with_func_ref(func_id);
                        lemma_grows_steps(st);
                        lemma_args_grows(cx, scope, st0, args, 0, Seq::empty());
                        match lower_args(cx, scope, st0, args, 0, Seq::empty()) {
                            Err(e) => {},
                            Ok((st1, arg_vals)) => {
                                if sig@.returns.len() == 1 {
                                    let range = st1.next_values(arg_vals);
                                    let st2 = st1.with_values(arg_vals);
                                    let make = |dst: Value| Inst::Call { dst, func, args: range };
                                    lemma_grows_steps(st1);
                                    lemma_grows_def(st2, sig@.returns[0], make);
                                    lemma_grows_trans(st, st0, st1);
                                    lemma_grows_trans(st, st1, st2);
                                    lemma_grows_trans(st, st2, st2.with_def(sig@.returns[0], make));
                                }
                            },
                        }
                    },
                    _ => {},
                }
            }
        },
    }
}

/// Lowering a built-in operation adds to the body and goes on filling.
pub proof fn lemma_builtin_grows(
    cx: Context,
    scope: Map<Symbol, ScopeEntry>,
    st: Body,
    symbol: Symbol,
    op: BuiltinOp,
    args: Vec<(Expr, Layout)>,
)
    requires
        st.filling,
    ensures
        lower_builtin(cx, scope, st, symbol, op, args) matches Ok((st2, v)) ==> sizes_le(st, st2)
            && st2.filling && (fits(st2) ==> grows(st, st2)),
    decreases args, 0nat, args@.len() + 1,
{
    if args@.len() == op.arity() {
        match op {
            BuiltinOp::IntNeg => {
                lemma_expr_grows(cx, scope, st, args@[0].0);
                match lower_expr(cx, scope, st, args@[0].0) {
                    Err(e) => {},
                    Ok((st1, arg)) => {
                        let ty = args@[0].1.machine_type(cx.cfg);
                        let make = |dst: Value| Inst::Ineg { dst, ty, arg };
                        lemma_grows_def(st1, ty, make);
                        lemma_grows_trans(st, st1, st1.with_def(ty, make));
                    },
                }
            },
            BuiltinOp::ListGetUnsafe => {
                lemma_args_grows(cx, scope, st, args, 0, Seq::empty());
                match lower_args(cx, scope, st, args, 0, Seq::empty()) {
                    Err(e) => {},
                    Ok((st1, vals)) => match crate::lowered::elem_layout_of(args@[0].1) {
                        None => {},
                        Some(elem_layout) => match crate::lowered::slot_size(cx, elem_layout) {
                            None => {},
                            Some(elem_bytes) => {
                                let elem_type = elem_layout.machine_type(cx.cfg);
                                let make1 = |dst: Value|
                                    Inst::Iconst { dst, ty: Type::I64, imm: elem_bytes as i64 };
                                let (st2, elem_size) = def(st1, Type::I64, make1);
                                let make2 = |dst: Value|
                                    Inst::Binary {
                                        dst,
                                        op: crate::ir::BinaryOp::Imul,
                                        ty: Type::I64,
                                        lhs: vals[1],
                                        rhs: elem_size,
                                    };
                                let (st3, offset) = def(st2, Type::I64, make2);
                                let make3 = |dst: Value|
                                    Inst::LoadComplex {
                                        dst,
                                        ty: elem_type,
                                        base: vals[0],
                                        index: offset,
                                        offset: 0,
                                    };
                                lemma_grows_def(st1, Type::I64, make1);
                                lemma_grows_def(st2, Type::I64, make2);
                                lemma_grows_def(st3, elem_type, make3);
                                lemma_grows_trans(st, st1, st2);
                                lemma_grows_trans(st, st2, st3);
                                lemma_grows_trans(st, st3, st3.with_def(elem_type, make3));
                            },
                        },
                    },
                }
            },
            BuiltinOp::ListSet => match crate::lowered::elem_layout_of(args@[0].1) {
                None => {},
                Some(elem_layout) => match crate::lowered::slot_size(cx, elem_layout) {
                    None => {},
                    Some(elem_bytes) => {
                        if elem_bytes * crate::lowered::LIST_SET_CAPACITY + 1
                            <= crate::lowered::MAX_OFFSET {
                            let size = (elem_bytes * crate::lowered::LIST_SET_CAPACITY + 1) as i64;
                            let (st1, ptr) = with_malloc(cx, st, size);
                            lemma_grows_malloc(cx, st, size);
                            lemma_args_grows(cx, scope, st1, args, 1, Seq::empty());
                            match lower_args(cx, scope, st1, args, 1, Seq::empty()) {
                                Err(e) => {},
                                Ok((st2, vals)) => {
                                    lemma_grows_list_set(
                                        cx,
                                        st2,
                                        ptr,
                                        vals[0],
                                        vals[1],
                                        elem_layout,
                                    );
                                    lemma_grows_trans(st, st1, st2);
                                    match with_list_set(cx, st2, ptr, vals[0], vals[1], elem_layout) {
                                        Err(e) => {},
                                        Ok((st3, v)) => {
                                            lemma_grows_trans(st, st2, st3);
                                        },
                                    }
                                },
                            }
                        }
                    },
                },
            },
            BuiltinOp::ListSetInPlace => {
                lemma_expr_grows(cx, scope, st, args@[0].0);
                match lower_expr(cx, scope, st, args@[0].0) {
                    Err(e) => {},
                    Ok((st1, list_val)) => match crate::lowered::elem_layout_of(args@[0].1) {
                        None => {},
                        Some(elem_layout) => {
                            lemma_args_grows(cx, scope, st1, args, 1, Seq::empty());
                            match lower_args(cx, scope, st1, args, 1, Seq::empty()) {
                                Err(e) => {},
                                Ok((st2, vals)) => {
                                    lemma_grows_list_set(
                                        cx,
                                        st2,
                                        list_val,
                                        vals[0],
                                        vals[1],
                                        elem_layout,
                                    );
                                    lemma_grows_trans(st, st1, st2);
                                    match with_list_set(
                                        cx,
                                        st2,
                                        list_val,
                                        vals[0],
                                        vals[1],
                                        elem_layout,
                                    ) {
                                        Err(e) => {},
                                        Ok((st3, v)) => {
                                            lemma_grows_trans(st, st2, st3);
                                        },
                                    }
                                },
                            }
                        },
                    },
                }
            },
            _ => {
                lemma_args_grows(cx, scope, st, args, 0, Seq::empty());
                match lower_args(cx, scope, st, args, 0, Seq::empty()) {
                    Err(e) => {},
                    Ok((st1, vals)) => match crate::lowered::binary_of(
                        op,
                        args@[0].1.machine_type(cx.cfg),
                    ) {
                        None => {},
                        Some((bin, ty, res_ty)) => {
                            let make = |dst: Value|
                                Inst::Binary { dst, op: bin, ty, lhs: vals[0], rhs: vals[1] };
                            lemma_grows_def(st1, res_ty, make);
                            lemma_grows_trans(st, st1, st1.with_def(res_ty, make));
                        },
                    },
                }
            },
        }
    }
}

} // verus!
