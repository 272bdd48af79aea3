//! Lowering expressions to instructions.
//!
//! Each function of this module emits, into the builder it is given, exactly
//! the instructions that `lowered` prescribes for its expression, or returns
//! the error that `lowered` prescribes. Lowering stops at the first error and
//! then leaves the builder with whatever was emitted up to there.

use crate::builder::{Body, FunctionBuilder};
use crate::expr::Expr;
use crate::fields::{bytes_le, lemma_insert_position, name_bytes, name_eq, name_le, order_by_name};
use crate::growth::{lemma_arm_grows, lemma_expr_grows, lemma_grows_blocks, lemma_starts_with_index};
use crate::ir::{BinaryOp, Block, FuncId, Inst, Type, Value, Variable};
use crate::layout::{Builtin, Layout, sig_from_layout, TargetConfig};
use crate::lowered::{
    binary_of, case_table, Context, duplicate_case, elem_layout_of, field_layout,
    field_layout_from, field_names, has_case, LIST_SET_CAPACITY, lower_args, lower_arm,
    lower_branches, lower_builtin, lower_call, lower_elems, lower_expr, lower_fields, lower_stores,
    lower_values, lowered_to, LowerError, MAX_OFFSET, Mismatch, Unsupported, with_blocks,
    with_bytes, with_list_set, with_malloc, with_terminator,
};
use crate::module::Interns;
use crate::scope::{Scope, ScopeEntry};
use crate::symbol::{BuiltinOp, Symbol};
use vstd::prelude::*;
use vstd::string::StringSliceAdditionalSpecFns;

verus! {

/// What every lowering call reads of the compilation unit.
pub struct Env {
    /// The target.
    pub cfg: TargetConfig,
    /// The names of the symbols.
    pub interns: Interns,
    /// The allocation primitive, declared before any procedure is lowered.
    pub malloc: FuncId,
}

impl Env {
    /// What the lowering reads of the environment.
    pub open spec fn context(&self) -> Context {
        Context { cfg: self.cfg, malloc: self.malloc }
    }
}

/// Whether lowering an arm came to `res`, leaving the body `fin`, exactly
/// where the mathematical lowering comes to `model`.
pub open spec fn arm_lowered_to(
    res: Result<(), LowerError>,
    model: Result<Body, LowerError>,
    fin: Body,
) -> bool {
    match res {
        Ok(_) => model == Ok::<Body, LowerError>(fin),
        Err(e) => model == Err::<Body, LowerError>(e),
    }
}

/// Lowers `expr` into the block that `builder` is filling, under the
/// bindings of `scope`, and returns the value that holds the result.
pub fn build_expr(env: &Env, scope: &Scope, builder: &mut FunctionBuilder, expr: &Expr) -> (res:
    Result<Value, LowerError>)
    requires
        old(builder)@.filling,
    ensures
        lowered_to(res, lower_expr(env.context(), scope@, old(builder)@, *expr), final(builder)@),
        final(builder).signature() == old(builder).signature(),
    decreases expr, 1nat,
{
    match expr {
        Expr::Int(num) => {
            let dst = builder.new_value(Type::I64);
            builder.emit(Inst::Iconst { dst, ty: Type::I64, imm: *num });
            Ok(dst)
        },
        Expr::Float(bits) => {
            let dst = builder.new_value(Type::F64);
            builder.emit(Inst::F64const { dst, bits: *bits });
            Ok(dst)
        },
        Expr::Bool(flag) => {
            let dst = builder.new_value(Type::B1);
            builder.emit(Inst::Bconst { dst, flag: *flag });
            Ok(dst)
        },
        Expr::Byte(val) => {
            let dst = builder.new_value(Type::I8);
            builder.emit(Inst::Iconst { dst, ty: Type::I8, imm: *val as i64 });
            Ok(dst)
        },
        Expr::Cond { .. } => build_branch2(env, scope, builder, expr),
        Expr::Switch { .. } => build_switch(env, scope, builder, expr),
        Expr::Store(..) => build_store(env, scope, builder, expr),
        Expr::CallByName(symbol, args) => {
            proof {
                assert(decreases_to!(*expr => expr->CallByName_1));
            }
            call_by_name(env, *symbol, args, scope, builder)
        },
        Expr::FunctionPointer(name) => match scope.lookup(*name) {
            None => Err(LowerError::UnresolvedSymbol(*name)),
            Some(ScopeEntry::Func { func_id, .. }) => {
                let func = builder.import_function(*func_id);
                let ty = env.cfg.pointer_type();
                let dst = builder.new_value(ty);
                builder.emit(Inst::FuncAddr { dst, ty, func });
                Ok(dst)
            },
            Some(_) => Err(LowerError::ShapeMismatch(Mismatch::NotAFunction(*name))),
        },
        Expr::CallByPointer(..) => build_call_by_pointer(env, scope, builder, expr),
        Expr::Load(name) => match scope.lookup(*name) {
            None => Err(LowerError::UnresolvedSymbol(*name)),
            Some(ScopeEntry::Stack { expr_type, slot }) => {
                let dst = builder.new_value(*expr_type);
                builder.emit(Inst::StackLoad { dst, ty: *expr_type, slot: *slot, offset: 0 });
                Ok(dst)
            },
            Some(ScopeEntry::Arg { param, .. }) => Ok(*param),
            Some(ScopeEntry::Heap { expr_type, ptr }) => {
                let dst = builder.new_value(*expr_type);
                builder.emit(Inst::Load { dst, ty: *expr_type, addr: *ptr, offset: 0 });
                Ok(dst)
            },
            Some(ScopeEntry::Func { .. }) => Err(
                LowerError::Unsupported(Unsupported::FunctionAsValue(*name)),
            ),
        },
        Expr::Struct { .. } => build_struct(env, scope, builder, expr),
        Expr::Str(..) => build_str(env, builder, expr),
        Expr::Array { .. } => build_array(env, scope, builder, expr),
    }
}

/// Lowers one arm of a conditional or of a switch into `block`: the value of
/// `expr` is assigned to `ret`, and control goes on to `ret_block`.
fn build_arm(
    env: &Env,
    scope: &Scope,
    builder: &mut FunctionBuilder,
    block: Block,
    expr: &Expr,
    ret: Variable,
    ret_block: Block,
) -> (res: Result<(), LowerError>)
    requires
        !old(builder)@.filling,
        block.index < old(builder)@.block_starts.len(),
        old(builder)@.block_starts[block.index as int] is None,
    ensures
        arm_lowered_to(
            res,
            lower_arm(env.context(), scope@, old(builder)@, block, *expr, ret, ret_block),
            final(builder)@,
        ),
        final(builder).signature() == old(builder).signature(),
    decreases expr, 2nat,
{
    builder.switch_to_block(block);
    let ghost st0 = builder@;
    let value = match build_expr(env, scope, builder, expr) {
        Ok(value) => value,
        Err(e) => {
            return Err(e);
        },
    };
    proof {
        lemma_expr_grows(env.context(), scope@, st0, *expr);
    }
    builder.emit(Inst::DefVar { var: ret, value });
    builder.emit(Inst::Jump { target: ret_block });
    Ok(())
}

/// Lowers a two-way conditional: the condition, a branch on it, one block
/// for each arm, and a block in which the arms meet.
fn build_branch2(env: &Env, scope: &Scope, builder: &mut FunctionBuilder, expr: &Expr) -> (res:
    Result<Value, LowerError>)
    requires
        old(builder)@.filling,
        expr is Cond,
    ensures
        lowered_to(res, lower_expr(env.context(), scope@, old(builder)@, *expr), final(builder)@),
        final(builder).signature() == old(builder).signature(),
    decreases expr, 0nat,
{
    let ghost cx = env.context();
    match expr {
        Expr::Cond { cond, cond_layout, pass, fail, ret_layout } => {
            let ret_type = ret_layout.type_from_layout(env.cfg);
            proof {
                builder.lemma_fits();
            }
            let ret_block = builder.create_block();
            let ret = builder.declare_var(ret_type);
            let ghost st2 = builder@;
            let c = match build_expr(env, scope, builder, cond) {
                Ok(c) => c,
                Err(e) => {
                    return Err(e);
                },
            };
            let ghost st3 = builder@;
            proof {
                lemma_expr_grows(cx, scope@, st2, **cond);
                builder.lemma_fits();
                lemma_starts_with_index(st3.block_starts, st2.block_starts, ret_block.index as int);
            }
            let pass_block = builder.create_block();
            proof {
                builder.lemma_fits();
            }
            let fail_block = builder.create_block();
            match cond_layout {
                Layout::Builtin(Builtin::Bool) => {},
                _ => {
                    return Err(LowerError::ShapeMismatch(Mismatch::ConditionNotBool));
                },
            }
            builder.emit(Inst::Brnz { cond: c, target: pass_block });
            builder.emit(Inst::Jump { target: fail_block });
            let ghost st5 = builder@;
            match build_arm(env, scope, builder, pass_block, pass, ret, ret_block) {
                Ok(_) => {},
                Err(e) => {
                    return Err(e);
                },
            }
            let ghost st6 = builder@;
            proof {
                lemma_arm_grows(cx, scope@, st5, pass_block, **pass, ret, ret_block, st5);
                builder.lemma_fits();
            }
            match build_arm(env, scope, builder, fail_block, fail, ret, ret_block) {
                Ok(_) => {},
                Err(e) => {
                    return Err(e);
                },
            }
            proof {
                lemma_arm_grows(cx, scope@, st6, fail_block, **fail, ret, ret_block, st6);
                builder.lemma_fits();
            }
            builder.switch_to_block(ret_block);
            let dst = builder.new_value(ret_type);
            builder.emit(Inst::UseVar { dst, var: ret });
            Ok(dst)
        },
        _ => Err(LowerError::ShapeMismatch(Mismatch::ConditionNotBool)),
    }
}

/// Whether `key` is the value of one of `cases`.
fn has_key(cases: &Vec<(u64, Block)>, key: u64) -> (found: bool)
    ensures
        found == exists|j: int| 0 <= j < cases@.len() && (#[trigger] cases@[j]).0 == key,
{
    let mut j: usize = 0;
    while j < cases.len()
        invariant
            j <= cases@.len(),
            forall|k: int| 0 <= k < j ==> (#[trigger] cases@[k]).0 != key,
        decreases cases@.len() - j,
    {
        if cases[j].0 == key {
            return true;
        }
        j = j + 1;
    }
    false
}

/// Lowers a multi-way switch: a block for each case and one for the default,
/// all entered in the table before the dispatch is emitted, the discriminant,
/// the dispatch, then the arms in the order of their declaration, and a
/// block in which the arms meet.
fn build_switch(env: &Env, scope: &Scope, builder: &mut FunctionBuilder, expr: &Expr) -> (res:
    Result<Value, LowerError>)
    requires
        old(builder)@.filling,
        expr is Switch,
    ensures
        lowered_to(res, lower_expr(env.context(), scope@, old(builder)@, *expr), final(builder)@),
        final(builder).signature() == old(builder).signature(),
    decreases expr, 0nat,
{
    let ghost cx = env.context();
    match expr {
        Expr::Switch { cond, cond_layout, branches, default_branch, ret_layout } => {
            let ret_type = ret_layout.type_from_layout(env.cfg);
            let ret = builder.declare_var(ret_type);
            proof {
                builder.lemma_fits();
            }
            let default_block = builder.create_block();
            proof {
                builder.lemma_fits();
            }
            let ret_block = builder.create_block();
            proof {
                builder.lemma_fits();
            }
            let ghost st2 = builder@;
            let ghost first = st2.next_block();
            let mut cases: Vec<(u64, Block)> = Vec::new();
            let mut i: usize = 0;
            while i < branches.len()
                invariant
                    i <= branches@.len(),
                    cases@ == case_table(branches@, first).take(i as int),
                    builder@ == with_blocks(st2, i as nat),
                    *expr == (Expr::Switch {
                        cond: *cond,
                        cond_layout: *cond_layout,
                        branches: *branches,
                        default_branch: *default_branch,
                        ret_layout: *ret_layout,
                    }),
                    first == st2.next_block(),
                    st2.block_starts.len() <= usize::MAX,
                    duplicate_case(branches@, 0) == duplicate_case(branches@, i as int),
                    builder.signature() == old(builder).signature(),
                decreases branches@.len() - i,
            {
                let key = branches[i].0;
                proof {
                    if has_case(branches@, i as int, key) {
                        let j = choose|j: int|
                            0 <= j < i && j < branches@.len() && (#[trigger] branches@[j]).0 == key;
                        assert(cases@[j].0 == key);
                    }
                    if exists|j: int| 0 <= j < cases@.len() && (#[trigger] cases@[j]).0 == key {
                        let j = choose|j: int|
                            0 <= j < cases@.len() && (#[trigger] cases@[j]).0 == key;
                        assert(branches@[j].0 == key);
                    }
                }
                if has_key(&cases, key) {
                    return Err(LowerError::ShapeMismatch(Mismatch::DuplicateCase(key)));
                }
                proof {
                    builder.lemma_fits();
                    lemma_grows_blocks(st2, i as nat);
                }
                let block = builder.create_block();
                cases.push((key, block));
                proof {
                    assert(case_table(branches@, first).take(i + 1) == case_table(
                        branches@,
                        first,
                    ).take(i as int).push((key, block)));
                }
                i = i + 1;
            }
            proof {
                assert(case_table(branches@, first).take(branches@.len() as int) == case_table(
                    branches@,
                    first,
                ));
                lemma_grows_blocks(st2, branches@.len());
            }
            let ghost st3 = builder@;
            let c = match build_expr(env, scope, builder, cond) {
                Ok(c) => c,
                Err(e) => {
                    return Err(e);
                },
            };
            let ghost st4 = builder@;
            proof {
                lemma_expr_grows(cx, scope@, st3, **cond);
                builder.lemma_fits();
                assert forall|j: int| st2.block_starts.len() - 2 <= j < st3.block_starts.len()
                    implies st4.block_starts[j] is None by {
                    lemma_starts_with_index(st4.block_starts, st3.block_starts, j);
                    if j < st2.block_starts.len() {
                        lemma_starts_with_index(st3.block_starts, st2.block_starts, j);
                    }
                }
            }
            let range = builder.add_cases(&cases);
            builder.emit(Inst::Switch { cond: c, cases: range, default: default_block });
            let ghost st5 = builder@;
            let ghost whole = lower_expr(cx, scope@, old(builder)@, *expr);
            let ghost rest = |st6: Body|
                match lower_arm(cx, scope@, st6, default_block, **default_branch, ret, ret_block) {
                    Err(e) => Err::<(Body, Value), LowerError>(e),
                    Ok(st7) => Ok(
                        crate::lowered::def(
                            st7.at_block(ret_block),
                            ret_type,
                            |dst: Value| Inst::UseVar { dst, var: ret },
                        ),
                    ),
                };
            assert(whole == match lower_branches(cx, scope@, st5, *branches, 0, first, ret, ret_block) {
                Err(e) => Err::<(Body, Value), LowerError>(e),
                Ok(st6) => rest(st6),
            });
            let mut k: usize = 0;
            while k < branches.len()
                invariant
                    k <= branches@.len(),
                    !builder@.filling,
                    whole == lower_expr(cx, scope@, old(builder)@, *expr),
                    whole == match lower_branches(
                        cx,
                        scope@,
                        st5,
                        *branches,
                        0,
                        first,
                        ret,
                        ret_block,
                    ) {
                        Err(e) => Err::<(Body, Value), LowerError>(e),
                        Ok(st6) => rest(st6),
                    },
                    cx == env.context(),
                    *expr == (Expr::Switch {
                        cond: *cond,
                        cond_layout: *cond_layout,
                        branches: *branches,
                        default_branch: *default_branch,
                        ret_layout: *ret_layout,
                    }),
                    first.index + branches@.len() <= builder@.block_starts.len(),
                    default_block.index + 2 == first.index,
                    ret_block.index + 1 == first.index,
                    forall|j: int|
                        first.index - 2 <= j < first.index + branches@.len() && !(first.index <= j
                            < first.index + k) ==> builder@.block_starts[j] is None,
                    lower_branches(cx, scope@, st5, *branches, 0, first, ret, ret_block)
                        == lower_branches(
                        cx,
                        scope@,
                        builder@,
                        *branches,
                        k as nat,
                        first,
                        ret,
                        ret_block,
                    ),
                    builder.signature() == old(builder).signature(),
                decreases branches@.len() - k,
            {
                let ghost st = builder@;
                proof {
                    assert(decreases_to!(*expr => expr->Switch_branches));
                    vstd::std_specs::vec::axiom_vec_index_decreases(*branches, k as int);
                    builder.lemma_fits();
                }
                let block = Block { index: ret_block.index + 1 + k };
                match build_arm(env, scope, builder, block, &branches[k].1, ret, ret_block) {
                    Ok(_) => {},
                    Err(e) => {
                        return Err(e);
                    },
                }
                proof {
                    lemma_arm_grows(cx, scope@, st, block, branches@[k as int].1, ret, ret_block, st);
                    builder.lemma_fits();
                }
                k = k + 1;
            }
            let ghost st6 = builder@;
            match build_arm(env, scope, builder, default_block, default_branch, ret, ret_block) {
                Ok(_) => {},
                Err(e) => {
                    return Err(e);
                },
            }
            proof {
                lemma_arm_grows(
                    cx,
                    scope@,
                    st6,
                    default_block,
                    **default_branch,
                    ret,
                    ret_block,
                    st6,
                );
                builder.lemma_fits();
            }
            builder.switch_to_block(ret_block);
            let dst = builder.new_value(ret_type);
            builder.emit(Inst::UseVar { dst, var: ret });
            Ok(dst)
        },
        _ => Err(LowerError::ShapeMismatch(Mismatch::ConditionNotBool)),
    }
}
/// Lowers a sequence of bindings: each initializer is lowered under the
/// bindings before it and stored in a slot of its own, and then the binding
/// enters the scope of what follows.
fn build_store(env: &Env, scope: &Scope, builder: &mut FunctionBuilder, expr: &Expr) -> (res:
    Result<Value, LowerError>)
    requires
        old(builder)@.filling,
        expr is Store,
    ensures
        lowered_to(res, lower_expr(env.context(), scope@, old(builder)@, *expr), final(builder)@),
        final(builder).signature() == old(builder).signature(),
    decreases expr, 0nat,
{
    let ghost cx = env.context();
    match expr {
        Expr::Store(stores, ret) => {
            let mut inner = scope.share();
            let mut i: usize = 0;
            while i < stores.len()
                invariant
                    i <= stores@.len(),
                    builder@.filling,
                    cx == env.context(),
                    *expr == Expr::Store(*stores, *ret),
                    lower_stores(cx, scope@, old(builder)@, *stores, 0) == lower_stores(
                        cx,
                        inner@,
                        builder@,
                        *stores,
                        i as nat,
                    ),
                    builder.signature() == old(builder).signature(),
                decreases stores@.len() - i,
            {
                let ghost st = builder@;
                proof {
                    assert(decreases_to!(*expr => expr->Store_0));
                    vstd::std_specs::vec::axiom_vec_index_decreases(*stores, i as int);
                }
                let binding = &stores[i];
                let value = match build_expr(env, &inner, builder, &binding.2) {
                    Ok(value) => value,
                    Err(e) => {
                        return Err(e);
                    },
                };
                proof {
                    lemma_expr_grows(cx, inner@, st, binding.2);
                }
                let expr_type = binding.1.type_from_layout(env.cfg);
                let size = match binding.1.stack_size(env.cfg.pointer_bytes() as u32) {
                    Some(size) => size,
                    None => {
                        return Err(LowerError::Unsupported(Unsupported::TooLarge));
                    },
                };
                let slot = builder.create_stack_slot(size);
                builder.emit(Inst::StackStore { value, slot, offset: 0 });
                inner = inner.extend(binding.0, ScopeEntry::Stack { expr_type, slot });
                i = i + 1;
            }
            build_expr(env, &inner, builder, ret)
        },
        _ => Err(LowerError::ShapeMismatch(Mismatch::ConditionNotBool)),
    }
}
/// Lowers a call through an address: the arguments from left to right, then
/// the address, then the call under the signature that the layout gives.
fn build_call_by_pointer(env: &Env, scope: &Scope, builder: &mut FunctionBuilder, expr: &Expr) -> (res:
    Result<Value, LowerError>)
    requires
        old(builder)@.filling,
        expr is CallByPointer,
    ensures
        lowered_to(res, lower_expr(env.context(), scope@, old(builder)@, *expr), final(builder)@),
        final(builder).signature() == old(builder).signature(),
    decreases expr, 0nat,
{
    let ghost cx = env.context();
    match expr {
        Expr::CallByPointer(sub_expr, args, layout) => {
            let mut arg_vals: Vec<Value> = Vec::new();
            let mut i: usize = 0;
            while i < args.len()
                invariant
                    i <= args@.len(),
                    builder@.filling,
                    cx == env.context(),
                    *expr == Expr::CallByPointer(*sub_expr, *args, *layout),
                    lower_values(cx, scope@, old(builder)@, *args, 0, Seq::empty()) == lower_values(
                        cx,
                        scope@,
                        builder@,
                        *args,
                        i as nat,
                        arg_vals@,
                    ),
                    builder.signature() == old(builder).signature(),
                decreases args@.len() - i,
            {
                let ghost st = builder@;
                proof {
                    assert(decreases_to!(*expr => expr->CallByPointer_1));
                    vstd::std_specs::vec::axiom_vec_index_decreases(*args, i as int);
                }
                let value = match build_expr(env, scope, builder, &args[i]) {
                    Ok(value) => value,
                    Err(e) => {
                        return Err(e);
                    },
                };
                proof {
                    lemma_expr_grows(cx, scope@, st, args@[i as int]);
                }
                arg_vals.push(value);
                i = i + 1;
            }
            let sig = match sig_from_layout(env.cfg, layout) {
                Some(sig) => sig,
                None => {
                    return Err(LowerError::ShapeMismatch(Mismatch::NotAFunctionPointer));
                },
            };
            let ghost st1 = builder@;
            let callee = match build_expr(env, scope, builder, sub_expr) {
                Ok(callee) => callee,
                Err(e) => {
                    return Err(e);
                },
            };
            proof {
                lemma_expr_grows(cx, scope@, st1, **sub_expr);
            }
            let ret_type = sig.returns[0];
            let sig_ref = builder.import_signature(sig);
            let range = builder.add_values(&arg_vals);
            let dst = builder.new_value(ret_type);
            builder.emit(Inst::CallIndirect { dst, sig: sig_ref, callee, args: range });
            Ok(dst)
        },
        _ => Err(LowerError::ShapeMismatch(Mismatch::ConditionNotBool)),
    }
}
/// The indices of the fields of a record literal in the order of their
/// names.
fn sort_fields(fields: &Vec<(String, Expr)>) -> (order: Vec<usize>)
    ensures
        order@ == order_by_name(field_names(fields@), fields@.len()),
        order@.len() == fields@.len(),
        forall|j: int| 0 <= j < order@.len() ==> (#[trigger] order@[j]) < fields@.len(),
{
    let ghost names = field_names(fields@);
    let mut order: Vec<usize> = Vec::new();
    let mut k: usize = 0;
    while k < fields.len()
        invariant
            k <= fields@.len(),
            names == field_names(fields@),
            order@ == order_by_name(names, k as nat),
            order@.len() == k,
            forall|j: int| 0 <= j < order@.len() ==> (#[trigger] order@[j]) < k,
        decreases fields@.len() - k,
    {
        let mut p: usize = order.len();
        loop
            invariant
                p <= order@.len(),
                k < fields@.len(),
                order@.len() == k,
                names == field_names(fields@),
                forall|j: int| 0 <= j < order@.len() ==> (#[trigger] order@[j]) < k,
                forall|j: int|
                    p <= j < order@.len() ==> !bytes_le(
                        names[(#[trigger] order@[j]) as int],
                        names[k as int],
                    ),
            ensures
                p > 0 ==> bytes_le(names[order@[p - 1] as int], names[k as int]),
            decreases p,
        {
            if p == 0 {
                break ;
            }
            let before = order[p - 1];
            if name_le(fields[before].0.as_str(), fields[k].0.as_str()) {
                break ;
            }
            p = p - 1;
        }
        proof {
            lemma_insert_position(names, order@, k, p as int);
        }
        order.insert(p, k);
        k = k + 1;
    }
    order
}

/// The layout of the field `name` of a record of `layout`.
fn find_field_layout<'a>(layout: &'a Layout, name: &str) -> (found: Option<&'a Layout>)
    ensures
        match found {
            Some(field) => field_layout(*layout, name.spec_bytes()) == Some(*field),
            None => field_layout(*layout, name.spec_bytes()) is None,
        },
{
    match layout {
        Layout::Struct(fields) => {
            let mut i: usize = 0;
            while i < fields.len()
                invariant
                    i <= fields@.len(),
                    *layout == Layout::Struct(*fields),
                    field_layout_from(fields@, name.spec_bytes(), 0) == field_layout_from(
                        fields@,
                        name.spec_bytes(),
                        i as int,
                    ),
                decreases fields@.len() - i,
            {
                if name_eq(fields[i].0.as_str(), name) {
                    return Some(&fields[i].1);
                }
                i = i + 1;
            }
            None
        },
        _ => None,
    }
}

/// Lowers a record: a slot for the whole record, and each field, taken in
/// the order of the names, stored behind the fields before it. The result is
/// the address of the slot.
fn build_struct(env: &Env, scope: &Scope, builder: &mut FunctionBuilder, expr: &Expr) -> (res:
    Result<Value, LowerError>)
    requires
        old(builder)@.filling,
        expr is Struct,
    ensures
        lowered_to(res, lower_expr(env.context(), scope@, old(builder)@, *expr), final(builder)@),
        final(builder).signature() == old(builder).signature(),
    decreases expr, 0nat,
{
    let ghost cx = env.context();
    match expr {
        Expr::Struct { layout, fields } => {
            let size = match layout.stack_size(env.cfg.pointer_bytes() as u32) {
                Some(size) => size,
                None => {
                    return Err(LowerError::Unsupported(Unsupported::TooLarge));
                },
            };
            let order = sort_fields(fields);
            let slot = builder.create_stack_slot(size);
            let ghost st0 = builder@;
            let ghost whole = lower_expr(cx, scope@, old(builder)@, *expr);
            let ghost ty = layout.machine_type(cx.cfg);
            assert(whole == match lower_fields(cx, scope@, st0, *fields, *layout, order@, 0, slot, 0) {
                Err(e) => Err::<(Body, Value), LowerError>(e),
                Ok(st1) => Ok(
                    crate::lowered::def(
                        st1,
                        ty,
                        |dst: Value| Inst::StackAddr { dst, ty, slot, offset: 0 },
                    ),
                ),
            });
            let mut offset: u32 = 0;
            let mut i: usize = 0;
            while i < order.len()
                invariant
                    i <= order@.len(),
                    whole == lower_expr(cx, scope@, old(builder)@, *expr),
                    ty == layout.machine_type(cx.cfg),
                    whole == match lower_fields(
                        cx,
                        scope@,
                        st0,
                        *fields,
                        *layout,
                        order@,
                        0,
                        slot,
                        0,
                    ) {
                        Err(e) => Err::<(Body, Value), LowerError>(e),
                        Ok(st1) => Ok(
                            crate::lowered::def(
                                st1,
                                ty,
                                |dst: Value| Inst::StackAddr { dst, ty, slot, offset: 0 },
                            ),
                        ),
                    },
                    offset <= MAX_OFFSET,
                    builder@.filling,
                    cx == env.context(),
                    *expr == (Expr::Struct { layout: *layout, fields: *fields }),
                    forall|j: int| 0 <= j < order@.len() ==> (#[trigger] order@[j]) < fields@.len(),
                    lower_fields(cx, scope@, st0, *fields, *layout, order@, 0, slot, 0)
                        == lower_fields(
                        cx,
                        scope@,
                        builder@,
                        *fields,
                        *layout,
                        order@,
                        i as nat,
                        slot,
                        offset as nat,
                    ),
                    builder.signature() == old(builder).signature(),
                decreases order@.len() - i,
            {
                let ghost st = builder@;
                let index = order[i];
                proof {
                    assert(decreases_to!(*expr => expr->Struct_fields));
                    vstd::std_specs::vec::axiom_vec_index_decreases(*fields, index as int);
                }
                let field = &fields[index];
                let value = match build_expr(env, scope, builder, &field.1) {
                    Ok(value) => value,
                    Err(e) => {
                        return Err(e);
                    },
                };
                proof {
                    lemma_expr_grows(cx, scope@, st, field.1);
                }
                let field_size = match find_field_layout(layout, field.0.as_str()) {
                    None => {
                        return Err(LowerError::ShapeMismatch(Mismatch::RecordLayout));
                    },
                    Some(field_layout) => match field_layout.stack_size(
                        env.cfg.pointer_bytes() as u32,
                    ) {
                        None => {
                            return Err(LowerError::Unsupported(Unsupported::TooLarge));
                        },
                        Some(n) => n,
                    },
                };
                if field_size > MAX_OFFSET - offset {
                    return Err(LowerError::Unsupported(Unsupported::TooLarge));
                }
                builder.emit(Inst::StackStore { value, slot, offset: offset as i32 });
                offset = offset + field_size;
                i = i + 1;
            }
            let ty = layout.type_from_layout(env.cfg);
            let dst = builder.new_value(ty);
            builder.emit(Inst::StackAddr { dst, ty, slot, offset: 0 });
            Ok(dst)
        },
        _ => Err(LowerError::ShapeMismatch(Mismatch::ConditionNotBool)),
    }
}
/// Emits a call of the allocation primitive for `size` bytes and returns the
/// value that holds the address.
pub fn call_malloc(env: &Env, builder: &mut FunctionBuilder, size: usize) -> (ptr: Value)
    requires
        old(builder)@.filling,
    ensures
        with_malloc(env.context(), old(builder)@, size as i64) == (final(builder)@, ptr),
        final(builder).signature() == old(builder).signature(),
{
    let local_func = builder.import_function(env.malloc);
    let ptr_type = env.cfg.pointer_type();
    let size_arg = builder.new_value(ptr_type);
    builder.emit(Inst::Iconst { dst: size_arg, ty: ptr_type, imm: #[verifier::truncate] (size as i64) });
    let mut args: Vec<Value> = Vec::new();
    args.push(size_arg);
    assert(args@ == seq![size_arg]);
    let range = builder.add_values(&args);
    let dst = builder.new_value(ptr_type);
    builder.emit(Inst::Call { dst, func: local_func, args: range });
    dst
}

/// Emits the store of the sentinel byte that ends a string or an array.
fn store_terminator(builder: &mut FunctionBuilder, ptr: Value, offset: i32)
    requires
        old(builder)@.filling,
    ensures
        final(builder)@ == with_terminator(old(builder)@, ptr, offset),
        final(builder).signature() == old(builder).signature(),
{
    let nul = builder.new_value(Type::I8);
    builder.emit(Inst::Iconst { dst: nul, ty: Type::I8, imm: 0 });
    builder.emit(Inst::Store { value: nul, addr: ptr, offset });
}

/// Lowers a string literal: memory for its bytes and a sentinel is
/// allocated, and each byte is stored at its index.
fn build_str(env: &Env, builder: &mut FunctionBuilder, expr: &Expr) -> (res:
    Result<Value, LowerError>)
    requires
        old(builder)@.filling,
        expr is Str,
    ensures
        forall|scope: Map<Symbol, ScopeEntry>|
            lowered_to(
                res,
                #[trigger] lower_expr(env.context(), scope, old(builder)@, *expr),
                final(builder)@,
            ),
        final(builder).signature() == old(builder).signature(),
{
    let ghost cx = env.context();
    match expr {
        Expr::Str(text) => {
            let bytes = text.as_str().as_bytes();
            assert(bytes@ == name_bytes(*text));
            if bytes.len() == 0 {
                return Err(LowerError::Unsupported(Unsupported::EmptyString));
            }
            if bytes.len() >= MAX_OFFSET as usize {
                return Err(LowerError::Unsupported(Unsupported::TooLarge));
            }
            let bytes_len = bytes.len() + 1;
            let ptr = call_malloc(env, builder, bytes_len);
            proof {
                crate::growth::lemma_grows_malloc(cx, old(builder)@, bytes_len as i64);
            }
            let ghost st1 = builder@;
            let mut index: usize = 0;
            while index < bytes.len()
                invariant
                    index <= bytes@.len(),
                    bytes@.len() < MAX_OFFSET,
                    builder@.filling,
                    with_bytes(st1, bytes@, 0, ptr) == with_bytes(builder@, bytes@, index as int, ptr),
                    builder.signature() == old(builder).signature(),
                decreases bytes@.len() - index,
            {
                let val = builder.new_value(Type::I8);
                builder.emit(Inst::Iconst { dst: val, ty: Type::I8, imm: bytes[index] as i64 });
                builder.emit(Inst::Store { value: val, addr: ptr, offset: index as i32 });
                index = index + 1;
            }
            store_terminator(builder, ptr, (bytes_len - 1) as i32);
            Ok(ptr)
        },
        _ => Err(LowerError::ShapeMismatch(Mismatch::ConditionNotBool)),
    }
}
/// Lowers an array literal: memory for its elements and a sentinel is
/// allocated, and each element is stored at its index times the size of an
/// element.
fn build_array(env: &Env, scope: &Scope, builder: &mut FunctionBuilder, expr: &Expr) -> (res:
    Result<Value, LowerError>)
    requires
        old(builder)@.filling,
        expr is Array,
    ensures
        lowered_to(res, lower_expr(env.context(), scope@, old(builder)@, *expr), final(builder)@),
        final(builder).signature() == old(builder).signature(),
    decreases expr, 0nat,
{
    let ghost cx = env.context();
    match expr {
        Expr::Array { elem_layout, elems } => {
            if elems.len() == 0 {
                return Err(LowerError::Unsupported(Unsupported::EmptyArray));
            }
            let elem_bytes = match elem_layout.stack_size(env.cfg.pointer_bytes() as u32) {
                Some(n) => n,
                None => {
                    return Err(LowerError::Unsupported(Unsupported::TooLarge));
                },
            };
            if elem_bytes != 0 && elems.len() > MAX_OFFSET as usize {
                proof {
                    assert(elem_bytes * elems@.len() + 1 > MAX_OFFSET) by (nonlinear_arith)
                        requires
                            elem_bytes >= 1,
                            elems@.len() > MAX_OFFSET,
                    ;
                }
                return Err(LowerError::Unsupported(Unsupported::TooLarge));
            }
            proof {
                assert(elem_bytes * elems@.len() <= 0xffff_ffff * 0x7fff_ffff) by (nonlinear_arith)
                    requires
                        elem_bytes <= 0xffff_ffff,
                        elem_bytes == 0 || elems@.len() <= 0x7fff_ffff,
                        elems@.len() >= 0,
                ;
            }
            let payload: u64 = elem_bytes as u64 * elems.len() as u64;
            if payload >= MAX_OFFSET as u64 {
                return Err(LowerError::Unsupported(Unsupported::TooLarge));
            }
            let bytes_len = payload as usize + 1;
            let ptr = call_malloc(env, builder, bytes_len);
            proof {
                crate::growth::lemma_grows_malloc(cx, old(builder)@, bytes_len as i64);
            }
            let ghost st1 = builder@;
            let ghost whole = lower_expr(cx, scope@, old(builder)@, *expr);
            assert(whole == match lower_elems(cx, scope@, st1, *elems, 0, ptr, elem_bytes) {
                Err(e) => Err::<(Body, Value), LowerError>(e),
                Ok(st2) => Ok((with_terminator(st2, ptr, payload as i32), ptr)),
            });
            let mut index: usize = 0;
            while index < elems.len()
                invariant
                    index <= elems@.len(),
                    elem_bytes * elems@.len() < MAX_OFFSET,
                    payload == elem_bytes * elems@.len(),
                    whole == match lower_elems(cx, scope@, st1, *elems, 0, ptr, elem_bytes) {
                        Err(e) => Err::<(Body, Value), LowerError>(e),
                        Ok(st2) => Ok((with_terminator(st2, ptr, payload as i32), ptr)),
                    },
                    whole == lower_expr(cx, scope@, old(builder)@, *expr),
                    builder@.filling,
                    cx == env.context(),
                    *expr == (Expr::Array { elem_layout: *elem_layout, elems: *elems }),
                    lower_elems(cx, scope@, st1, *elems, 0, ptr, elem_bytes) == lower_elems(
                        cx,
                        scope@,
                        builder@,
                        *elems,
                        index as nat,
                        ptr,
                        elem_bytes,
                    ),
                    builder.signature() == old(builder).signature(),
                decreases elems@.len() - index,
            {
                let ghost st = builder@;
                proof {
                    assert(decreases_to!(*expr => expr->Array_elems));
                    vstd::std_specs::vec::axiom_vec_index_decreases(*elems, index as int);
                    assert(elem_bytes * index <= elem_bytes * elems@.len()) by (nonlinear_arith)
                        requires
                            index <= elems@.len(),
                            elem_bytes >= 0,
                    ;
                }
                let offset = (elem_bytes as u64 * index as u64) as i32;
                let value = match build_expr(env, scope, builder, &elems[index]) {
                    Ok(value) => value,
                    Err(e) => {
                        return Err(e);
                    },
                };
                proof {
                    lemma_expr_grows(cx, scope@, st, elems@[index as int]);
                }
                builder.emit(Inst::Store { value, addr: ptr, offset });
                index = index + 1;
            }
            store_terminator(builder, ptr, payload as i32);
            Ok(ptr)
        },
        _ => Err(LowerError::ShapeMismatch(Mismatch::ConditionNotBool)),
    }
}
/// Lowers one argument of a call.
fn build_arg(arg: &(Expr, Layout), env: &Env, scope: &Scope, builder: &mut FunctionBuilder) -> (res:
    Result<Value, LowerError>)
    requires
        old(builder)@.filling,
    ensures
        lowered_to(res, lower_expr(env.context(), scope@, old(builder)@, arg.0), final(builder)@),
        final(builder).signature() == old(builder).signature(),
    decreases arg, 2nat,
{
    build_expr(env, scope, builder, &arg.0)
}

/// Whether lowering a list came to `res`, leaving the body `fin`, exactly
/// where the mathematical lowering comes to `model`.
pub open spec fn list_lowered_to(
    res: Result<Vec<Value>, LowerError>,
    model: Result<(Body, Seq<Value>), LowerError>,
    fin: Body,
) -> bool {
    match res {
        Ok(vals) => model == Ok::<(Body, Seq<Value>), LowerError>((fin, vals@)),
        Err(e) => model == Err::<(Body, Seq<Value>), LowerError>(e),
    }
}

/// Lowers the arguments of a call from `from` on, from left to right.
fn build_args(
    env: &Env,
    scope: &Scope,
    builder: &mut FunctionBuilder,
    args: &Vec<(Expr, Layout)>,
    from: usize,
) -> (res: Result<Vec<Value>, LowerError>)
    requires
        old(builder)@.filling,
        from <= args@.len(),
    ensures
        list_lowered_to(
            res,
            lower_args(env.context(), scope@, old(builder)@, *args, from as nat, Seq::empty()),
            final(builder)@,
        ),
        res matches Ok(vals) ==> vals@.len() == args@.len() - from && final(builder)@.filling,
        final(builder).signature() == old(builder).signature(),
    decreases args, 1nat,
{
    let ghost cx = env.context();
    let mut vals: Vec<Value> = Vec::new();
    let mut i: usize = from;
    while i < args.len()
        invariant
            from <= i <= args@.len(),
            builder@.filling,
            cx == env.context(),
            vals@.len() == i - from,
            lower_args(cx, scope@, old(builder)@, *args, from as nat, Seq::empty()) == lower_args(
                cx,
                scope@,
                builder@,
                *args,
                i as nat,
                vals@,
            ),
            builder.signature() == old(builder).signature(),
        decreases args@.len() - i,
    {
        let ghost st = builder@;
        proof {
            vstd::std_specs::vec::axiom_vec_index_decreases(*args, i as int);
        }
        let value = match build_arg(&args[i], env, scope, builder) {
            Ok(value) => value,
            Err(e) => {
                return Err(e);
            },
        };
        proof {
            lemma_expr_grows(cx, scope@, st, args@[i as int].0);
        }
        vals.push(value);
        i = i + 1;
    }
    Ok(vals)
}

/// Emits the store of `elem` at `elem_index` of the list at `list_ptr`; the
/// list itself is the result.
pub fn list_set_in_place(
    env: &Env,
    list_ptr: Value,
    elem_index: Value,
    elem: Value,
    elem_layout: &Layout,
    builder: &mut FunctionBuilder,
) -> (res: Result<Value, LowerError>)
    requires
        old(builder)@.filling,
    ensures
        lowered_to(
            res,
            with_list_set(env.context(), old(builder)@, list_ptr, elem_index, elem, *elem_layout),
            final(builder)@,
        ),
        final(builder).signature() == old(builder).signature(),
{
    let elem_bytes = match elem_layout.stack_size(env.cfg.pointer_bytes() as u32) {
        Some(n) => n,
        None => {
            return Err(LowerError::Unsupported(Unsupported::TooLarge));
        },
    };
    let elem_size = builder.new_value(Type::I64);
    builder.emit(Inst::Iconst { dst: elem_size, ty: Type::I64, imm: elem_bytes as i64 });
    let offset = builder.new_value(Type::I64);
    builder.emit(
        Inst::Binary {
            dst: offset,
            op: BinaryOp::Imul,
            ty: Type::I64,
            lhs: elem_index,
            rhs: elem_size,
        },
    );
    builder.emit(Inst::StoreComplex { value: elem, base: list_ptr, index: offset, offset: 0 });
    Ok(list_ptr)
}

/// The instruction of a built-in operation on two values, and the type of
/// what it yields.
fn binary_parts(op: BuiltinOp, arg_ty: Type) -> (parts: Option<(BinaryOp, Type, Type)>)
    ensures
        parts == binary_of(op, arg_ty),
{
    match op {
        BuiltinOp::IntAdd => Some((BinaryOp::Iadd, arg_ty, arg_ty)),
        BuiltinOp::IntSub => Some((BinaryOp::Isub, arg_ty, arg_ty)),
        BuiltinOp::IntMul => Some((BinaryOp::Imul, arg_ty, arg_ty)),
        BuiltinOp::FloatAdd => Some((BinaryOp::Fadd, Type::F64, Type::F64)),
        BuiltinOp::FloatSub => Some((BinaryOp::Fsub, Type::F64, Type::F64)),
        BuiltinOp::IntEq64 => Some((BinaryOp::IcmpEq, Type::I64, Type::B1)),
        BuiltinOp::IntEq8 => Some((BinaryOp::IcmpEq, Type::I8, Type::B1)),
        BuiltinOp::IntEq1 => Some((BinaryOp::IcmpEq, Type::B1, Type::B1)),
        BuiltinOp::FloatEq => Some((BinaryOp::FcmpEq, Type::F64, Type::B1)),
        _ => None,
    }
}

/// The layout of the elements of a list layout.
fn list_elem_layout(layout: &Layout) -> (elem: Option<&Layout>)
    ensures
        match elem {
            Some(e) => elem_layout_of(*layout) == Some(*e),
            None => elem_layout_of(*layout) is None,
        },
{
    match layout {
        Layout::Builtin(Builtin::List(elem)) => Some(elem),
        _ => None,
    }
}

/// Lowers a built-in operation to its instructions. The arguments are
/// lowered from left to right.
fn build_builtin(
    env: &Env,
    symbol: Symbol,
    op: BuiltinOp,
    args: &Vec<(Expr, Layout)>,
    scope: &Scope,
    builder: &mut FunctionBuilder,
) -> (res: Result<Value, LowerError>)
    requires
        old(builder)@.filling,
        args@.len() == op.arity(),
    ensures
        lowered_to(
            res,
            lower_builtin(env.context(), scope@, old(builder)@, symbol, op, *args),
            final(builder)@,
        ),
        final(builder).signature() == old(builder).signature(),
    decreases args, 2nat,
{
    let ghost cx = env.context();
    match op {
        BuiltinOp::IntNeg => {
            proof {
                vstd::std_specs::vec::axiom_vec_index_decreases(*args, 0);
            }
            let arg = match build_arg(&args[0], env, scope, builder) {
                Ok(arg) => arg,
                Err(e) => {
                    return Err(e);
                },
            };
            proof {
                lemma_expr_grows(cx, scope@, old(builder)@, args@[0].0);
            }
            let ty = args[0].1.type_from_layout(env.cfg);
            let dst = builder.new_value(ty);
            builder.emit(Inst::Ineg { dst, ty, arg });
            Ok(dst)
        },
        BuiltinOp::ListGetUnsafe => {
            let vals = match build_args(env, scope, builder, args, 0) {
                Ok(vals) => vals,
                Err(e) => {
                    return Err(e);
                },
            };
            let elem_layout = match list_elem_layout(&args[0].1) {
                Some(elem) => elem,
                None => {
                    return Err(LowerError::ShapeMismatch(Mismatch::NotAList(symbol)));
                },
            };
            let elem_bytes = match elem_layout.stack_size(env.cfg.pointer_bytes() as u32) {
                Some(n) => n,
                None => {
                    return Err(LowerError::Unsupported(Unsupported::TooLarge));
                },
            };
            let elem_type = elem_layout.type_from_layout(env.cfg);
            let elem_size = builder.new_value(Type::I64);
            builder.emit(Inst::Iconst { dst: elem_size, ty: Type::I64, imm: elem_bytes as i64 });
            let offset = builder.new_value(Type::I64);
            builder.emit(
                Inst::Binary {
                    dst: offset,
                    op: BinaryOp::Imul,
                    ty: Type::I64,
                    lhs: vals[1],
                    rhs: elem_size,
                },
            );
            let dst = builder.new_value(elem_type);
            builder.emit(
                Inst::LoadComplex { dst, ty: elem_type, base: vals[0], index: offset, offset: 0 },
            );
            Ok(dst)
        },
        BuiltinOp::ListSet => {
            let elem_layout = match list_elem_layout(&args[0].1) {
                Some(elem) => elem,
                None => {
                    return Err(LowerError::ShapeMismatch(Mismatch::NotAList(symbol)));
                },
            };
            let elem_bytes = match elem_layout.stack_size(env.cfg.pointer_bytes() as u32) {
                Some(n) => n,
                None => {
                    return Err(LowerError::Unsupported(Unsupported::TooLarge));
                },
            };
            let payload: u64 = elem_bytes as u64 * LIST_SET_CAPACITY as u64;
            if payload >= MAX_OFFSET as u64 {
                return Err(LowerError::Unsupported(Unsupported::TooLarge));
            }
            let bytes_len = payload as usize + 1;
            let ptr = call_malloc(env, builder, bytes_len);
            proof {
                crate::growth::lemma_grows_malloc(cx, old(builder)@, bytes_len as i64);
            }
            let vals = match build_args(env, scope, builder, args, 1) {
                Ok(vals) => vals,
                Err(e) => {
                    return Err(e);
                },
            };
            list_set_in_place(env, ptr, vals[0], vals[1], elem_layout, builder)
        },
        BuiltinOp::ListSetInPlace => {
            proof {
                vstd::std_specs::vec::axiom_vec_index_decreases(*args, 0);
            }
            let list_val = match build_arg(&args[0], env, scope, builder) {
                Ok(v) => v,
                Err(e) => {
                    return Err(e);
                },
            };
            proof {
                lemma_expr_grows(cx, scope@, old(builder)@, args@[0].0);
            }
            let elem_layout = match list_elem_layout(&args[0].1) {
                Some(elem) => elem,
                None => {
                    return Err(LowerError::ShapeMismatch(Mismatch::NotAList(symbol)));
                },
            };
            let vals = match build_args(env, scope, builder, args, 1) {
                Ok(vals) => vals,
                Err(e) => {
                    return Err(e);
                },
            };
            list_set_in_place(env, list_val, vals[0], vals[1], elem_layout, builder)
        },
        _ => {
            let vals = match build_args(env, scope, builder, args, 0) {
                Ok(vals) => vals,
                Err(e) => {
                    return Err(e);
                },
            };
            match binary_parts(op, args[0].1.type_from_layout(env.cfg)) {
                None => Err(LowerError::ShapeMismatch(Mismatch::Arity(symbol))),
                Some((bin, ty, res_ty)) => {
                    let dst = builder.new_value(res_ty);
                    builder.emit(Inst::Binary { dst, op: bin, ty, lhs: vals[0], rhs: vals[1] });
                    Ok(dst)
                },
            }
        },
    }
}

/// Lowers a call by name. A built-in operation is lowered to instructions
/// in place of a call; any other symbol must be bound to a function, which
/// is called with the arguments, lowered from left to right.
pub fn call_by_name(
    env: &Env,
    symbol: Symbol,
    args: &Vec<(Expr, Layout)>,
    scope: &Scope,
    builder: &mut FunctionBuilder,
) -> (res: Result<Value, LowerError>)
    requires
        old(builder)@.filling,
    ensures
        lowered_to(
            res,
            lower_call(env.context(), scope@, old(builder)@, symbol, *args),
            final(builder)@,
        ),
        final(builder).signature() == old(builder).signature(),
    decreases args, 3nat,
{
    match symbol.lookup_builtin() {
        Some(op) => {
            if args.len() != op.expected_args() {
                return Err(LowerError::ShapeMismatch(Mismatch::Arity(symbol)));
            }
            build_builtin(env, symbol, op, args, scope, builder)
        },
        None => match scope.lookup(symbol) {
            None => Err(LowerError::UnresolvedSymbol(symbol)),
            Some(ScopeEntry::Func { func_id, sig }) => {
                let local_func = builder.import_function(*func_id);
                let arg_vals = match build_args(env, scope, builder, args, 0) {
                    Ok(vals) => vals,
                    Err(e) => {
                        return Err(e);
                    },
                };
                if sig.returns.len() != 1 {
                    return Err(LowerError::ShapeMismatch(Mismatch::ResultCount(symbol)));
                }
                let ret_type = sig.returns[0];
                let range = builder.add_values(&arg_vals);
                let dst = builder.new_value(ret_type);
                builder.emit(Inst::Call { dst, func: local_func, args: range });
                Ok(dst)
            },
            Some(_) => Err(LowerError::ShapeMismatch(Mismatch::NotAFunction(symbol))),
        },
    }
}


} // verus!
