//! Lowering resolves every symbol where it stands, or not at all.
//!
//! An expression that refers to a symbol that is not bound where the
//! reference stands cannot be lowered. In particular the initializer of a
//! binding sees the surroundings and the bindings before it, and nothing
//! that is bound later.

use crate::builder::Body;
use crate::expr::Expr;
use crate::fields::{lemma_order_by_name, order_by_name};
use crate::ir::{Block, StackSlot, Value, Variable};
use crate::layout::Layout;
use crate::lowered::{
    Context, field_names, lower_args, lower_arm, lower_branches, lower_builtin, lower_call,
    lower_elems, lower_expr, lower_fields, lower_stores, lower_values,
};
use crate::scope::ScopeEntry;
use crate::symbol::{BuiltinOp, Symbol};
use vstd::prelude::*;

verus! {

/// The symbols that are bound behind the first `n` bindings of a sequence,
/// where `keys` were bound before it.
pub open spec fn bound_after(keys: Set<Symbol>, stores: Seq<(Symbol, Layout, Expr)>, n: nat) -> Set<
    Symbol,
>
    decreases n,
{
    if n == 0 || n > stores.len() {
        keys
    } else {
        bound_after(keys, stores, (n - 1) as nat).insert(stores[n - 1].0)
    }
}

/// Where the arguments of a call by name are lowered from: a list-element
/// write leaves the list itself aside.
pub open spec fn first_lowered(symbol: Symbol) -> nat {
    if symbol.builtin() == Some(BuiltinOp::ListSet) {
        1
    } else {
        0
    }
}

/// Whether `expr` refers to a symbol that is not among `keys` where the
/// reference stands.
pub open spec fn dangles(keys: Set<Symbol>, expr: Expr) -> bool
    decreases expr, 1nat, 0nat,
{
    match expr {
        Expr::Int(_) | Expr::Float(_) | Expr::Bool(_) | Expr::Byte(_) | Expr::Str(_) => false,
        Expr::Load(name) => !keys.contains(name),
        Expr::FunctionPointer(name) => !keys.contains(name),
        Expr::CallByName(symbol, args) => (symbol.builtin() is None && !keys.contains(symbol))
            || args_dangle(keys, args, first_lowered(symbol)),
        Expr::CallByPointer(sub_expr, args, _) => dangles(keys, *sub_expr) || values_dangle(
            keys,
            args,
            0,
        ),
        Expr::Cond { cond, pass, fail, .. } => dangles(keys, *cond) || dangles(keys, *pass)
            || dangles(keys, *fail),
        Expr::Switch { cond, branches, default_branch, .. } => dangles(keys, *cond) || dangles(
            keys,
            *default_branch,
        ) || branches_dangle(keys, branches, 0),
        Expr::Store(stores, ret) => dangles(bound_after(keys, stores@, stores@.len()), *ret)
            || stores_dangle(keys, stores, 0),
        Expr::Struct { fields, .. } => fields_dangle(keys, fields, 0),
        Expr::Array { elems, .. } => values_dangle(keys, elems, 0),
    }
}

/// Whether an argument from `from` on dangles.
pub open spec fn args_dangle(keys: Set<Symbol>, args: Vec<(Expr, Layout)>, from: nat) -> bool
    decreases args, 0nat, args@.len() - from,
{
    from < args@.len() && (dangles(keys, args@[from as int].0) || args_dangle(keys, args, from + 1))
}

/// Whether an expression of the list from `from` on dangles.
pub open spec fn values_dangle(keys: Set<Symbol>, exprs: Vec<Expr>, from: nat) -> bool
    decreases exprs, 0nat, exprs@.len() - from,
{
    from < exprs@.len() && (dangles(keys, exprs@[from as int]) || values_dangle(
        keys,
        exprs,
        from + 1,
    ))
}

/// Whether the arm of a case from `from` on dangles.
pub open spec fn branches_dangle(keys: Set<Symbol>, branches: Vec<(u64, Expr)>, from: nat) -> bool
    decreases branches, 0nat, branches@.len() - from,
{
    from < branches@.len() && (dangles(keys, branches@[from as int].1) || branches_dangle(
        keys,
        branches,
        from + 1,
    ))
}

/// Whether a field from `from` on dangles.
pub open spec fn fields_dangle(keys: Set<Symbol>, fields: Vec<(String, Expr)>, from: nat) -> bool
    decreases fields, 0nat, fields@.len() - from,
{
    from < fields@.len() && (dangles(keys, fields@[from as int].1) || fields_dangle(
        keys,
        fields,
        from + 1,
    ))
}

/// Whether the initializer of a binding from `from` on dangles, each under
/// the symbols bound before it.
pub open spec fn stores_dangle(
    keys: Set<Symbol>,
    stores: Vec<(Symbol, Layout, Expr)>,
    from: nat,
) -> bool
    decreases stores, 0nat, stores@.len() - from,
{
    from < stores@.len() && (dangles(bound_after(keys, stores@, from), stores@[from as int].2)
        || stores_dangle(keys, stores, from + 1))
}

proof fn lemma_args_witness(keys: Set<Symbol>, args: Vec<(Expr, Layout)>, from: nat) -> (i: int)
    requires
        args_dangle(keys, args, from),
    ensures
        from <= i < args@.len(),
        dangles(keys, args@[i].0),
    decreases args@.len() - from,
{
    if dangles(keys, args@[from as int].0) {
        from as int
    } else {
        lemma_args_witness(keys, args, from + 1)
    }
}

proof fn lemma_values_witness(keys: Set<Symbol>, exprs: Vec<Expr>, from: nat) -> (i: int)
    requires
        values_dangle(keys, exprs, from),
    ensures
        from <= i < exprs@.len(),
        dangles(keys, exprs@[i]),
    decreases exprs@.len() - from,
{
    if dangles(keys, exprs@[from as int]) {
        from as int
    } else {
        lemma_values_witness(keys, exprs, from + 1)
    }
}

proof fn lemma_branches_witness(keys: Set<Symbol>, branches: Vec<(u64, Expr)>, from: nat) -> (i:
    int)
    requires
        branches_dangle(keys, branches, from),
    ensures
        from <= i < branches@.len(),
        dangles(keys, branches@[i].1),
    decreases branches@.len() - from,
{
    if dangles(keys, branches@[from as int].1) {
        from as int
    } else {
        lemma_branches_witness(keys, branches, from + 1)
    }
}

proof fn lemma_fields_witness(keys: Set<Symbol>, fields: Vec<(String, Expr)>, from: nat) -> (i:
    int)
    requires
        fields_dangle(keys, fields, from),
    ensures
        from <= i < fields@.len(),
        dangles(keys, fields@[i].1),
    decreases fields@.len() - from,
{
    if dangles(keys, fields@[from as int].1) {
        from as int
    } else {
        lemma_fields_witness(keys, fields, from + 1)
    }
}

proof fn lemma_stores_witness(keys: Set<Symbol>, stores: Vec<(Symbol, Layout, Expr)>, from: nat)
    -> (i: int)
    requires
        stores_dangle(keys, stores, from),
    ensures
        from <= i < stores@.len(),
        dangles(bound_after(keys, stores@, i as nat), stores@[i].2),
    decreases stores@.len() - from,
{
    if dangles(bound_after(keys, stores@, from), stores@[from as int].2) {
        from as int
    } else {
        lemma_stores_witness(keys, stores, from + 1)
    }
}

/// A dangling initializer makes the bindings dangle.
pub proof fn lemma_stores_dangle_at(
    keys: Set<Symbol>,
    stores: Vec<(Symbol, Layout, Expr)>,
    from: nat,
    at: nat,
)
    requires
        from <= at < stores@.len(),
        dangles(bound_after(keys, stores@, at), stores@[at as int].2),
    ensures
        stores_dangle(keys, stores, from),
    decreases at - from,
{
    if from < at {
        lemma_stores_dangle_at(keys, stores, from + 1, at);
    }
}

proof fn lemma_args_dangle(
    cx: Context,
    scope: Map<Symbol, ScopeEntry>,
    st: Body,
    args: Vec<(Expr, Layout)>,
    from: nat,
    done: Seq<Value>,
    at: int,
)
    requires
        from <= at < args@.len(),
        dangles(scope.dom(), args@[at].0),
    ensures
        lower_args(cx, scope, st, args, from, done) is Err,
    decreases args, 0nat, args@.len() - from,
{
    vstd::std_specs::vec::axiom_vec_index_decreases(args, from as int);
    if from == at {
        law_dangling_reference_is_refused(cx, scope, st, args@[at].0);
    } else {
        match lower_expr(cx, scope, st, args@[from as int].0) {
            Err(e) => {},
            Ok((st1, value)) => {
                lemma_args_dangle(cx, scope, st1, args, from + 1, done.push(value), at);
            },
        }
    }
}

proof fn lemma_values_dangle(
    cx: Context,
    scope: Map<Symbol, ScopeEntry>,
    st: Body,
    exprs: Vec<Expr>,
    from: nat,
    done: Seq<Value>,
    at: int,
)
    requires
        from <= at < exprs@.len(),
        dangles(scope.dom(), exprs@[at]),
    ensures
        lower_values(cx, scope, st, exprs, from, done) is Err,
    decreases exprs, 0nat, exprs@.len() - from,
{
    vstd::std_specs::vec::axiom_vec_index_decreases(exprs, from as int);
    if from == at {
        law_dangling_reference_is_refused(cx, scope, st, exprs@[at]);
    } else {
        match lower_expr(cx, scope, st, exprs@[from as int]) {
            Err(e) => {},
            Ok((st1, value)) => {
                lemma_values_dangle(cx, scope, st1, exprs, from + 1, done.push(value), at);
            },
        }
    }
}

proof fn lemma_elems_dangle(
    cx: Context,
    scope: Map<Symbol, ScopeEntry>,
    st: Body,
    elems: Vec<Expr>,
    from: nat,
    ptr: Value,
    elem_bytes: u32,
    at: int,
)
    requires
        from <= at < elems@.len(),
        dangles(scope.dom(), elems@[at]),
    ensures
        lower_elems(cx, scope, st, elems, from, ptr, elem_bytes) is Err,
    decreases elems, 0nat, elems@.len() - from,
{
    vstd::std_specs::vec::axiom_vec_index_decreases(elems, from as int);
    if from == at {
        law_dangling_reference_is_refused(cx, scope, st, elems@[at]);
    } else {
        match lower_expr(cx, scope, st, elems@[from as int]) {
            Err(e) => {},
            Ok((st1, value)) => {
                lemma_elems_dangle(
                    cx,
                    scope,
                    st1.with_inst(
                        crate::ir::Inst::Store {
                            value,
                            addr: ptr,
                            offset: (elem_bytes * from) as i32,
                        },
                    ),
                    elems,
                    from + 1,
                    ptr,
                    elem_bytes,
                    at,
                );
            },
        }
    }
}

proof fn lemma_arm_dangles(
    cx: Context,
    scope: Map<Symbol, ScopeEntry>,
    st: Body,
    block: Block,
    expr: Expr,
    ret: Variable,
    ret_block: Block,
)
    requires
        dangles(scope.dom(), expr),
    ensures
        lower_arm(cx, scope, st, block, expr, ret, ret_block) is Err,
    decreases expr, 3nat, 0nat,
{
    law_dangling_reference_is_refused(cx, scope, st.at_block(block), expr);
}

proof fn lemma_branches_dangle(
    cx: Context,
    scope: Map<Symbol, ScopeEntry>,
    st: Body,
    branches: Vec<(u64, Expr)>,
    from: nat,
    first: Block,
    ret: Variable,
    ret_block: Block,
    at: int,
)
    requires
        from <= at < branches@.len(),
        dangles(scope.dom(), branches@[at].1),
    ensures
        lower_branches(cx, scope, st, branches, from, first, ret, ret_block) is Err,
    decreases branches, 0nat, branches@.len() - from,
{
    vstd::std_specs::vec::axiom_vec_index_decreases(branches, from as int);
    let block = Block { index: (first.index + from) as usize };
    if from == at {
        lemma_arm_dangles(cx, scope, st, block, branches@[at].1, ret, ret_block);
    } else {
        match lower_arm(cx, scope, st, block, branches@[from as int].1, ret, ret_block) {
            Err(e) => {},
            Ok(st1) => {
                lemma_branches_dangle(cx, scope, st1, branches, from + 1, first, ret, ret_block, at);
            },
        }
    }
}

proof fn lemma_fields_dangle(
    cx: Context,
    scope: Map<Symbol, ScopeEntry>,
    st: Body,
    fields: Vec<(String, Expr)>,
    layout: Layout,
    order: Seq<usize>,
    from: nat,
    slot: StackSlot,
    offset: nat,
    at: int,
)
    requires
        from <= at < order.len(),
        forall|k: int| 0 <= k < order.len() ==> (#[trigger] order[k]) < fields@.len(),
        dangles(scope.dom(), fields@[order[at] as int].1),
    ensures
        lower_fields(cx, scope, st, fields, layout, order, from, slot, offset) is Err,
    decreases fields, 0nat, order.len() - from,
{
    assert(order[from as int] < fields@.len());
    vstd::std_specs::vec::axiom_vec_index_decreases(fields, order[from as int] as int);
    let (name, init) = fields@[order[from as int] as int];
    if from == at {
        law_dangling_reference_is_refused(cx, scope, st, init);
    } else {
        match lower_expr(cx, scope, st, init) {
            Err(e) => {},
            Ok((st1, value)) => match crate::lowered::field_layout(
                layout,
                crate::fields::name_bytes(name),
            ) {
                None => {},
                Some(field) => match crate::lowered::slot_size(cx, field) {
                    None => {},
                    Some(size) => {
                        lemma_fields_dangle(
                            cx,
                            scope,
                            st1.with_inst(
                                crate::ir::Inst::StackStore { value, slot, offset: offset as i32 },
                            ),
                            fields,
                            layout,
                            order,
                            from + 1,
                            slot,
                            offset + size as nat,
                            at,
                        );
                    },
                },
            },
        }
    }
}

/// The symbols of the scope in which the rest of a sequence of bindings is
/// lowered are those bound before it.
proof fn lemma_stores_dangle(
    cx: Context,
    scope: Map<Symbol, ScopeEntry>,
    st: Body,
    stores: Vec<(Symbol, Layout, Expr)>,
    from: nat,
    keys: Set<Symbol>,
    at: int,
)
    requires
        from <= at < stores@.len(),
        scope.dom() == bound_after(keys, stores@, from),
        dangles(bound_after(keys, stores@, at as nat), stores@[at].2),
    ensures
        lower_stores(cx, scope, st, stores, from) is Err,
    decreases stores, 0nat, stores@.len() - from,
{
    vstd::std_specs::vec::axiom_vec_index_decreases(stores, from as int);
    let (name, layout, init) = stores@[from as int];
    if from == at {
        law_dangling_reference_is_refused(cx, scope, st, init);
    } else {
        match lower_expr(cx, scope, st, init) {
            Err(e) => {},
            Ok((st1, value)) => match crate::lowered::slot_size(cx, layout) {
                None => {},
                Some(size) => {
                    let slot = st1.next_slot();
                    let inner = scope.insert(
                        name,
                        ScopeEntry::Stack { expr_type: layout.machine_type(cx.cfg), slot },
                    );
                    assert(inner.dom() =~= bound_after(keys, stores@, from + 1));
                    lemma_stores_dangle(
                        cx,
                        inner,
                        st1.with_slot(size).with_inst(
                            crate::ir::Inst::StackStore { value, slot, offset: 0 },
                        ),
                        stores,
                        from + 1,
                        keys,
                        at,
                    );
                },
            },
        }
    }
}

/// The scope behind the bindings of a sequence binds what was bound before
/// the sequence and the names of the sequence.
proof fn lemma_stores_bind(
    cx: Context,
    scope: Map<Symbol, ScopeEntry>,
    st: Body,
    stores: Vec<(Symbol, Layout, Expr)>,
    from: nat,
    keys: Set<Symbol>,
)
    requires
        from <= stores@.len(),
        scope.dom() == bound_after(keys, stores@, from),
    ensures
        lower_stores(cx, scope, st, stores, from) matches Ok((st2, inner)) ==> inner.dom()
            == bound_after(keys, stores@, stores@.len()),
    decreases stores, 0nat, stores@.len() - from,
{
    if from < stores@.len() {
        let (name, layout, init) = stores@[from as int];
        match lower_expr(cx, scope, st, init) {
            Err(e) => {},
            Ok((st1, value)) => match crate::lowered::slot_size(cx, layout) {
                None => {},
                Some(size) => {
                    let slot = st1.next_slot();
                    let inner = scope.insert(
                        name,
                        ScopeEntry::Stack { expr_type: layout.machine_type(cx.cfg), slot },
                    );
                    assert(inner.dom() =~= bound_after(keys, stores@, from + 1));
                    lemma_stores_bind(
                        cx,
                        inner,
                        st1.with_slot(size).with_inst(
                            crate::ir::Inst::StackStore { value, slot, offset: 0 },
                        ),
                        stores,
                        from + 1,
                        keys,
                    );
                },
            },
        }
    }
}

proof fn lemma_call_dangles(
    cx: Context,
    scope: Map<Symbol, ScopeEntry>,
    st: Body,
    symbol: Symbol,
    args: Vec<(Expr, Layout)>,
    at: int,
)
    requires
        (symbol.builtin() is None && !scope.dom().contains(symbol)) || (first_lowered(symbol) <= at
            < args@.len() && dangles(scope.dom(), args@[at].0)),
    ensures
        lower_call(cx, scope, st, symbol, args) is Err,
    decreases args, 2nat, 0nat,
{
    match symbol.builtin() {
        None => {
            if scope.contains_key(symbol) {
                match scope[symbol] {
                    ScopeEntry::Func { func_id, sig } => {
                        lemma_args_dangle(
                            cx,
                            scope,
                            st.with_func_ref(func_id),
                            args,
                            0,
                            Seq::empty(),
                            at,
                        );
                    },
                    _ => {},
                }
            }
        },
        Some(op) => {
            if args@.len() == op.arity() {
                lemma_builtin_dangles(cx, scope, st, symbol, op, args, at);
            }
        },
    }
}

proof fn lemma_builtin_dangles(
    cx: Context,
    scope: Map<Symbol, ScopeEntry>,
    st: Body,
    symbol: Symbol,
    op: BuiltinOp,
    args: Vec<(Expr, Layout)>,
    at: int,
)
    requires
        args@.len() == op.arity(),
        (if op == BuiltinOp::ListSet {
            1int
        } else {
            0int
        }) <= at < args@.len(),
        dangles(scope.dom(), args@[at].0),
    ensures
        lower_builtin(cx, scope, st, symbol, op, args) is Err,
    decreases args, 1nat, 0nat,
{
    vstd::std_specs::vec::axiom_vec_index_decreases(args, 0);
    match op {
        BuiltinOp::IntNeg => {
            law_dangling_reference_is_refused(cx, scope, st, args@[0].0);
        },
        BuiltinOp::ListSet => {
            match crate::lowered::elem_layout_of(args@[0].1) {
                None => {},
                Some(elem_layout) => match crate::lowered::slot_size(cx, elem_layout) {
                    None => {},
                    Some(elem_bytes) => {
                        let size = (elem_bytes * crate::lowered::LIST_SET_CAPACITY + 1) as i64;
                        let st1 = crate::lowered::with_malloc(cx, st, size).0;
                        lemma_args_dangle(cx, scope, st1, args, 1, Seq::empty(), at);
                    },
                },
            }
        },
        BuiltinOp::ListSetInPlace => {
            if at == 0 {
                law_dangling_reference_is_refused(cx, scope, st, args@[0].0);
            } else {
                match lower_expr(cx, scope, st, args@[0].0) {
                    Err(e) => {},
                    Ok((st1, list_val)) => {
                        lemma_args_dangle(cx, scope, st1, args, 1, Seq::empty(), at);
                    },
                }
            }
        },
        _ => {
            lemma_args_dangle(cx, scope, st, args, 0, Seq::empty(), at);
        },
    }
}

/// An expression that refers to a symbol that is not bound where the
/// reference stands cannot be lowered.
pub proof fn law_dangling_reference_is_refused(
    cx: Context,
    scope: Map<Symbol, ScopeEntry>,
    st: Body,
    expr: Expr,
)
    requires
        dangles(scope.dom(), expr),
    ensures
        lower_expr(cx, scope, st, expr) is Err,
    decreases expr, 2nat, 0nat,
{
    let keys = scope.dom();
    match expr {
        Expr::CallByName(symbol, args) => {
            assert(decreases_to!(expr => expr->CallByName_1));
            if symbol.builtin() is None && !keys.contains(symbol) {
                lemma_call_dangles(cx, scope, st, symbol, args, 0);
            } else {
                let i = lemma_args_witness(keys, args, first_lowered(symbol));
                lemma_call_dangles(cx, scope, st, symbol, args, i);
            }
        },
        Expr::CallByPointer(sub_expr, args, layout) => {
            assert(decreases_to!(expr => expr->CallByPointer_1));
            if values_dangle(keys, args, 0) {
                let i = lemma_values_witness(keys, args, 0);
                lemma_values_dangle(cx, scope, st, args, 0, Seq::empty(), i);
            } else {
                match lower_values(cx, scope, st, args, 0, Seq::empty()) {
                    Err(e) => {},
                    Ok((st1, vals)) => {
                        law_dangling_reference_is_refused(cx, scope, st1, *sub_expr);
                    },
                }
            }
        },
        Expr::Cond { cond, cond_layout, pass, fail, ret_layout } => {
            let ret_type = ret_layout.machine_type(cx.cfg);
            let ret_block = st.next_block();
            let ret = st.with_block().next_variable();
            let st2 = st.with_block().with_variable(ret_type);
            if dangles(keys, *cond) {
                law_dangling_reference_is_refused(cx, scope, st2, *cond);
            } else {
                match lower_expr(cx, scope, st2, *cond) {
                    Err(e) => {},
                    Ok((st3, c)) => {
                        let pass_block = st3.next_block();
                        let fail_block = st3.with_block().next_block();
                        let st5 = st3.with_block().with_block().with_inst(
                            crate::ir::Inst::Brnz { cond: c, target: pass_block },
                        ).with_inst(crate::ir::Inst::Jump { target: fail_block });
                        if dangles(keys, *pass) {
                            lemma_arm_dangles(cx, scope, st5, pass_block, *pass, ret, ret_block);
                        } else {
                            match lower_arm(cx, scope, st5, pass_block, *pass, ret, ret_block) {
                                Err(e) => {},
                                Ok(st6) => {
                                    lemma_arm_dangles(
                                        cx,
                                        scope,
                                        st6,
                                        fail_block,
                                        *fail,
                                        ret,
                                        ret_block,
                                    );
                                },
                            }
                        }
                    },
                }
            }
        },
        Expr::Switch { cond, cond_layout, branches, default_branch, ret_layout } => {
            assert(decreases_to!(expr => expr->Switch_branches));
            let ret_type = ret_layout.machine_type(cx.cfg);
            let ret = st.next_variable();
            let st1 = st.with_variable(ret_type);
            let default_block = st1.next_block();
            let ret_block = st1.with_block().next_block();
            let st2 = st1.with_block().with_block();
            let first = st2.next_block();
            let st3 = crate::lowered::with_blocks(st2, branches@.len());
            if dangles(keys, *cond) {
                law_dangling_reference_is_refused(cx, scope, st3, *cond);
            } else {
                match lower_expr(cx, scope, st3, *cond) {
                    Err(e) => {},
                    Ok((st4, c)) => {
                        let table = crate::lowered::case_table(branches@, first);
                        let st5 = st4.with_cases(table).with_inst(
                            crate::ir::Inst::Switch {
                                cond: c,
                                cases: st4.next_cases(table),
                                default: default_block,
                            },
                        );
                        if branches_dangle(keys, branches, 0) {
                            let i = lemma_branches_witness(keys, branches, 0);
                            lemma_branches_dangle(
                                cx,
                                scope,
                                st5,
                                branches,
                                0,
                                first,
                                ret,
                                ret_block,
                                i,
                            );
                        } else {
                            match lower_branches(cx, scope, st5, branches, 0, first, ret, ret_block) {
                                Err(e) => {},
                                Ok(st6) => {
                                    lemma_arm_dangles(
                                        cx,
                                        scope,
                                        st6,
                                        default_block,
                                        *default_branch,
                                        ret,
                                        ret_block,
                                    );
                                },
                            }
                        }
                    },
                }
            }
        },
        Expr::Store(stores, ret) => {
            assert(decreases_to!(expr => expr->Store_0));
            if stores_dangle(keys, stores, 0) {
                let i = lemma_stores_witness(keys, stores, 0);
                lemma_stores_dangle(cx, scope, st, stores, 0, keys, i);
            } else {
                lemma_stores_bind(cx, scope, st, stores, 0, keys);
                match lower_stores(cx, scope, st, stores, 0) {
                    Err(e) => {},
                    Ok((st1, inner)) => {
                        law_dangling_reference_is_refused(cx, inner, st1, *ret);
                    },
                }
            }
        },
        Expr::Struct { layout, fields } => {
            assert(decreases_to!(expr => expr->Struct_fields));
            let i = lemma_fields_witness(keys, fields, 0);
            let names = field_names(fields@);
            let order = order_by_name(names, fields@.len());
            vstd::std_specs::vec::axiom_spec_len(&fields);
            lemma_order_by_name(names, fields@.len());
            assert(order.contains(i as usize));
            let at = choose|at: int| 0 <= at < order.len() && order[at] == i as usize;
            assert forall|k: int| 0 <= k < order.len() implies (#[trigger] order[k])
                < fields@.len() by {
                assert(order.contains(order[k]));
            }
            match crate::lowered::slot_size(cx, layout) {
                None => {},
                Some(size) => {
                    lemma_fields_dangle(
                        cx,
                        scope,
                        st.with_slot(size),
                        fields,
                        layout,
                        order,
                        0,
                        st.next_slot(),
                        0,
                        at,
                    );
                },
            }
        },
        Expr::Array { elem_layout, elems } => {
            assert(decreases_to!(expr => expr->Array_elems));
            let i = lemma_values_witness(keys, elems, 0);
            if elems@.len() != 0 {
                match crate::lowered::slot_size(cx, elem_layout) {
                    None => {},
                    Some(elem_bytes) => {
                        if elem_bytes * elems@.len() + 1 <= crate::lowered::MAX_OFFSET {
                            let size = (elem_bytes * elems@.len() + 1) as i64;
                            let (st1, ptr) = crate::lowered::with_malloc(cx, st, size);
                            lemma_elems_dangle(cx, scope, st1, elems, 0, ptr, elem_bytes, i);
                        }
                    },
                }
            }
        },
        _ => {},
    }
}

/// A binding cannot be referred to before it is made, nor while it is made:
/// a sequence of bindings in which the initializer of binding `at` refers to
/// a symbol that neither the surroundings nor an earlier binding of the
/// sequence binds cannot be lowered, whether or not the binding itself or a
/// later one binds the symbol.
pub proof fn law_forward_reference_is_refused(
    cx: Context,
    scope: Map<Symbol, ScopeEntry>,
    st: Body,
    stores: Vec<(Symbol, Layout, Expr)>,
    ret: Expr,
    at: nat,
)
    requires
        at < stores@.len(),
        dangles(bound_after(scope.dom(), stores@, at), stores@[at as int].2),
    ensures
        lower_expr(cx, scope, st, Expr::Store(stores, Box::new(ret))) is Err,
{
    lemma_stores_dangle_at(scope.dom(), stores, 0, at);
    law_dangling_reference_is_refused(cx, scope, st, Expr::Store(stores, Box::new(ret)));
}

} // verus!
