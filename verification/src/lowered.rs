//! What lowering makes of an expression: the instructions it emits, in order,
//! and the value that holds the result.
//!
//! The functions of this module are mathematical. They say, for a function
//! body built so far and an expression, which body results from lowering the
//! expression and which value holds what the expression evaluates to, or which
//! error ends the lowering. The executable lowering is proved to compute
//! exactly this.

use crate::builder::Body;
use crate::expr::Expr;
use crate::fields::{name_bytes, order_by_name};
use crate::ir::{BinaryOp, Block, FuncId, Inst, StackSlot, Type, Value, Variable};
use crate::layout::{Builtin, Layout, signature_of, TargetConfig};
use crate::scope::ScopeEntry;
use crate::symbol::{BuiltinOp, Symbol};
use vstd::prelude::*;

verus! {

/// How two shapes fail to fit.
#[derive(Clone, Copy, Debug, PartialEq, Eq, Structural)]
pub enum Mismatch {
    /// The condition of a two-way conditional is not a boolean.
    ConditionNotBool,
    /// A built-in operation got another number of arguments than it takes.
    Arity(Symbol),
    /// The symbol is bound, but not to a function.
    NotAFunction(Symbol),
    /// The function does not return exactly one value.
    ResultCount(Symbol),
    /// The first argument of a list operation does not have a list layout.
    NotAList(Symbol),
    /// The layout of a call through an address is not that of a function
    /// pointer.
    NotAFunctionPointer,
    /// The layout of a record is not that of a record, or lacks a field.
    RecordLayout,
    /// Two cases of a switch have the same value.
    DuplicateCase(u64),
}

/// What the lowering does not handle.
#[derive(Clone, Copy, Debug, PartialEq, Eq, Structural)]
pub enum Unsupported {
    EmptyString,
    EmptyArray,
    /// A function was loaded as a value; that takes a function pointer.
    FunctionAsValue(Symbol),
    /// A size or an offset does not fit the 32 bits that the target gives it.
    TooLarge,
}

/// Why an expression cannot be lowered.
#[derive(Clone, Copy, Debug, PartialEq, Eq, Structural)]
pub enum LowerError {
    /// A symbol that is loaded, called or pointed to is not in scope.
    UnresolvedSymbol(Symbol),
    ShapeMismatch(Mismatch),
    Unsupported(Unsupported),
    /// A function of that name was declared before.
    Collision(Symbol),
}

/// What the lowering reads of its surroundings.
#[derive(Clone, Copy, Debug, PartialEq, Eq, Structural)]
pub struct Context {
    pub cfg: TargetConfig,
    /// The allocation primitive: takes a number of bytes, returns an address.
    pub malloc: FuncId,
}

/// Whether the executable lowering came to `res`, leaving the body `fin`,
/// exactly where the mathematical lowering comes to `model`.
pub open spec fn lowered_to(
    res: Result<Value, LowerError>,
    model: Result<(Body, Value), LowerError>,
    fin: Body,
) -> bool {
    match res {
        Ok(v) => model == Ok::<(Body, Value), LowerError>((fin, v)),
        Err(e) => model == Err::<(Body, Value), LowerError>(e),
    }
}

/// The largest size and offset that the lowering works with.
pub const MAX_OFFSET: u32 = 0x7fff_ffff;

/// The size of a frame slot for a value of `layout`.
pub open spec fn slot_size(cx: Context, layout: Layout) -> Option<u32> {
    let n = layout.size(cx.cfg.pointer_size());
    if n <= u32::MAX {
        Some(n as u32)
    } else {
        None
    }
}

/// The body after a value of type `ty` was defined by `make`, with that value.
pub open spec fn def(st: Body, ty: Type, make: spec_fn(Value) -> Inst) -> (Body, Value) {
    (st.with_def(ty, make), st.next_value())
}

/// The body after a call of the allocation primitive for `size` bytes was
/// emitted, and the value that holds the address.
pub open spec fn with_malloc(cx: Context, st: Body, size: i64) -> (Body, Value) {
    let ptr_ty = cx.cfg.pointer_ty();
    let func = st.next_func_ref();
    let st1 = st.with_func_ref(cx.malloc);
    let (st2, size_arg) = def(st1, ptr_ty, |dst: Value| Inst::Iconst { dst, ty: ptr_ty, imm: size });
    let args = st2.next_values(seq![size_arg]);
    let st3 = st2.with_values(seq![size_arg]);
    def(st3, ptr_ty, |dst: Value| Inst::Call { dst, func, args })
}

/// The body after a store of `elem` at `index` of the list at `list_ptr` was
/// emitted; the list itself is the result.
pub open spec fn with_list_set(
    cx: Context,
    st: Body,
    list_ptr: Value,
    elem_index: Value,
    elem: Value,
    elem_layout: Layout,
) -> Result<(Body, Value), LowerError> {
    match slot_size(cx, elem_layout) {
        None => Err(LowerError::Unsupported(Unsupported::TooLarge)),
        Some(elem_bytes) => {
            let (st1, elem_size) = def(
                st,
                Type::I64,
                |dst: Value| Inst::Iconst { dst, ty: Type::I64, imm: elem_bytes as i64 },
            );
            let (st2, offset) = def(
                st1,
                Type::I64,
                |dst: Value|
                    Inst::Binary {
                        dst,
                        op: BinaryOp::Imul,
                        ty: Type::I64,
                        lhs: elem_index,
                        rhs: elem_size,
                    },
            );
            Ok(
                (
                    st2.with_inst(
                        Inst::StoreComplex { value: elem, base: list_ptr, index: offset, offset: 0 },
                    ),
                    list_ptr,
                ),
            )
        },
    }
}

/// The instruction of a built-in operation on two values, and the type of
/// what it yields.
pub open spec fn binary_of(op: BuiltinOp, arg_ty: Type) -> Option<(BinaryOp, Type, Type)> {
    match op {
        BuiltinOp::IntAdd => Some((BinaryOp::Iadd, arg_ty, arg_ty)),
        BuiltinOp::IntSub => Some((BinaryOp::Isub, arg_ty, arg_ty)),
        BuiltinOp::IntMul => Some((BinaryOp::Imul, arg_ty, arg_ty)),
        BuiltinOp::FloatAdd => Some((BinaryOp::Fadd, Type::F64, Type::F64)),
        BuiltinOp::FloatSub => Some((BinaryOp::Fsub, Type::F64, Type::F64)),
        BuiltinOp::IntEq64 => Some((BinaryOp::IcmpEq, Type::I64, Type::B1)),
        BuiltinOp::IntEq8 => Some((BinaryOp::IcmpEq, Type::I8, Type::B1)),
        BuiltinOp::IntEq1 => Some((BinaryOp::IcmpEq, Type::B1, Type::B1)),
        BuiltinOp::FloatEq => Some((BinaryOp::FcmpEq, Type::F64, Type::B1)),
        _ => None,
    }
}

/// The layout of the elements of a list layout.
pub open spec fn elem_layout_of(layout: Layout) -> Option<Layout> {
    match layout {
        Layout::Builtin(Builtin::List(elem)) => Some(*elem),
        _ => None,
    }
}

/// The layout of the field `name` in the fields of a record layout: that of
/// the first field of that name.
pub open spec fn field_layout_from(fields: Seq<(String, Layout)>, name: Seq<u8>, from: int) -> Option<
    Layout,
>
    decreases fields.len() - from,
{
    if from < 0 || from >= fields.len() {
        None
    } else if name_bytes(fields[from].0) == name {
        Some(fields[from].1)
    } else {
        field_layout_from(fields, name, from + 1)
    }
}

/// The layout of the field `name` of a record of `layout`.
pub open spec fn field_layout(layout: Layout, name: Seq<u8>) -> Option<Layout> {
    match layout {
        Layout::Struct(fields) => field_layout_from(fields@, name, 0),
        _ => None,
    }
}

/// The names of the fields of a record literal.
pub open spec fn field_names(fields: Seq<(String, Expr)>) -> Seq<Seq<u8>> {
    Seq::new(fields.len(), |i: int| name_bytes(fields[i].0))
}

/// Whether `key` is among the first `n` cases.
pub open spec fn has_case(branches: Seq<(u64, Expr)>, n: int, key: u64) -> bool {
    exists|j: int| 0 <= j < n && j < branches.len() && (#[trigger] branches[j]).0 == key
}

/// The first case that repeats an earlier one, from `from` on.
pub open spec fn duplicate_case(branches: Seq<(u64, Expr)>, from: int) -> Option<u64>
    decreases branches.len() - from,
{
    if from < 0 || from >= branches.len() {
        None
    } else if has_case(branches, from, branches[from].0) {
        Some(branches[from].0)
    } else {
        duplicate_case(branches, from + 1)
    }
}

/// The cases of a switch with their blocks: case `i` goes to the block
/// `first + i`.
pub open spec fn case_table(branches: Seq<(u64, Expr)>, first: Block) -> Seq<(u64, Block)> {
    Seq::new(
        branches.len(),
        |i: int| (branches[i].0, Block { index: (first.index + i) as usize }),
    )
}

/// The body after `n` blocks were created.
pub open spec fn with_blocks(st: Body, n: nat) -> Body
    decreases n,
{
    if n == 0 {
        st
    } else {
        with_blocks(st, (n - 1) as nat).with_block()
    }
}

/// What lowering `expr` makes of the body `st`, under the bindings `scope`.
pub open spec fn lower_expr(cx: Context, scope: Map<Symbol, ScopeEntry>, st: Body, expr: Expr)
    -> Result<(Body, Value), LowerError>
    decreases expr, 0nat, 0nat,
{
    match expr {
        Expr::Int(num) => Ok(
            def(st, Type::I64, |dst: Value| Inst::Iconst { dst, ty: Type::I64, imm: num }),
        ),
        Expr::Float(bits) => Ok(def(st, Type::F64, |dst: Value| Inst::F64const { dst, bits })),
        Expr::Bool(flag) => Ok(def(st, Type::B1, |dst: Value| Inst::Bconst { dst, flag })),
        Expr::Byte(val) => Ok(
            def(st, Type::I8, |dst: Value| Inst::Iconst { dst, ty: Type::I8, imm: val as i64 }),
        ),
        Expr::Cond { cond, cond_layout, pass, fail, ret_layout } => {
            let ret_type = ret_layout.machine_type(cx.cfg);
            let ret_block = st.next_block();
            let st1 = st.with_block();
            let ret = st1.next_variable();
            let st2 = st1.with_variable(ret_type);
            match lower_expr(cx, scope, st2, *cond) {
                Err(e) => Err(e),
                Ok((st3, c)) => {
                    let pass_block = st3.next_block();
                    let fail_block = st3.with_block().next_block();
                    let st4 = st3.with_block().with_block();
                    if !(cond_layout is Builtin && cond_layout->Builtin_0 is Bool) {
                        Err(LowerError::ShapeMismatch(Mismatch::ConditionNotBool))
                    } else {
                        let st5 = st4.with_inst(Inst::Brnz { cond: c, target: pass_block }).with_inst(
                            Inst::Jump { target: fail_block },
                        );
                        match lower_arm(cx, scope, st5, pass_block, *pass, ret, ret_block) {
                            Err(e) => Err(e),
                            Ok(st6) => match lower_arm(
                                cx,
                                scope,
                                st6,
                                fail_block,
                                *fail,
                                ret,
                                ret_block,
                            ) {
                                Err(e) => Err(e),
                                Ok(st7) => Ok(
                                    def(
                                        st7.at_block(ret_block),
                                        ret_type,
                                        |dst: Value| Inst::UseVar { dst, var: ret },
                                    ),
                                ),
                            },
                        }
                    }
                },
            }
        },
        Expr::Switch { cond, cond_layout, branches, default_branch, ret_layout } => {
            let ret_type = ret_layout.machine_type(cx.cfg);
            let ret = st.next_variable();
            let st1 = st.with_variable(ret_type);
            let default_block = st1.next_block();
            let ret_block = st1.with_block().next_block();
            let st2 = st1.with_block().with_block();
            let first = st2.next_block();
            match duplicate_case(branches@, 0) {
                Some(key) => Err(LowerError::ShapeMismatch(Mismatch::DuplicateCase(key))),
                None => {
                    let st3 = with_blocks(st2, branches@.len());
                    match lower_expr(cx, scope, st3, *cond) {
                        Err(e) => Err(e),
                        Ok((st4, c)) => {
                            let table = case_table(branches@, first);
                            let cases = st4.next_cases(table);
                            let st5 = st4.with_cases(table).with_inst(
                                Inst::Switch { cond: c, cases, default: default_block },
                            );
                            match lower_branches(cx, scope, st5, branches, 0, first, ret, ret_block) {
                                Err(e) => Err(e),
                                Ok(st6) => match lower_arm(
                                    cx,
                                    scope,
                                    st6,
                                    default_block,
                                    *default_branch,
                                    ret,
                                    ret_block,
                                ) {
                                    Err(e) => Err(e),
                                    Ok(st7) => Ok(
                                        def(
                                            st7.at_block(ret_block),
                                            ret_type,
                                            |dst: Value| Inst::UseVar { dst, var: ret },
                                        ),
                                    ),
                                },
                            }
                        },
                    }
                },
            }
        },
        Expr::Store(stores, ret) => match lower_stores(cx, scope, st, stores, 0) {
            Err(e) => Err(e),
            Ok((st1, inner)) => lower_expr(cx, inner, st1, *ret),
        },
        Expr::CallByName(symbol, args) => lower_call(cx, scope, st, symbol, args),
        Expr::FunctionPointer(name) => {
            if !scope.contains_key(name) {
                Err(LowerError::UnresolvedSymbol(name))
            } else {
                match scope[name] {
                    ScopeEntry::Func { func_id, .. } => {
                        let func = st.next_func_ref();
                        let ty = cx.cfg.pointer_ty();
                        Ok(
                            def(
                                st.with_func_ref(func_id),
                                ty,
                                |dst: Value| Inst::FuncAddr { dst, ty, func },
                            ),
                        )
                    },
                    _ => Err(LowerError::ShapeMismatch(Mismatch::NotAFunction(name))),
                }
            }
        },
        Expr::CallByPointer(sub_expr, args, layout) => match lower_values(
            cx,
            scope,
            st,
            args,
            0,
            Seq::empty(),
        ) {
            Err(e) => Err(e),
            Ok((st1, arg_vals)) => match signature_of(layout, cx.cfg) {
                None => Err(LowerError::ShapeMismatch(Mismatch::NotAFunctionPointer)),
                Some(sig) => match lower_expr(cx, scope, st1, *sub_expr) {
                    Err(e) => Err(e),
                    Ok((st2, callee)) => {
                        let sig_ref = st2.next_sig_ref();
                        let st3 = st2.with_sig_ref(sig);
                        let range = st3.next_values(arg_vals);
                        Ok(
                            def(
                                st3.with_values(arg_vals),
                                sig.returns[0],
                                |dst: Value|
                                    Inst::CallIndirect { dst, sig: sig_ref, callee, args: range },
                            ),
                        )
                    },
                },
            },
        },
        Expr::Load(name) => {
            if !scope.contains_key(name) {
                Err(LowerError::UnresolvedSymbol(name))
            } else {
                match scope[name] {
                    ScopeEntry::Stack { expr_type, slot } => Ok(
                        def(
                            st,
                            expr_type,
                            |dst: Value| Inst::StackLoad { dst, ty: expr_type, slot, offset: 0 },
                        ),
                    ),
                    ScopeEntry::Arg { param, .. } => Ok((st, param)),
                    ScopeEntry::Heap { expr_type, ptr } => Ok(
                        def(
                            st,
                            expr_type,
                            |dst: Value| Inst::Load { dst, ty: expr_type, addr: ptr, offset: 0 },
                        ),
                    ),
                    ScopeEntry::Func { .. } => Err(
                        LowerError::Unsupported(Unsupported::FunctionAsValue(name)),
                    ),
                }
            }
        },
        Expr::Struct { layout, fields } => match slot_size(cx, layout) {
            None => Err(LowerError::Unsupported(Unsupported::TooLarge)),
            Some(size) => {
                let slot = st.next_slot();
                let order = order_by_name(field_names(fields@), fields@.len());
                match lower_fields(cx, scope, st.with_slot(size), fields, layout, order, 0, slot, 0) {
                    Err(e) => Err(e),
                    Ok(st1) => {
                        let ty = layout.machine_type(cx.cfg);
                        Ok(def(st1, ty, |dst: Value| Inst::StackAddr { dst, ty, slot, offset: 0 }))
                    },
                }
            },
        },
        Expr::Str(text) => {
            let bytes = name_bytes(text);
            if bytes.len() == 0 {
                Err(LowerError::Unsupported(Unsupported::EmptyString))
            } else if bytes.len() + 1 > MAX_OFFSET {
                Err(LowerError::Unsupported(Unsupported::TooLarge))
            } else {
                let (st1, ptr) = with_malloc(cx, st, (bytes.len() + 1) as i64);
                let st2 = with_bytes(st1, bytes, 0, ptr);
                Ok((with_terminator(st2, ptr, bytes.len() as i32), ptr))
            }
        },
        Expr::Array { elem_layout, elems } => {
            if elems@.len() == 0 {
                Err(LowerError::Unsupported(Unsupported::EmptyArray))
            } else {
                match slot_size(cx, elem_layout) {
                    None => Err(LowerError::Unsupported(Unsupported::TooLarge)),
                    Some(elem_bytes) => {
                        if elem_bytes * elems@.len() + 1 > MAX_OFFSET {
                            Err(LowerError::Unsupported(Unsupported::TooLarge))
                        } else {
                            let (st1, ptr) = with_malloc(
                                cx,
                                st,
                                (elem_bytes * elems@.len() + 1) as i64,
                            );
                            match lower_elems(cx, scope, st1, elems, 0, ptr, elem_bytes) {
                                Err(e) => Err(e),
                                Ok(st2) => Ok(
                                    (
                                        with_terminator(
                                            st2,
                                            ptr,
                                            (elem_bytes * elems@.len()) as i32,
                                        ),
                                        ptr,
                                    ),
                                ),
                            }
                        }
                    },
                }
            }
        },
    }
}

/// The body after the sentinel byte that ends a string or an array was
/// stored at `offset`.
pub open spec fn with_terminator(st: Body, ptr: Value, offset: i32) -> Body {
    let (st1, nul) = def(st, Type::I8, |dst: Value| Inst::Iconst { dst, ty: Type::I8, imm: 0 });
    st1.with_inst(Inst::Store { value: nul, addr: ptr, offset })
}

/// The body after the bytes of a string from `from` on were stored, each at
/// its index.
pub open spec fn with_bytes(st: Body, bytes: Seq<u8>, from: int, ptr: Value) -> Body
    decreases bytes.len() - from,
{
    if from < 0 || from >= bytes.len() {
        st
    } else {
        let (st1, val) = def(
            st,
            Type::I8,
            |dst: Value| Inst::Iconst { dst, ty: Type::I8, imm: bytes[from] as i64 },
        );
        with_bytes(
            st1.with_inst(Inst::Store { value: val, addr: ptr, offset: from as i32 }),
            bytes,
            from + 1,
            ptr,
        )
    }
}

/// What lowering one arm of a conditional or a switch makes of the body: the
/// arm gets the block `block`, assigns its value to `ret` and goes to
/// `ret_block`.
pub open spec fn lower_arm(
    cx: Context,
    scope: Map<Symbol, ScopeEntry>,
    st: Body,
    block: Block,
    expr: Expr,
    ret: Variable,
    ret_block: Block,
) -> Result<Body, LowerError>
    decreases expr, 1nat, 0nat,
{
    match lower_expr(cx, scope, st.at_block(block), expr) {
        Err(e) => Err(e),
        Ok((st1, value)) => Ok(
            st1.with_inst(Inst::DefVar { var: ret, value }).with_inst(
                Inst::Jump { target: ret_block },
            ),
        ),
    }
}

/// What lowering the cases of a switch from `from` on makes of the body.
pub open spec fn lower_branches(
    cx: Context,
    scope: Map<Symbol, ScopeEntry>,
    st: Body,
    branches: Vec<(u64, Expr)>,
    from: nat,
    first: Block,
    ret: Variable,
    ret_block: Block,
) -> Result<Body, LowerError>
    decreases branches, 0nat, branches@.len() - from,
{
    if from >= branches@.len() {
        Ok(st)
    } else {
        match lower_arm(
            cx,
            scope,
            st,
            Block { index: (first.index + from) as usize },
            branches@[from as int].1,
            ret,
            ret_block,
        ) {
            Err(e) => Err(e),
            Ok(st1) => lower_branches(cx, scope, st1, branches, from + 1, first, ret, ret_block),
        }
    }
}

/// What lowering the bindings of a sequence from `from` on makes of the body
/// and of the scope: each initializer is lowered before its own binding
/// enters the scope.
pub open spec fn lower_stores(
    cx: Context,
    scope: Map<Symbol, ScopeEntry>,
    st: Body,
    stores: Vec<(Symbol, Layout, Expr)>,
    from: nat,
) -> Result<(Body, Map<Symbol, ScopeEntry>), LowerError>
    decreases stores, 0nat, stores@.len() - from,
{
    if from >= stores@.len() {
        Ok((st, scope))
    } else {
        let (name, layout, init) = stores@[from as int];
        match lower_expr(cx, scope, st, init) {
            Err(e) => Err(e),
            Ok((st1, value)) => match slot_size(cx, layout) {
                None => Err(LowerError::Unsupported(Unsupported::TooLarge)),
                Some(size) => {
                    let expr_type = layout.machine_type(cx.cfg);
                    let slot = st1.next_slot();
                    let st2 = st1.with_slot(size).with_inst(
                        Inst::StackStore { value, slot, offset: 0 },
                    );
                    lower_stores(
                        cx,
                        scope.insert(name, ScopeEntry::Stack { expr_type, slot }),
                        st2,
                        stores,
                        from + 1,
                    )
                },
            },
        }
    }
}

/// What lowering the expressions of a list from `from` on makes of the body,
/// and the values of all of them, `done` being those of the earlier ones.
pub open spec fn lower_values(
    cx: Context,
    scope: Map<Symbol, ScopeEntry>,
    st: Body,
    exprs: Vec<Expr>,
    from: nat,
    done: Seq<Value>,
) -> Result<(Body, Seq<Value>), LowerError>
    decreases exprs, 0nat, exprs@.len() - from,
{
    if from >= exprs@.len() {
        Ok((st, done))
    } else {
        match lower_expr(cx, scope, st, exprs@[from as int]) {
            Err(e) => Err(e),
            Ok((st1, value)) => lower_values(cx, scope, st1, exprs, from + 1, done.push(value)),
        }
    }
}

/// What lowering the arguments of a call from `from` on makes of the body,
/// and the values of all of them, `done` being those of the earlier ones.
pub open spec fn lower_args(
    cx: Context,
    scope: Map<Symbol, ScopeEntry>,
    st: Body,
    args: Vec<(Expr, Layout)>,
    from: nat,
    done: Seq<Value>,
) -> Result<(Body, Seq<Value>), LowerError>
    decreases args, 0nat, args@.len() - from,
{
    if from >= args@.len() {
        Ok((st, done))
    } else {
        match lower_expr(cx, scope, st, args@[from as int].0) {
            Err(e) => Err(e),
            Ok((st1, value)) => lower_args(cx, scope, st1, args, from + 1, done.push(value)),
        }
    }
}

/// What lowering the elements of an array from `from` on makes of the body:
/// each element is stored at its index times the size of an element.
pub open spec fn lower_elems(
    cx: Context,
    scope: Map<Symbol, ScopeEntry>,
    st: Body,
    elems: Vec<Expr>,
    from: nat,
    ptr: Value,
    elem_bytes: u32,
) -> Result<Body, LowerError>
    decreases elems, 0nat, elems@.len() - from,
{
    if from >= elems@.len() {
        Ok(st)
    } else {
        match lower_expr(cx, scope, st, elems@[from as int]) {
            Err(e) => Err(e),
            Ok((st1, value)) => lower_elems(
                cx,
                scope,
                st1.with_inst(
                    Inst::Store { value, addr: ptr, offset: (elem_bytes * from) as i32 },
                ),
                elems,
                from + 1,
                ptr,
                elem_bytes,
            ),
        }
    }
}

/// What lowering the fields of a record makes of the body, from place `from`
/// of `order` on: each field is stored behind those before it in `order`.
pub open spec fn lower_fields(
    cx: Context,
    scope: Map<Symbol, ScopeEntry>,
    st: Body,
    fields: Vec<(String, Expr)>,
    layout: Layout,
    order: Seq<usize>,
    from: nat,
    slot: StackSlot,
    offset: nat,
) -> Result<Body, LowerError>
    decreases fields, 0nat, order.len() - from,
{
    if from >= order.len() {
        Ok(st)
    } else if order[from as int] >= fields@.len() {
        Ok(st)
    } else {
        let (name, init) = fields@[order[from as int] as int];
        match lower_expr(cx, scope, st, init) {
            Err(e) => Err(e),
            Ok((st1, value)) => match field_layout(layout, name_bytes(name)) {
                None => Err(LowerError::ShapeMismatch(Mismatch::RecordLayout)),
                Some(field) => match slot_size(cx, field) {
                    None => Err(LowerError::Unsupported(Unsupported::TooLarge)),
                    Some(size) => {
                        if offset + size > MAX_OFFSET {
                            Err(LowerError::Unsupported(Unsupported::TooLarge))
                        } else {
                            lower_fields(
                                cx,
                                scope,
                                st1.with_inst(
                                    Inst::StackStore { value, slot, offset: offset as i32 },
                                ),
                                fields,
                                layout,
                                order,
                                from + 1,
                                slot,
                                offset + size as nat,
                            )
                        }
                    },
                },
            },
        }
    }
}

/// What lowering a call by name makes of the body: a built-in operation is
/// lowered to its instructions, any other symbol to a call of the function
/// that it is bound to.
pub open spec fn lower_call(
    cx: Context,
    scope: Map<Symbol, ScopeEntry>,
    st: Body,
    symbol: Symbol,
    args: Vec<(Expr, Layout)>,
) -> Result<(Body, Value), LowerError>
    decreases args, 1nat, 0nat,
{
    match symbol.builtin() {
        Some(op) => {
            if args@.len() != op.arity() {
                Err(LowerError::ShapeMismatch(Mismatch::Arity(symbol)))
            } else {
                lower_builtin(cx, scope, st, symbol, op, args)
            }
        },
        None => {
            if !scope.contains_key(symbol) {
                Err(LowerError::UnresolvedSymbol(symbol))
            } else {
                match scope[symbol] {
                    ScopeEntry::Func { func_id, sig } => {
                        let func = st.next_func_ref();
                        match lower_args(
                            cx,
                            scope,
                            st.with_func_ref(func_id),
                            args,
                            0,
                            Seq::empty(),
                        ) {
                            Err(e) => Err(e),
                            Ok((st1, arg_vals)) => {
                                if sig@.returns.len() != 1 {
                                    Err(LowerError::ShapeMismatch(Mismatch::ResultCount(symbol)))
                                } else {
                                    let range = st1.next_values(arg_vals);
                                    Ok(
                                        def(
                                            st1.with_values(arg_vals),
                                            sig@.returns[0],
                                            |dst: Value| Inst::Call { dst, func, args: range },
                                        ),
                                    )
                                }
                            },
                        }
                    },
                    _ => Err(LowerError::ShapeMismatch(Mismatch::NotAFunction(symbol))),
                }
            }
        },
    }
}

/// What lowering a built-in operation makes of the body. The number of
/// arguments is the one the operation takes.
pub open spec fn lower_builtin(
    cx: Context,
    scope: Map<Symbol, ScopeEntry>,
    st: Body,
    symbol: Symbol,
    op: BuiltinOp,
    args: Vec<(Expr, Layout)>,
) -> Result<(Body, Value), LowerError>
    decreases args, 0nat, args@.len() + 1,
{
    if args@.len() != op.arity() {
        Err(LowerError::ShapeMismatch(Mismatch::Arity(symbol)))
    } else {
        match op {
            BuiltinOp::IntNeg => match lower_expr(cx, scope, st, args@[0].0) {
                Err(e) => Err(e),
                Ok((st1, arg)) => {
                    let ty = args@[0].1.machine_type(cx.cfg);
                    Ok(def(st1, ty, |dst: Value| Inst::Ineg { dst, ty, arg }))
                },
            },
            BuiltinOp::ListGetUnsafe => match lower_args(cx, scope, st, args, 0, Seq::empty()) {
                Err(e) => Err(e),
                Ok((st1, vals)) => match elem_layout_of(args@[0].1) {
                    None => Err(LowerError::ShapeMismatch(Mismatch::NotAList(symbol))),
                    Some(elem_layout) => match slot_size(cx, elem_layout) {
                        None => Err(LowerError::Unsupported(Unsupported::TooLarge)),
                        Some(elem_bytes) => {
                            let elem_type = elem_layout.machine_type(cx.cfg);
                            let (st2, elem_size) = def(
                                st1,
                                Type::I64,
                                |dst: Value|
                                    Inst::Iconst { dst, ty: Type::I64, imm: elem_bytes as i64 },
                            );
                            let (st3, offset) = def(
                                st2,
                                Type::I64,
                                |dst: Value|
                                    Inst::Binary {
                                        dst,
                                        op: BinaryOp::Imul,
                                        ty: Type::I64,
                                        lhs: vals[1],
                                        rhs: elem_size,
                                    },
                            );
                            Ok(
                                def(
                                    st3,
                                    elem_type,
                                    |dst: Value|
                                        Inst::LoadComplex {
                                            dst,
                                            ty: elem_type,
                                            base: vals[0],
                                            index: offset,
                                            offset: 0,
                                        },
                                ),
                            )
                        },
                    },
                },
            },
            BuiltinOp::ListSet => match elem_layout_of(args@[0].1) {
                None => Err(LowerError::ShapeMismatch(Mismatch::NotAList(symbol))),
                Some(elem_layout) => match slot_size(cx, elem_layout) {
                    None => Err(LowerError::Unsupported(Unsupported::TooLarge)),
                    Some(elem_bytes) => {
                        if elem_bytes * LIST_SET_CAPACITY + 1 > MAX_OFFSET {
                            Err(LowerError::Unsupported(Unsupported::TooLarge))
                        } else {
                            let (st1, ptr) = with_malloc(
                                cx,
                                st,
                                (elem_bytes * LIST_SET_CAPACITY + 1) as i64,
                            );
                            match lower_args(cx, scope, st1, args, 1, Seq::empty()) {
                                Err(e) => Err(e),
                                Ok((st2, vals)) => with_list_set(
                                    cx,
                                    st2,
                                    ptr,
                                    vals[0],
                                    vals[1],
                                    elem_layout,
                                ),
                            }
                        }
                    },
                },
            },
            BuiltinOp::ListSetInPlace => match lower_expr(cx, scope, st, args@[0].0) {
                Err(e) => Err(e),
                Ok((st1, list_val)) => match elem_layout_of(args@[0].1) {
                    None => Err(LowerError::ShapeMismatch(Mismatch::NotAList(symbol))),
                    Some(elem_layout) => match lower_args(cx, scope, st1, args, 1, Seq::empty()) {
                        Err(e) => Err(e),
                        Ok((st2, vals)) => with_list_set(
                            cx,
                            st2,
                            list_val,
                            vals[0],
                            vals[1],
                            elem_layout,
                        ),
                    },
                },
            },
            _ => match lower_args(cx, scope, st, args, 0, Seq::empty()) {
                Err(e) => Err(e),
                Ok((st1, vals)) => match binary_of(op, args@[0].1.machine_type(cx.cfg)) {
                    None => Err(LowerError::ShapeMismatch(Mismatch::Arity(symbol))),
                    Some((bin, ty, res_ty)) => Ok(
                        def(
                            st1,
                            res_ty,
                            |dst: Value|
                                Inst::Binary { dst, op: bin, ty, lhs: vals[0], rhs: vals[1] },
                        ),
                    ),
                },
            },
        }
    }
}

/// The number of elements that the copy made by a list-element write has
/// room for.
pub const LIST_SET_CAPACITY: u32 = 10;

} // verus!
