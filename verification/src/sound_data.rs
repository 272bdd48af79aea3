//! Records, strings and arrays compute what they mean.

use crate::builder::Body;
use crate::expr::Expr;
use crate::growth::{
    fits, lemma_elems_grows, lemma_expr_grows, lemma_fields_grows, lemma_grows_def,
    lemma_grows_steps, lemma_starts_with_index, sizes_le,
};
use crate::ir::{FuncId, Inst, StackSlot, Type, Value};
use crate::layout::Layout;
use crate::lowered::{
    Context, lower_elems, lower_expr, lower_fields, slot_size, with_bytes, with_malloc,
    with_terminator,
};
use crate::machine::{address, bits, exec, Frame, Heap, mask, Program, step, Step, Trap};
use crate::meaning::{allocated, eval, eval_elems, eval_fields, stored_bytes, terminated};
use crate::scope::ScopeEntry;
use crate::sound::{
    expr_ready, expr_sound, holds, keeps, lemma_def_step, lemma_expr_sound, lemma_holds_grown,
    lemma_inst_at, lemma_keeps_trans, lemma_next_step, lemma_resolve_kept, lemma_trapped_step,
    ready, resolve, scope_ok,
};
use crate::sound_call::lemma_malloc_sound;
use crate::symbol::Symbol;
use vstd::prelude::*;

verus! {

/// The instructions that store the sentinel byte store it.
pub proof fn lemma_terminator_sound(
    p: Program,
    malloc: FuncId,
    st: Body,
    ptr: Value,
    offset: int,
    f: Body,
    frame: Frame,
    heap: Heap,
    depth: nat,
    budget: nat,
) -> (out: Frame)
    requires
        st.filling,
        holds(f, with_terminator(st, ptr, offset as i32)),
        fits(f),
        budget >= 2,
        frame.has(ptr),
        ptr.index < st.value_types.len(),
    ensures
        with_terminator(st, ptr, offset as i32).insts.len() == st.insts.len() + 2,
        with_terminator(st, ptr, offset as i32).value_types.len() == st.value_types.len() + 1,
        match terminated(heap, frame.val(ptr), offset) {
            Err(t) => exec(p, malloc, f, st.insts.len() as int, frame, heap, depth, budget) == Err::<
                (u64, Heap),
                Trap,
            >(t),
            Ok(heap2) => {
                &&& exec(p, malloc, f, st.insts.len() as int, frame, heap, depth, budget) == exec(
                    p,
                    malloc,
                    f,
                    st.insts.len() as int + 2,
                    out,
                    heap2,
                    depth,
                    (budget - 2) as nat,
                )
                &&& keeps(frame, out, st)
            },
        },
{
    let make = |dst: Value| Inst::Iconst { dst, ty: Type::I8, imm: 0 };
    let (st1, nul) = crate::lowered::def(st, Type::I8, make);
    let store = Inst::Store { value: nul, addr: ptr, offset: offset as i32 };
    let x = mask(Type::I8, bits(0));
    let frame1 = frame.with_val(nul, x);
    lemma_inst_at(f, st1, store);
    lemma_def_step(p, malloc, f, st, Type::I8, make, frame, heap, depth, budget, x);
    let pc1 = st1.insts.len() as int;
    assert(frame1.vals.contains_key(ptr.index));
    match heap.store(address(frame.val(ptr), 0, offset as i32), x) {
        Err(t) => {
            assert(step(f, store, frame1, heap) == Step::Trap(t));
            lemma_trapped_step(p, malloc, f, pc1, frame1, heap, depth, (budget - 1) as nat, t);
            frame
        },
        Ok(heap2) => {
            assert(step(f, store, frame1, heap) == Step::Next(frame1, heap2));
            lemma_next_step(
                p,
                malloc,
                f,
                pc1,
                frame1,
                heap,
                depth,
                (budget - 1) as nat,
                frame1,
                heap2,
            );
            frame1
        },
    }
}

/// Storing the bytes of a string takes two instructions for each byte.
pub proof fn lemma_bytes_len(st: Body, bytes: Seq<u8>, from: int, ptr: Value)
    requires
        0 <= from <= bytes.len(),
    ensures
        with_bytes(st, bytes, from, ptr).insts.len() == st.insts.len() + 2 * (bytes.len() - from),
    decreases bytes.len() - from,
{
    if from < bytes.len() {
        let make = |dst: Value| Inst::Iconst { dst, ty: Type::I8, imm: bytes[from] as i64 };
        let (st1, val) = crate::lowered::def(st, Type::I8, make);
        let st2 = st1.with_inst(Inst::Store { value: val, addr: ptr, offset: from as i32 });
        lemma_bytes_len(st2, bytes, from + 1, ptr);
    }
}

/// The instructions that store the bytes of a string store them.
pub proof fn lemma_bytes_sound(
    p: Program,
    malloc: FuncId,
    st: Body,
    bytes: Seq<u8>,
    from: int,
    ptr: Value,
    f: Body,
    frame: Frame,
    heap: Heap,
    depth: nat,
    budget: nat,
) -> (out: Frame)
    requires
        0 <= from <= bytes.len(),
        st.filling,
        holds(f, with_bytes(st, bytes, from, ptr)),
        fits(f),
        budget >= 2 * (bytes.len() - from),
        frame.has(ptr),
        ptr.index < st.value_types.len(),
    ensures
        with_bytes(st, bytes, from, ptr).insts.len() == st.insts.len() + 2 * (bytes.len() - from),
        with_bytes(st, bytes, from, ptr).filling,
        sizes_le(st, with_bytes(st, bytes, from, ptr)),
        match stored_bytes(heap, bytes, from, frame.val(ptr)) {
            Err(t) => exec(p, malloc, f, st.insts.len() as int, frame, heap, depth, budget) == Err::<
                (u64, Heap),
                Trap,
            >(t),
            Ok(heap2) => {
                &&& exec(p, malloc, f, st.insts.len() as int, frame, heap, depth, budget) == exec(
                    p,
                    malloc,
                    f,
                    with_bytes(st, bytes, from, ptr).insts.len() as int,
                    out,
                    heap2,
                    depth,
                    (budget - 2 * (bytes.len() - from)) as nat,
                )
                &&& keeps(frame, out, st)
            },
        },
    decreases bytes.len() - from,
{
    lemma_bytes_len(st, bytes, from, ptr);
    crate::growth::lemma_grows_bytes(st, bytes, from, ptr);
    if from >= bytes.len() {
        frame
    } else {
        let make = |dst: Value| Inst::Iconst { dst, ty: Type::I8, imm: bytes[from] as i64 };
        let (st1, val) = crate::lowered::def(st, Type::I8, make);
        let store = Inst::Store { value: val, addr: ptr, offset: from as i32 };
        let st2 = st1.with_inst(store);
        let x = mask(Type::I8, bits(bytes[from] as i64));
        let frame1 = frame.with_val(val, x);
        lemma_grows_def(st, Type::I8, make);
        lemma_grows_steps(st1);
        crate::growth::lemma_grows_bytes(st2, bytes, from + 1, ptr);
        lemma_holds_grown(f, st2, with_bytes(st2, bytes, from + 1, ptr));
        lemma_inst_at(f, st1, store);
        lemma_def_step(p, malloc, f, st, Type::I8, make, frame, heap, depth, budget, x);
        let pc1 = st1.insts.len() as int;
        assert(frame1.vals.contains_key(ptr.index));
        match heap.store(address(frame.val(ptr), 0, from as i32), x) {
            Err(t) => {
                assert(step(f, store, frame1, heap) == Step::Trap(t));
                lemma_trapped_step(p, malloc, f, pc1, frame1, heap, depth, (budget - 1) as nat, t);
                frame
            },
            Ok(heap1) => {
                assert(step(f, store, frame1, heap) == Step::Next(frame1, heap1));
                lemma_next_step(
                    p,
                    malloc,
                    f,
                    pc1,
                    frame1,
                    heap,
                    depth,
                    (budget - 1) as nat,
                    frame1,
                    heap1,
                );
                assert(frame1.val(ptr) == frame.val(ptr));
                let frame2 = lemma_bytes_sound(
                    p,
                    malloc,
                    st2,
                    bytes,
                    from + 1,
                    ptr,
                    f,
                    frame1,
                    heap1,
                    depth,
                    (budget - 2) as nat,
                );
                match stored_bytes(heap1, bytes, from + 1, frame.val(ptr)) {
                    Err(t) => frame,
                    Ok(heap2) => {
                        lemma_keeps_trans(frame, frame1, frame2, st, st2);
                        frame2
                    },
                }
            },
        }
    }
}

/// The instructions of a string compute what the string means.
pub proof fn lemma_str_sound(
    cx: Context,
    p: Program,
    scope: Map<Symbol, ScopeEntry>,
    st: Body,
    expr: Expr,
    f: Body,
    frame: Frame,
    heap: Heap,
    depth: nat,
    budget: nat,
) -> (out: (Frame, nat))
    requires
        expr_ready(cx, scope, st, expr, f, frame, budget),
        expr is Str,
    ensures
        expr_sound(cx, p, scope, st, expr, f, frame, heap, depth, budget, out),
{
    let malloc = cx.malloc;
    let bytes = crate::fields::name_bytes(expr->Str_0);
    let size = bytes.len() as int + 1;
    let (st1, ptr) = with_malloc(cx, st, size as i64);
    let st2 = with_bytes(st1, bytes, 0, ptr);
    let st3 = with_terminator(st2, ptr, bytes.len() as i32);
    crate::growth::lemma_grows_malloc(cx, st, size as i64);
    crate::growth::lemma_grows_bytes(st1, bytes, 0, ptr);
    crate::growth::lemma_grows_terminator(st2, ptr, bytes.len() as i32);
    lemma_holds_grown(f, st2, st3);
    lemma_holds_grown(f, st1, st2);
    assert(st3.insts.len() == st2.insts.len() + 2);
    lemma_bytes_len(st1, bytes, 0, ptr);
    let frame1 = lemma_malloc_sound(cx, p, st, size, f, frame, heap, depth, budget);
    match allocated(cx, p, size, heap, depth) {
        Err(t) => (frame, 0),
        Ok((x, heap1)) => {
            let frame2 = lemma_bytes_sound(
                p,
                malloc,
                st1,
                bytes,
                0,
                ptr,
                f,
                frame1,
                heap1,
                depth,
                (budget - 2) as nat,
            );
            match stored_bytes(heap1, bytes, 0, x) {
                Err(t) => (frame, 0),
                Ok(heap2) => {
                    assert(frame2.vals.contains_key(ptr.index));
                    let frame3 = lemma_terminator_sound(
                        p,
                        malloc,
                        st2,
                        ptr,
                        bytes.len() as int,
                        f,
                        frame2,
                        heap2,
                        depth,
                        (budget - 2 - 2 * bytes.len()) as nat,
                    );
                    match terminated(heap2, x, bytes.len() as int) {
                        Err(t) => (frame, 0),
                        Ok(heap3) => {
                            lemma_keeps_trans(frame1, frame2, frame3, st1, st2);
                            lemma_keeps_trans(frame, frame1, frame3, st, st1);
                            assert(frame3.vals.contains_key(ptr.index));
                            (frame3, (2 + 2 * bytes.len() + 2) as nat)
                        },
                    }
                },
            }
        },
    }
}

/// The instructions of the elements of an array compute the elements and
/// store each at its place.
pub proof fn lemma_elems_sound(
    cx: Context,
    p: Program,
    scope: Map<Symbol, ScopeEntry>,
    st: Body,
    elems: Vec<Expr>,
    from: nat,
    ptr: Value,
    elem_bytes: u32,
    f: Body,
    frame: Frame,
    heap: Heap,
    depth: nat,
    budget: nat,
) -> (out: (Frame, nat))
    requires
        lower_elems(cx, scope, st, elems, from, ptr, elem_bytes) is Ok,
        ready(
            scope,
            st,
            lower_elems(cx, scope, st, elems, from, ptr, elem_bytes)->Ok_0,
            f,
            frame,
            budget,
        ),
        frame.has(ptr),
        ptr.index < st.value_types.len(),
    ensures
        ({
            let st2 = lower_elems(cx, scope, st, elems, from, ptr, elem_bytes)->Ok_0;
            match eval_elems(
                cx,
                p,
                resolve(scope, frame),
                elems,
                from,
                frame.val(ptr),
                elem_bytes as nat,
                heap,
                depth,
            ) {
                Err(t) => exec(p, cx.malloc, f, st.insts.len() as int, frame, heap, depth, budget)
                    == Err::<(u64, Heap), Trap>(t),
                Ok(heap2) => {
                    &&& exec(p, cx.malloc, f, st.insts.len() as int, frame, heap, depth, budget)
                        == exec(
                        p,
                        cx.malloc,
                        f,
                        st2.insts.len() as int,
                        out.0,
                        heap2,
                        depth,
                        (budget - out.1) as nat,
                    )
                    &&& out.1 <= st2.insts.len() - st.insts.len()
                    &&& keeps(frame, out.0, st)
                },
            }
        }),
    decreases elems, 0nat, elems@.len() - from,
{
    let malloc = cx.malloc;
    if from >= elems@.len() {
        (frame, 0)
    } else {
        let st_end = lower_elems(cx, scope, st, elems, from, ptr, elem_bytes)->Ok_0;
        let (st1, value) = lower_expr(cx, scope, st, elems@[from as int])->Ok_0;
        let store = Inst::Store { value, addr: ptr, offset: (elem_bytes * from) as i32 };
        let st2 = st1.with_inst(store);
        lemma_expr_grows(cx, scope, st, elems@[from as int]);
        lemma_grows_steps(st1);
        lemma_elems_grows(cx, scope, st2, elems, from + 1, ptr, elem_bytes);
        lemma_holds_grown(f, st2, st_end);
        lemma_inst_at(f, st1, store);
        let (frame1, used1) = lemma_expr_sound(
            cx,
            p,
            scope,
            st,
            elems@[from as int],
            f,
            frame,
            heap,
            depth,
            budget,
        );
        match eval(cx, p, resolve(scope, frame), elems@[from as int], heap, depth) {
            Err(t) => (frame, 0),
            Ok((x, heap1)) => {
                let pc1 = st1.insts.len() as int;
                let budget1 = (budget - used1) as nat;
                assert(frame1.vals.contains_key(ptr.index));
                lemma_resolve_kept(scope, frame, frame1, st, st2);
                match heap1.store(address(frame.val(ptr), 0, (elem_bytes * from) as i32), x) {
                    Err(t) => {
                        assert(step(f, store, frame1, heap1) == Step::Trap(t));
                        lemma_trapped_step(p, malloc, f, pc1, frame1, heap1, depth, budget1, t);
                        (frame, 0)
                    },
                    Ok(heap2) => {
                        assert(step(f, store, frame1, heap1) == Step::Next(frame1, heap2));
                        lemma_next_step(
                            p,
                            malloc,
                            f,
                            pc1,
                            frame1,
                            heap1,
                            depth,
                            budget1,
                            frame1,
                            heap2,
                        );
                        let (frame2, used2) = lemma_elems_sound(
                            cx,
                            p,
                            scope,
                            st2,
                            elems,
                            from + 1,
                            ptr,
                            elem_bytes,
                            f,
                            frame1,
                            heap2,
                            depth,
                            (budget1 - 1) as nat,
                        );
                        match eval_elems(
                            cx,
                            p,
                            resolve(scope, frame),
                            elems,
                            from + 1,
                            frame.val(ptr),
                            elem_bytes as nat,
                            heap2,
                            depth,
                        ) {
                            Err(t) => (frame, 0),
                            Ok(heap3) => {
                                lemma_keeps_trans(frame1, frame1, frame2, st1, st2);
                                lemma_keeps_trans(frame, frame1, frame2, st, st1);
                                (frame2, used1 + 1 + used2)
                            },
                        }
                    },
                }
            },
        }
    }
}

/// The instructions of an array compute what the array means.
pub proof fn lemma_array_sound(
    cx: Context,
    p: Program,
    scope: Map<Symbol, ScopeEntry>,
    st: Body,
    expr: Expr,
    f: Body,
    frame: Frame,
    heap: Heap,
    depth: nat,
    budget: nat,
) -> (out: (Frame, nat))
    requires
        expr_ready(cx, scope, st, expr, f, frame, budget),
        expr is Array,
    ensures
        expr_sound(cx, p, scope, st, expr, f, frame, heap, depth, budget, out),
    decreases expr, 0nat, 0nat,
{
    let malloc = cx.malloc;
    let elems = expr->Array_elems;
    let elem_bytes = slot_size(cx, expr->Array_elem_layout)->Some_0;
    assert(decreases_to!(expr => expr->Array_elems));
    let payload = elem_bytes * elems@.len();
    let size = payload + 1;
    let (st1, ptr) = with_malloc(cx, st, size as i64);
    let st2 = lower_elems(cx, scope, st1, elems, 0, ptr, elem_bytes)->Ok_0;
    let st3 = with_terminator(st2, ptr, payload as i32);
    crate::growth::lemma_grows_malloc(cx, st, size as i64);
    lemma_elems_grows(cx, scope, st1, elems, 0, ptr, elem_bytes);
    crate::growth::lemma_grows_terminator(st2, ptr, payload as i32);
    lemma_holds_grown(f, st2, st3);
    lemma_holds_grown(f, st1, st2);
    assert(st3.insts.len() == st2.insts.len() + 2);
    let frame1 = lemma_malloc_sound(cx, p, st, size, f, frame, heap, depth, budget);
    match allocated(cx, p, size, heap, depth) {
        Err(t) => (frame, 0),
        Ok((x, heap1)) => {
            lemma_resolve_kept(scope, frame, frame1, st, st1);
            let (frame2, used2) = lemma_elems_sound(
                cx,
                p,
                scope,
                st1,
                elems,
                0,
                ptr,
                elem_bytes,
                f,
                frame1,
                heap1,
                depth,
                (budget - 2) as nat,
            );
            match eval_elems(
                cx,
                p,
                resolve(scope, frame),
                elems,
                0,
                x,
                elem_bytes as nat,
                heap1,
                depth,
            ) {
                Err(t) => (frame, 0),
                Ok(heap2) => {
                    assert(frame2.vals.contains_key(ptr.index));
                    let frame3 = lemma_terminator_sound(
                        p,
                        malloc,
                        st2,
                        ptr,
                        payload,
                        f,
                        frame2,
                        heap2,
                        depth,
                        (budget - 2 - used2) as nat,
                    );
                    match terminated(heap2, x, payload) {
                        Err(t) => (frame, 0),
                        Ok(heap3) => {
                            lemma_keeps_trans(frame1, frame2, frame3, st1, st2);
                            lemma_keeps_trans(frame, frame1, frame3, st, st1);
                            assert(frame3.vals.contains_key(ptr.index));
                            (frame3, 2 + used2 + 2)
                        },
                    }
                },
            }
        },
    }
}

/// The instructions of the fields of a record compute the fields and store
/// each in the slot of the record.
pub proof fn lemma_fields_sound(
    cx: Context,
    p: Program,
    scope: Map<Symbol, ScopeEntry>,
    st: Body,
    fields: Vec<(String, Expr)>,
    layout: Layout,
    order: Seq<usize>,
    from: nat,
    slot: StackSlot,
    offset: nat,
    f: Body,
    frame: Frame,
    heap: Heap,
    depth: nat,
    budget: nat,
    base: Body,
) -> (out: (Frame, nat))
    requires
        lower_fields(cx, scope, st, fields, layout, order, from, slot, offset) is Ok,
        st.filling,
        holds(f, lower_fields(cx, scope, st, fields, layout, order, from, slot, offset)->Ok_0),
        fits(f),
        budget >= lower_fields(
            cx,
            scope,
            st,
            fields,
            layout,
            order,
            from,
            slot,
            offset,
        )->Ok_0.insts.len() - st.insts.len(),
        scope_ok(scope, frame, base),
        sizes_le(base, st),
        base.stack_slots.len() <= slot.index < st.stack_slots.len(),
    ensures
        ({
            let st2 = lower_fields(cx, scope, st, fields, layout, order, from, slot, offset)->Ok_0;
            match eval_fields(cx, p, resolve(scope, frame), fields, order, from, heap, depth) {
                Err(t) => exec(p, cx.malloc, f, st.insts.len() as int, frame, heap, depth, budget)
                    == Err::<(u64, Heap), Trap>(t),
                Ok(heap2) => {
                    &&& exec(p, cx.malloc, f, st.insts.len() as int, frame, heap, depth, budget)
                        == exec(
                        p,
                        cx.malloc,
                        f,
                        st2.insts.len() as int,
                        out.0,
                        heap2,
                        depth,
                        (budget - out.1) as nat,
                    )
                    &&& out.1 <= st2.insts.len() - st.insts.len()
                    &&& keeps(frame, out.0, base)
                },
            }
        }),
    decreases fields, 0nat, order.len() - from,
{
    let malloc = cx.malloc;
    if from >= order.len() {
        (frame, 0)
    } else if order[from as int] >= fields@.len() {
        (frame, 0)
    } else {
        let st_end = lower_fields(cx, scope, st, fields, layout, order, from, slot, offset)->Ok_0;
        let (name, init) = fields@[order[from as int] as int];
        vstd::std_specs::vec::axiom_vec_index_decreases(fields, order[from as int] as int);
        let (st1, value) = lower_expr(cx, scope, st, init)->Ok_0;
        let field = crate::lowered::field_layout(layout, crate::fields::name_bytes(name))->Some_0;
        let size = slot_size(cx, field)->Some_0;
        let store = Inst::StackStore { value, slot, offset: offset as i32 };
        let st2 = st1.with_inst(store);
        lemma_expr_grows(cx, scope, st, init);
        lemma_grows_steps(st1);
        lemma_fields_grows(
            cx,
            scope,
            st2,
            fields,
            layout,
            order,
            from + 1,
            slot,
            offset + size as nat,
        );
        lemma_holds_grown(f, st2, st_end);
        lemma_inst_at(f, st1, store);
        lemma_resolve_kept(scope, frame, frame, base, st);
        let (frame1, used1) = lemma_expr_sound(cx, p, scope, st, init, f, frame, heap, depth, budget);
        match eval(cx, p, resolve(scope, frame), init, heap, depth) {
            Err(t) => (frame, 0),
            Ok((x, heap1)) => {
                let pc1 = st1.insts.len() as int;
                let budget1 = (budget - used1) as nat;
                let frame2 = Frame {
                    slots: frame1.slots.insert((slot.index, offset as i32), x),
                    ..frame1
                };
                lemma_starts_with_index(f.stack_slots, st1.stack_slots, slot.index as int);
                assert(step(f, store, frame1, heap1) == Step::Next(frame2, heap1));
                lemma_next_step(p, malloc, f, pc1, frame1, heap1, depth, budget1, frame2, heap1);
                lemma_keeps_trans(frame, frame, frame1, base, st);
                assert(keeps(frame1, frame2, base));
                lemma_keeps_trans(frame, frame1, frame2, base, base);
                lemma_resolve_kept(scope, frame, frame2, base, st2);
                let (frame3, used3) = lemma_fields_sound(
                    cx,
                    p,
                    scope,
                    st2,
                    fields,
                    layout,
                    order,
                    from + 1,
                    slot,
                    offset + size as nat,
                    f,
                    frame2,
                    heap1,
                    depth,
                    (budget1 - 1) as nat,
                    base,
                );
                match eval_fields(
                    cx,
                    p,
                    resolve(scope, frame),
                    fields,
                    order,
                    from + 1,
                    heap1,
                    depth,
                ) {
                    Err(t) => (frame, 0),
                    Ok(heap2) => {
                        lemma_keeps_trans(frame, frame2, frame3, base, base);
                        (frame3, used1 + 1 + used3)
                    },
                }
            },
        }
    }
}

/// The instructions of a record compute what the record means.
pub proof fn lemma_struct_sound(
    cx: Context,
    p: Program,
    scope: Map<Symbol, ScopeEntry>,
    st: Body,
    expr: Expr,
    f: Body,
    frame: Frame,
    heap: Heap,
    depth: nat,
    budget: nat,
) -> (out: (Frame, nat))
    requires
        expr_ready(cx, scope, st, expr, f, frame, budget),
        expr is Struct,
    ensures
        expr_sound(cx, p, scope, st, expr, f, frame, heap, depth, budget, out),
    decreases expr, 0nat, 0nat,
{
    let malloc = cx.malloc;
    let layout = expr->Struct_layout;
    let fields = expr->Struct_fields;
    assert(decreases_to!(expr => expr->Struct_fields));
    let size = slot_size(cx, layout)->Some_0;
    let slot = st.next_slot();
    let order = crate::fields::order_by_name(crate::lowered::field_names(fields@), fields@.len());
    let st0 = st.with_slot(size);
    let st1 = lower_fields(cx, scope, st0, fields, layout, order, 0, slot, 0)->Ok_0;
    let ty = layout.machine_type(cx.cfg);
    let make = |dst: Value| Inst::StackAddr { dst, ty, slot, offset: 0 };
    let st2 = st1.with_def(ty, make);
    lemma_grows_steps(st);
    lemma_fields_grows(cx, scope, st0, fields, layout, order, 0, slot, 0);
    lemma_grows_def(st1, ty, make);
    lemma_holds_grown(f, st1, st2);
    let (frame1, used1) = lemma_fields_sound(
        cx,
        p,
        scope,
        st0,
        fields,
        layout,
        order,
        0,
        slot,
        0,
        f,
        frame,
        heap,
        depth,
        budget,
        st,
    );
    match eval_fields(cx, p, resolve(scope, frame), fields, order, 0, heap, depth) {
        Err(t) => (frame, 0),
        Ok(heap1) => {
            let x = crate::machine::frame_address(ty, 0);
            lemma_def_step(p, malloc, f, st1, ty, make, frame1, heap1, depth, (budget - used1) as nat, x);
            let frame2 = frame1.with_val(st1.next_value(), x);
            lemma_keeps_trans(frame1, frame1, frame2, st, st1);
            lemma_keeps_trans(frame, frame1, frame2, st, st);
            (frame2, used1 + 1)
        },
    }
}

} // verus!
