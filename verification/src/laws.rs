//! What holds of every procedure that was lowered.
//!
//! The function that a procedure is lowered to computes, on the reference
//! machine, what the body of the procedure means. Whatever holds of the
//! meaning of an expression therefore holds of the function that is run.

use crate::builder::Body;
use crate::expr::{Expr, Proc};
use crate::fields::{
    bytes_le, lemma_bytes_le_is_total_order, lemma_order_by_name, name_bytes, order_by_name,
};
use crate::growth::{fits, lemma_expr_grows};
use crate::ir::{Block, FuncId, Inst, SignatureView, StackSlot, Value};
use crate::layout::{Layout, TargetConfig};
use crate::lowered::{
    Context, duplicate_case, field_names, has_case, lower_expr, lower_fields, lower_stores,
    LowerError,
};
use crate::machine::{block_start, exec, Frame, Heap, Outcome, Program, run, step, Step, Trap};
use crate::meaning::{Binding, eval};
use crate::proc::{bound_params, entry_body, lower_proc, with_params};
use crate::scope::ScopeEntry;
use crate::sound::{
    entry_ok, holds, lemma_expr_sound, lemma_holds_grown, lemma_inst_at, resolve, scope_ok,
};
use crate::sound_switch::{chosen, lemma_chosen};
use crate::symbol::Symbol;
use vstd::prelude::*;

verus! {

/// Whether every binding of `scope` is a function.
pub open spec fn only_functions(scope: Map<Symbol, ScopeEntry>) -> bool {
    forall|s: Symbol| scope.contains_key(s) ==> (#[trigger] scope[s]) is Func
}

/// Whether the function `func` of the program `p` is what `proc` is lowered
/// to, under the bindings `scope` and the signature `sig`.
pub open spec fn defines(
    cx: Context,
    scope: Map<Symbol, ScopeEntry>,
    sig: SignatureView,
    proc: Proc,
    p: Program,
    func: FuncId,
) -> bool {
    &&& lower_proc(cx, scope, sig, proc) is Ok
    &&& fits(lower_proc(cx, scope, sig, proc)->Ok_0)
    &&& only_functions(scope)
    &&& func != cx.malloc
    &&& func.index < p.funcs.len()
    &&& p.funcs[func.index as int] == Some(lower_proc(cx, scope, sig, proc)->Ok_0)
}

/// A procedure that was defined in a module is defined in the program of
/// the module.
pub proof fn lemma_defined_in_module(
    cx: Context,
    scope: Map<Symbol, ScopeEntry>,
    sig: SignatureView,
    proc: Proc,
    before: crate::module::Module,
    after: crate::module::Module,
    func: FuncId,
)
    requires
        lower_proc(cx, scope, sig, proc) is Ok,
        fits(lower_proc(cx, scope, sig, proc)->Ok_0),
        only_functions(scope),
        func != cx.malloc,
        func.index < before.declarations().len(),
        crate::module::defined(
            before.declarations(),
            func,
            lower_proc(cx, scope, sig, proc)->Ok_0,
        ) == Ok::<Seq<crate::module::DeclarationView>, crate::module::ModuleError>(
            after.declarations(),
        ),
    ensures
        defines(cx, scope, sig, proc, after.program(), func),
{
}

/// The bindings under which the body of a procedure is evaluated when it is
/// called with `args`: the functions of its surroundings, and each parameter
/// bound to the argument that comes in for it.
pub open spec fn proc_env(
    cx: Context,
    scope: Map<Symbol, ScopeEntry>,
    sig: SignatureView,
    proc: Proc,
    args: Seq<u64>,
) -> Map<Symbol, Binding> {
    resolve(with_params(scope, proc.args@, cx.cfg, bound_params(sig, proc)), Frame::entry(args))
}

/// What calling a procedure with `args` means: the meaning of its body, with
/// calls nested one less deep.
pub open spec fn proc_meaning(
    cx: Context,
    p: Program,
    scope: Map<Symbol, ScopeEntry>,
    sig: SignatureView,
    proc: Proc,
    args: Seq<u64>,
    heap: Heap,
    depth: nat,
) -> Outcome {
    if depth == 0 {
        Err(Trap::DepthExceeded)
    } else if args.len() != sig.params.len() {
        Err(Trap::ArityMismatch)
    } else {
        eval(cx, p, proc_env(cx, scope, sig, proc, args), proc.body, heap, (depth - 1) as nat)
    }
}

proof fn lemma_params_ok(
    scope: Map<Symbol, ScopeEntry>,
    params: Seq<(Layout, Symbol)>,
    cfg: TargetConfig,
    n: nat,
    sig: SignatureView,
    args: Seq<u64>,
)
    requires
        only_functions(scope),
        n <= sig.params.len(),
        n <= params.len(),
        args.len() == sig.params.len(),
        sig.params.len() <= usize::MAX,
    ensures
        scope_ok(with_params(scope, params, cfg, n), Frame::entry(args), entry_body(sig)),
    decreases n,
{
    let frame = Frame::entry(args);
    let st = entry_body(sig);
    if n == 0 {
        assert forall|s: Symbol| scope.contains_key(s) implies entry_ok(
            #[trigger] scope[s],
            frame,
            st,
        ) by {
            assert(scope[s] is Func);
        }
    } else {
        lemma_params_ok(scope, params, cfg, (n - 1) as nat, sig, args);
        let before = with_params(scope, params, cfg, (n - 1) as nat);
        let after = with_params(scope, params, cfg, n);
        let param = Value { index: (n - 1) as usize };
        assert(frame.vals.contains_key(param.index));
        assert forall|s: Symbol| after.contains_key(s) implies entry_ok(
            #[trigger] after[s],
            frame,
            st,
        ) by {
            if s != params[n - 1].1 {
                assert(before.contains_key(s));
                assert(entry_ok(before[s], frame, st));
            }
        }
    }
}

/// The function that a procedure is lowered to computes what the procedure
/// means: called with any arguments, on any memory, at any depth, the
/// machine comes to the value and the memory that evaluating the body of the
/// procedure comes to, or traps as evaluating the body traps.
pub proof fn theorem_lowering_is_sound(
    cx: Context,
    scope: Map<Symbol, ScopeEntry>,
    sig: SignatureView,
    proc: Proc,
    p: Program,
    func: FuncId,
    args: Seq<u64>,
    heap: Heap,
    depth: nat,
)
    requires
        defines(cx, scope, sig, proc, p, func),
    ensures
        run(p, cx.malloc, func, args, heap, depth) == proc_meaning(
            cx,
            p,
            scope,
            sig,
            proc,
            args,
            heap,
            depth,
        ),
{
    reveal(exec);
    let f = lower_proc(cx, scope, sig, proc)->Ok_0;
    let inner = with_params(scope, proc.args@, cx.cfg, bound_params(sig, proc));
    let st0 = entry_body(sig);
    let (st1, value) = lower_expr(cx, inner, st0, proc.body)->Ok_0;
    let ret = Inst::Return { value };
    let st2 = st1.with_inst(ret);
    assert(f == Body { sealed: true, ..st2 });
    assert(holds(f, st2)) by {
        crate::growth::lemma_starts_with_refl(st2.insts);
        crate::growth::lemma_starts_with_refl(st2.value_types);
        crate::growth::lemma_starts_with_refl(st2.stack_slots);
        crate::growth::lemma_starts_with_refl(st2.variables);
        crate::growth::lemma_starts_with_refl(st2.func_refs);
        crate::growth::lemma_starts_with_refl(st2.sig_refs);
        crate::growth::lemma_starts_with_refl(st2.value_pool);
        crate::growth::lemma_starts_with_refl(st2.case_pool);
    }
    lemma_inst_at(f, st1, ret);
    lemma_expr_grows(cx, inner, st0, proc.body);
    lemma_holds_grown(f, st0, st1);
    assert(st0.block_starts[0] == Some(0usize));
    assert(block_start(f, Block { index: 0 }) == Some(0int));
    assert(f.params == sig.params.len());
    if depth > 0 && args.len() == sig.params.len() {
        let frame = Frame::entry(args);
        let d = (depth - 1) as nat;
        let budget = f.insts.len();
        lemma_params_ok(scope, proc.args@, cx.cfg, bound_params(sig, proc), sig, args);
        let (frame1, used) = lemma_expr_sound(
            cx,
            p,
            inner,
            st0,
            proc.body,
            f,
            frame,
            heap,
            d,
            budget,
        );
        match eval(cx, p, resolve(inner, frame), proc.body, heap, d) {
            Err(t) => {},
            Ok((x, heap1)) => {
                assert(step(f, ret, frame1, heap1) == Step::Return(x, heap1));
                assert(exec(
                    p,
                    cx.malloc,
                    f,
                    st1.insts.len() as int,
                    frame1,
                    heap1,
                    d,
                    (budget - used) as nat,
                ) == Ok::<(u64, Heap), Trap>((x, heap1))) by {
                    reveal(exec);
                }
            },
        }
    }
}

/// Lowering an integer literal and running the function yields the
/// literal, and leaves the memory as it was.
pub proof fn law_integer_literal_round_trip(
    cx: Context,
    scope: Map<Symbol, ScopeEntry>,
    sig: SignatureView,
    proc: Proc,
    p: Program,
    func: FuncId,
    args: Seq<u64>,
    heap: Heap,
    depth: nat,
    n: i64,
)
    requires
        defines(cx, scope, sig, proc, p, func),
        proc.body == Expr::Int(n),
        depth > 0,
        args.len() == sig.params.len(),
    ensures
        run(p, cx.malloc, func, args, heap, depth) == Ok::<(u64, Heap), Trap>((n as u64, heap)),
        (n as u64) as i64 == n,
{
    theorem_lowering_is_sound(cx, scope, sig, proc, p, func, args, heap, depth);
    assert((n as u64) as i64 == n) by (bit_vector);
}

/// A conditional whose condition is the literal `flag` runs as the arm that
/// `flag` selects, lowered alone: the functions of two procedures of one
/// program that differ in nothing else come to the same, whatever they are
/// called with.
pub proof fn law_literal_condition_selects_arm(
    cx: Context,
    scope: Map<Symbol, ScopeEntry>,
    sig: SignatureView,
    whole: Proc,
    alone: Proc,
    p: Program,
    func_whole: FuncId,
    func_alone: FuncId,
    args: Seq<u64>,
    heap: Heap,
    depth: nat,
    flag: bool,
)
    requires
        defines(cx, scope, sig, whole, p, func_whole),
        defines(cx, scope, sig, alone, p, func_alone),
        whole.args@ == alone.args@,
        whole.body is Cond,
        *whole.body->Cond_cond == Expr::Bool(flag),
        alone.body == (if flag {
            *whole.body->Cond_pass
        } else {
            *whole.body->Cond_fail
        }),
    ensures
        run(p, cx.malloc, func_whole, args, heap, depth) == run(
            p,
            cx.malloc,
            func_alone,
            args,
            heap,
            depth,
        ),
{
    theorem_lowering_is_sound(cx, scope, sig, whole, p, func_whole, args, heap, depth);
    theorem_lowering_is_sound(cx, scope, sig, alone, p, func_alone, args, heap, depth);
    if depth > 0 && args.len() == sig.params.len() {
        let env = proc_env(cx, scope, sig, whole, args);
        let d = (depth - 1) as nat;
        assert(proc_env(cx, scope, sig, alone, args) == env);
        assert(eval(cx, p, env, Expr::Bool(flag), heap, d) == Ok::<(u64, Heap), Trap>(
            (
                if flag {
                    1u64
                } else {
                    0u64
                },
                heap,
            ),
        ));
    }
}

/// No two cases of a switch that was lowered have the same value.
pub proof fn lemma_cases_differ(branches: Seq<(u64, Expr)>, from: int, i: int, j: int)
    requires
        0 <= from,
        duplicate_case(branches, from) is None,
        0 <= i < j < branches.len(),
        from <= j,
    ensures
        branches[i].0 != branches[j].0,
    decreases branches.len() - from,
{
    if from < j {
        lemma_cases_differ(branches, from + 1, i, j);
    } else {
        assert(!has_case(branches, from, branches[from].0));
    }
}

/// Whether the case `k` of the cases `branches` is the one that a switch on
/// `key` takes: it is the only case that equals `key`, or `None` when no
/// case equals `key`.
pub open spec fn takes(branches: Seq<(u64, Expr)>, key: u64, k: Option<int>) -> bool {
    match k {
        Some(k) => 0 <= k < branches.len() && branches[k].0 == key && forall|j: int|
            0 <= j < branches.len() && j != k ==> (#[trigger] branches[j]).0 != key,
        None => forall|j: int| 0 <= j < branches.len() ==> (#[trigger] branches[j]).0 != key,
    }
}

proof fn lemma_chosen_first(branches: Seq<(u64, Expr)>, from: int, key: u64)
    requires
        0 <= from,
    ensures
        match chosen(branches, from, key) {
            Some(k) => from <= k < branches.len() && branches[k].0 == key && forall|j: int|
                from <= j < k ==> (#[trigger] branches[j]).0 != key,
            None => forall|j: int| from <= j < branches.len() ==> (#[trigger] branches[j]).0 != key,
        },
    decreases branches.len() - from,
{
    if from < branches.len() && branches[from].0 != key {
        lemma_chosen_first(branches, from + 1, key);
    }
}

/// A switch runs as exactly one of its arms: the function of a procedure
/// whose body is a switch comes to what evaluating the discriminant and then
/// the arm of the one case that equals it comes to, and to what evaluating
/// the default comes to when no case equals it. No other arm takes part.
pub proof fn law_switch_takes_one_arm(
    cx: Context,
    scope: Map<Symbol, ScopeEntry>,
    sig: SignatureView,
    proc: Proc,
    p: Program,
    func: FuncId,
    args: Seq<u64>,
    heap: Heap,
    depth: nat,
)
    requires
        defines(cx, scope, sig, proc, p, func),
        proc.body is Switch,
        depth > 0,
        args.len() == sig.params.len(),
    ensures
        ({
            let env = proc_env(cx, scope, sig, proc, args);
            let d = (depth - 1) as nat;
            let branches = proc.body->Switch_branches@;
            match eval(cx, p, env, *proc.body->Switch_cond, heap, d) {
                Err(t) => run(p, cx.malloc, func, args, heap, depth) == Err::<(u64, Heap), Trap>(t),
                Ok((key, heap2)) => exists|k: Option<int>|
                    takes(branches, key, k) && run(p, cx.malloc, func, args, heap, depth) == eval(
                        cx,
                        p,
                        env,
                        match k {
                            Some(k) => branches[k].1,
                            None => *proc.body->Switch_default_branch,
                        },
                        heap2,
                        d,
                    ),
            }
        }),
{
    theorem_lowering_is_sound(cx, scope, sig, proc, p, func, args, heap, depth);
    let env = proc_env(cx, scope, sig, proc, args);
    let d = (depth - 1) as nat;
    let branches = proc.body->Switch_branches@;
    let inner = with_params(scope, proc.args@, cx.cfg, bound_params(sig, proc));
    assert(lower_expr(cx, inner, entry_body(sig), proc.body) is Ok);
    assert(duplicate_case(branches, 0) is None);
    match eval(cx, p, env, *proc.body->Switch_cond, heap, d) {
        Err(t) => {},
        Ok((key, heap2)) => {
            let k = chosen(branches, 0, key);
            vstd::std_specs::vec::axiom_spec_len(&proc.body->Switch_branches);
            lemma_chosen_first(branches, 0, key);
            lemma_chosen(
                cx,
                p,
                env,
                proc.body,
                0,
                key,
                heap2,
                d,
                Block { index: 0 },
                Block { index: 0 },
            );
            assert(takes(branches, key, k)) by {
                match k {
                    Some(k) => {
                        assert forall|j: int| 0 <= j < branches.len() && j != k implies (
                        #[trigger] branches[j]).0 != key by {
                            if j > k {
                                lemma_cases_differ(branches, 0, k, j);
                            }
                        }
                    },
                    None => {},
                }
            }
        },
    }
}

/// A binding cannot be referred to before it is made: a sequence of
/// bindings in which an initializer loads a symbol that neither the
/// surroundings nor an earlier binding of the sequence binds is refused with
/// that symbol as unresolved, if the bindings before it can be lowered, and
/// whether or not a later binding of the sequence binds the symbol.
pub proof fn law_forward_reference_is_unresolved(
    cx: Context,
    scope: Map<Symbol, ScopeEntry>,
    st: Body,
    stores: Vec<(Symbol, Layout, Expr)>,
    ret: Expr,
    at: nat,
    symbol: Symbol,
)
    requires
        at < stores@.len(),
        stores@[at as int].2 == Expr::Load(symbol),
        !scope.contains_key(symbol),
        forall|j: int| 0 <= j < at ==> (#[trigger] stores@[j]).0 != symbol,
        lower_stores_before(cx, scope, st, stores, 0, at),
    ensures
        lower_expr(cx, scope, st, Expr::Store(stores, Box::new(ret))) == Err::<
            (Body, Value),
            LowerError,
        >(LowerError::UnresolvedSymbol(symbol)),
{
    lemma_forward_reference(cx, scope, st, stores, 0, at, symbol);
}

/// Whether the initializers of the bindings from `from` up to `at` can be
/// lowered, each under the bindings before it.
pub open spec fn lower_stores_before(
    cx: Context,
    scope: Map<Symbol, ScopeEntry>,
    st: Body,
    stores: Vec<(Symbol, Layout, Expr)>,
    from: nat,
    at: nat,
) -> bool
    decreases at - from,
{
    if from >= at || from >= stores@.len() {
        true
    } else {
        let (name, layout, init) = stores@[from as int];
        match lower_expr(cx, scope, st, init) {
            Err(_) => false,
            Ok((st1, value)) => match crate::lowered::slot_size(cx, layout) {
                None => false,
                Some(size) => lower_stores_before(
                    cx,
                    scope.insert(
                        name,
                        ScopeEntry::Stack {
                            expr_type: layout.machine_type(cx.cfg),
                            slot: st1.next_slot(),
                        },
                    ),
                    st1.with_slot(size).with_inst(
                        Inst::StackStore { value, slot: st1.next_slot(), offset: 0 },
                    ),
                    stores,
                    from + 1,
                    at,
                ),
            },
        }
    }
}

proof fn lemma_forward_reference(
    cx: Context,
    scope: Map<Symbol, ScopeEntry>,
    st: Body,
    stores: Vec<(Symbol, Layout, Expr)>,
    from: nat,
    at: nat,
    symbol: Symbol,
)
    requires
        from <= at < stores@.len(),
        stores@[at as int].2 == Expr::Load(symbol),
        !scope.contains_key(symbol),
        forall|j: int| from <= j < at ==> (#[trigger] stores@[j]).0 != symbol,
        lower_stores_before(cx, scope, st, stores, from, at),
    ensures
        lower_stores(cx, scope, st, stores, from) == Err::<
            (Body, Map<Symbol, ScopeEntry>),
            LowerError,
        >(LowerError::UnresolvedSymbol(symbol)),
    decreases at - from,
{
    if from == at {
        assert(lower_expr(cx, scope, st, Expr::Load(symbol)) == Err::<(Body, Value), LowerError>(
            LowerError::UnresolvedSymbol(symbol),
        ));
    } else {
        let (name, layout, init) = stores@[from as int];
        let (st1, value) = lower_expr(cx, scope, st, init)->Ok_0;
        let size = crate::lowered::slot_size(cx, layout)->Some_0;
        let slot = st1.next_slot();
        assert(stores@[from as int].0 != symbol);
        lemma_forward_reference(
            cx,
            scope.insert(name, ScopeEntry::Stack { expr_type: layout.machine_type(cx.cfg), slot }),
            st1.with_slot(size).with_inst(Inst::StackStore { value, slot, offset: 0 }),
            stores,
            from + 1,
            at,
            symbol,
        );
    }
}


/// The fields of a record literal by the bytes of their names.
pub open spec fn field_pairs(fields: Seq<(String, Expr)>) -> Seq<(Seq<u8>, Expr)> {
    Seq::new(fields.len(), |i: int| (name_bytes(fields[i].0), fields[i].1))
}

/// Whether no two fields have the same name.
pub open spec fn names_differ(fields: Seq<(String, Expr)>) -> bool {
    forall|i: int, j: int|
        0 <= i < j < fields.len() ==> name_bytes((#[trigger] fields[i]).0) != name_bytes(
            (#[trigger] fields[j]).0,
        )
}

/// The fields in the order of their names.
spec fn by_name(fields: Seq<(String, Expr)>) -> Seq<(Seq<u8>, Expr)> {
    let order = order_by_name(field_names(fields), fields.len());
    Seq::new(fields.len(), |k: int| field_pairs(fields)[order[k] as int])
}

/// Whether the names of `a` come in order, each once.
spec fn strictly_in_order(a: Seq<(Seq<u8>, Expr)>) -> bool {
    forall|i: int, j: int|
        0 <= i < j < a.len() ==> bytes_le((#[trigger] a[i]).0, (#[trigger] a[j]).0) && a[i].0
            != a[j].0
}

proof fn lemma_by_name(fields: Seq<(String, Expr)>)
    requires
        names_differ(fields),
        fields.len() <= usize::MAX,
    ensures
        by_name(fields).len() == fields.len(),
        strictly_in_order(by_name(fields)),
        forall|x: (Seq<u8>, Expr)|
            #![trigger by_name(fields).contains(x)]
            #![trigger field_pairs(fields).contains(x)]
            by_name(fields).contains(x) <==> field_pairs(fields).contains(x),
{
    let names = field_names(fields);
    let n = fields.len();
    let order = order_by_name(names, n);
    let pairs = field_pairs(fields);
    let sorted = by_name(fields);
    lemma_order_by_name(names, n);
    assert forall|k: int| 0 <= k < n implies (#[trigger] order[k]) < n by {
        assert(order.contains(order[k]));
    }
    assert forall|i: int, j: int| 0 <= i < j < sorted.len() implies bytes_le(
        (#[trigger] sorted[i]).0,
        (#[trigger] sorted[j]).0,
    ) && sorted[i].0 != sorted[j].0 by {
        assert(bytes_le(names[order[i] as int], names[order[j] as int]));
        assert(order[i] != order[j]);
        let (a, b) = (order[i] as int, order[j] as int);
        if a < b {
            assert(name_bytes(fields[a].0) != name_bytes(fields[b].0));
        } else {
            assert(name_bytes(fields[b].0) != name_bytes(fields[a].0));
        }
    }
    assert forall|x: (Seq<u8>, Expr)|
        #![trigger sorted.contains(x)]
        #![trigger pairs.contains(x)]
        sorted.contains(x) <==> pairs.contains(x) by {
        if sorted.contains(x) {
            let k = choose|k: int| 0 <= k < sorted.len() && sorted[k] == x;
            assert(pairs[order[k] as int] == x);
        }
        if pairs.contains(x) {
            let i = choose|i: int| 0 <= i < pairs.len() && pairs[i] == x;
            assert(order.contains(i as usize));
            let k = choose|k: int| 0 <= k < order.len() && order[k] == i as usize;
            assert(sorted[k] == x);
        }
    }
}

proof fn lemma_same_in_order(a: Seq<(Seq<u8>, Expr)>, b: Seq<(Seq<u8>, Expr)>, k: int)
    requires
        a.len() == b.len(),
        strictly_in_order(a),
        strictly_in_order(b),
        forall|x: (Seq<u8>, Expr)|
            #![trigger a.contains(x)]
            #![trigger b.contains(x)]
            a.contains(x) <==> b.contains(x),
        0 <= k <= a.len(),
    ensures
        forall|i: int| 0 <= i < k ==> a[i] == b[i],
    decreases k,
{
    if k > 0 {
        lemma_same_in_order(a, b, k - 1);
        let at = k - 1;
        assert(a.contains(a[at]));
        assert(b.contains(a[at]));
        let j = choose|j: int| 0 <= j < b.len() && b[j] == a[at];
        assert(b.contains(b[at]));
        assert(a.contains(b[at]));
        let i = choose|i: int| 0 <= i < a.len() && a[i] == b[at];
        if j < at {
            assert(a[j] == b[j]);
            assert(a[j].0 != a[at].0);
        } else if i < at {
            assert(a[i] == b[i]);
            assert(b[i].0 != b[at].0);
        } else if j > at {
            assert(bytes_le(b[at].0, b[j].0) && b[at].0 != b[j].0);
            if i > at {
                assert(bytes_le(a[at].0, a[i].0));
                lemma_bytes_le_is_total_order(a[at].0, b[at].0, b[at].0);
            }
        }
    }
}

proof fn lemma_fields_same(
    cx: Context,
    scope: Map<Symbol, ScopeEntry>,
    st: Body,
    fields1: Vec<(String, Expr)>,
    fields2: Vec<(String, Expr)>,
    layout: Layout,
    order1: Seq<usize>,
    order2: Seq<usize>,
    from: nat,
    slot: StackSlot,
    offset: nat,
)
    requires
        order1.len() == order2.len(),
        forall|k: int|
            0 <= k < order1.len() ==> (#[trigger] order1[k]) < fields1@.len() && order2[k]
                < fields2@.len() && field_pairs(fields1@)[order1[k] as int] == field_pairs(
                fields2@,
            )[order2[k] as int],
    ensures
        lower_fields(cx, scope, st, fields1, layout, order1, from, slot, offset) == lower_fields(
            cx,
            scope,
            st,
            fields2,
            layout,
            order2,
            from,
            slot,
            offset,
        ),
    decreases order1.len() - from,
{
    if from < order1.len() {
        let k = from as int;
        assert(order1[k] < fields1@.len());
        let (name1, init1) = fields1@[order1[k] as int];
        let (name2, init2) = fields2@[order2[k] as int];
        assert(field_pairs(fields1@)[order1[k] as int] == (name_bytes(name1), init1));
        assert(field_pairs(fields2@)[order2[k] as int] == (name_bytes(name2), init2));
        match lower_expr(cx, scope, st, init1) {
            Err(e) => {},
            Ok((st1, value)) => match crate::lowered::field_layout(layout, name_bytes(name1)) {
                None => {},
                Some(field) => match crate::lowered::slot_size(cx, field) {
                    None => {},
                    Some(size) => {
                        lemma_fields_same(
                            cx,
                            scope,
                            st1.with_inst(Inst::StackStore { value, slot, offset: offset as i32 }),
                            fields1,
                            fields2,
                            layout,
                            order1,
                            order2,
                            from + 1,
                            slot,
                            offset + size as nat,
                        );
                    },
                },
            },
        }
    }
}

/// The storage of a record does not depend on the order in which its fields
/// are written: two record literals of one layout that hold the same fields,
/// each under a name of its own, are lowered to the same instructions, and
/// hence to the same memory.
pub proof fn law_record_ignores_field_order(
    cx: Context,
    scope: Map<Symbol, ScopeEntry>,
    st: Body,
    layout: Layout,
    fields1: Vec<(String, Expr)>,
    fields2: Vec<(String, Expr)>,
)
    requires
        field_pairs(fields1@).to_multiset() == field_pairs(fields2@).to_multiset(),
        names_differ(fields1@),
        names_differ(fields2@),
    ensures
        lower_expr(cx, scope, st, Expr::Struct { layout, fields: fields1 }) == lower_expr(
            cx,
            scope,
            st,
            Expr::Struct { layout, fields: fields2 },
        ),
{
    let pairs1 = field_pairs(fields1@);
    let pairs2 = field_pairs(fields2@);
    let n = fields1@.len();
    let order1 = order_by_name(field_names(fields1@), n);
    let order2 = order_by_name(field_names(fields2@), fields2@.len());
    vstd::std_specs::vec::axiom_spec_len(&fields1);
    vstd::std_specs::vec::axiom_spec_len(&fields2);
    pairs1.to_multiset_ensures();
    pairs2.to_multiset_ensures();
    assert(fields2@.len() == n);
    lemma_by_name(fields1@);
    lemma_by_name(fields2@);
    let a = by_name(fields1@);
    let b = by_name(fields2@);
    assert forall|x: (Seq<u8>, Expr)|
        #![trigger a.contains(x)]
        #![trigger b.contains(x)]
        a.contains(x) <==> b.contains(x) by {
        assert(pairs1.contains(x) <==> pairs1.to_multiset().count(x) > 0);
        assert(pairs2.contains(x) <==> pairs2.to_multiset().count(x) > 0);
    }
    lemma_same_in_order(a, b, n as int);
    lemma_order_by_name(field_names(fields1@), n);
    lemma_order_by_name(field_names(fields2@), n);
    assert forall|k: int| 0 <= k < order1.len() implies (#[trigger] order1[k]) < fields1@.len()
        && order2[k] < fields2@.len() && pairs1[order1[k] as int] == pairs2[order2[k] as int] by {
        assert(order1.contains(order1[k]));
        assert(order2.contains(order2[k]));
        assert(a[k] == b[k]);
    }
    let slot = st.next_slot();
    match crate::lowered::slot_size(cx, layout) {
        None => {},
        Some(size) => {
            lemma_fields_same(
                cx,
                scope,
                st.with_slot(size),
                fields1,
                fields2,
                layout,
                order1,
                order2,
                0,
                slot,
                0,
            );
        },
    }
}

} // verus!
