use roc_gen::expr::{Expr, Proc};
use roc_gen::interp::{run, Memory};
use roc_gen::ir::{CallConv, FuncId, Inst, Signature, Type};
use roc_gen::layout::{Builtin, Layout, PointerWidth, TargetConfig};
use roc_gen::lower::Env;
use roc_gen::lowered::{LowerError, Mismatch, Unsupported};
use roc_gen::machine::Trap;
use roc_gen::module::{Interns, Linkage, Module};
use roc_gen::proc::{declare_proc, define_proc_body};
use roc_gen::scope::{Scope, ScopeEntry};
use roc_gen::symbol::{
    Symbol, FLOAT_ADD, INT_EQ_I64, INT_EQ_I8, LIST_GET_UNSAFE, LIST_SET, LIST_SET_IN_PLACE,
    NUM_ADD, NUM_MUL, NUM_NEG, NUM_SUB,
};

const DEPTH: usize = 64;

fn cfg() -> TargetConfig {
    TargetConfig { default_call_conv: CallConv::SystemV, pointer_width: PointerWidth::U64 }
}

fn sym(id: u64) -> Symbol {
    Symbol { id }
}

fn int64() -> Layout {
    Layout::Builtin(Builtin::Int64)
}

fn boolean() -> Layout {
    Layout::Builtin(Builtin::Bool)
}

fn list_of_int() -> Layout {
    Layout::Builtin(Builtin::List(Box::new(int64())))
}

fn call(op: u64, args: Vec<(Expr, Layout)>) -> Expr {
    Expr::CallByName(sym(op), args)
}

fn int_array(items: &[i64]) -> Expr {
    Expr::Array { elem_layout: int64(), elems: items.iter().map(|n| Expr::Int(*n)).collect() }
}

/// A module with the allocation primitive declared, and the environment for it.
fn setup(names: &[(u64, &str)]) -> (Module, Env) {
    let mut module = Module::new(cfg());
    let sig = Signature { params: vec![Type::I64], returns: vec![Type::I64], call_conv: CallConv::SystemV };
    let malloc = module.declare_function("malloc", Linkage::Import, &sig).unwrap();
    let interns =
        Interns { names: names.iter().map(|(id, name)| (sym(*id), name.to_string())).collect() };
    (module, Env { cfg: cfg(), interns, malloc })
}

/// Declares and defines one procedure without parameters and runs it.
fn lower_and_run(body: Expr, ret_layout: Layout) -> Result<Result<u64, Trap>, LowerError> {
    let (mut module, env) = setup(&[(100, "main")]);
    let proc = Proc { args: vec![], body, ret_layout };
    let (fn_id, sig) = declare_proc(&env, &mut module, sym(100), &proc)?;
    define_proc_body(&env, &mut module, fn_id, &Scope::new(), sig, proc)?;
    let mut memory = Memory::new();
    Ok(run(&module, env.malloc, fn_id, &vec![], &mut memory, DEPTH))
}

fn value_of(body: Expr) -> u64 {
    lower_and_run(body, int64()).unwrap().unwrap()
}

fn error_of(body: Expr) -> LowerError {
    lower_and_run(body, int64()).unwrap_err()
}

fn cond(c: Expr, pass: Expr, fail: Expr) -> Expr {
    Expr::Cond {
        cond: Box::new(c),
        cond_layout: boolean(),
        pass: Box::new(pass),
        fail: Box::new(fail),
        ret_layout: int64(),
    }
}

fn switch(c: Expr, branches: Vec<(u64, Expr)>, default: Expr) -> Expr {
    Expr::Switch {
        cond: Box::new(c),
        cond_layout: int64(),
        branches,
        default_branch: Box::new(default),
        ret_layout: int64(),
    }
}

#[test]
fn integer_literals_come_back_unchanged() {
    for n in [0i64, 1, -1, 42, i64::MAX, i64::MIN, 0x1234_5678_9abc_def0] {
        assert_eq!(value_of(Expr::Int(n)) as i64, n);
    }
}

#[test]
fn other_literals_come_back_as_their_bits() {
    assert_eq!(lower_and_run(Expr::Bool(true), boolean()), Ok(Ok(1)));
    assert_eq!(lower_and_run(Expr::Bool(false), boolean()), Ok(Ok(0)));
    assert_eq!(lower_and_run(Expr::Byte(200), Layout::Builtin(Builtin::Byte)), Ok(Ok(200)));
    let bits = 1.5f64.to_bits();
    assert_eq!(lower_and_run(Expr::Float(bits), Layout::Builtin(Builtin::Float64)), Ok(Ok(bits)));
}

#[test]
fn let_x_be_1_plus_2_in_x_times_3_yields_9() {
    let x = sym(200);
    let body = Expr::Store(
        vec![(x, int64(), call(NUM_ADD, vec![(Expr::Int(1), int64()), (Expr::Int(2), int64())]))],
        Box::new(call(NUM_MUL, vec![(Expr::Load(x), int64()), (Expr::Int(3), int64())])),
    );
    assert_eq!(value_of(body), 9);
}

#[test]
fn call_of_a_declared_function_add_yields_9() {
    let (mut module, env) = setup(&[(100, "main"), (101, "add")]);
    let (x, y) = (sym(300), sym(301));
    let add = Proc {
        args: vec![(int64(), x), (int64(), y)],
        body: call(NUM_ADD, vec![(Expr::Load(x), int64()), (Expr::Load(y), int64())]),
        ret_layout: int64(),
    };
    let (add_id, add_sig) = declare_proc(&env, &mut module, sym(101), &add).unwrap();
    assert_eq!(add_sig.params, vec![Type::I64, Type::I64]);
    assert_eq!(add_sig.returns, vec![Type::I64]);
    let scope = Scope::new().extend(sym(101), ScopeEntry::Func { sig: add_sig.clone(), func_id: add_id });
    define_proc_body(&env, &mut module, add_id, &scope, add_sig, add).unwrap();

    let main = Proc {
        args: vec![],
        body: Expr::CallByName(sym(101), vec![(Expr::Int(4), int64()), (Expr::Int(5), int64())]),
        ret_layout: int64(),
    };
    let (main_id, main_sig) = declare_proc(&env, &mut module, sym(100), &main).unwrap();
    define_proc_body(&env, &mut module, main_id, &scope, main_sig, main).unwrap();

    let mut memory = Memory::new();
    assert_eq!(run(&module, env.malloc, main_id, &vec![], &mut memory, DEPTH), Ok(9));
    assert_eq!(run(&module, env.malloc, add_id, &vec![20, 22], &mut memory, DEPTH), Ok(42));
    assert_eq!(run(&module, env.malloc, add_id, &vec![20], &mut memory, DEPTH), Err(Trap::ArityMismatch));
}

#[test]
fn list_read_at_index_2_yields_30_and_write_then_read_yields_99() {
    let read = call(
        LIST_GET_UNSAFE,
        vec![(int_array(&[10, 20, 30]), list_of_int()), (Expr::Int(2), int64())],
    );
    assert_eq!(value_of(read), 30);

    let written = call(
        LIST_SET_IN_PLACE,
        vec![
            (int_array(&[10, 20, 30]), list_of_int()),
            (Expr::Int(0), int64()),
            (Expr::Int(99), int64()),
        ],
    );
    let read_back = call(LIST_GET_UNSAFE, vec![(written, list_of_int()), (Expr::Int(0), int64())]);
    assert_eq!(value_of(read_back), 99);
}

#[test]
fn list_elements_are_spaced_by_the_size_of_an_element() {
    let bytes = Expr::Array {
        elem_layout: Layout::Builtin(Builtin::Byte),
        elems: vec![Expr::Byte(7), Expr::Byte(8), Expr::Byte(9)],
    };
    let list = Layout::Builtin(Builtin::List(Box::new(Layout::Builtin(Builtin::Byte))));
    let read = call(LIST_GET_UNSAFE, vec![(bytes, list), (Expr::Int(1), int64())]);
    assert_eq!(lower_and_run(read, Layout::Builtin(Builtin::Byte)), Ok(Ok(8)));
}

#[test]
fn list_set_writes_into_a_fresh_list() {
    let set = call(
        LIST_SET,
        vec![(int_array(&[1, 2]), list_of_int()), (Expr::Int(3), int64()), (Expr::Int(77), int64())],
    );
    let read = call(LIST_GET_UNSAFE, vec![(set, list_of_int()), (Expr::Int(3), int64())]);
    assert_eq!(value_of(read), 77);
}

#[test]
fn a_read_of_a_cell_never_written_traps() {
    let read = call(
        LIST_GET_UNSAFE,
        vec![(int_array(&[10, 20, 30]), list_of_int()), (Expr::Int(5), int64())],
    );
    assert_eq!(lower_and_run(read, int64()), Ok(Err(Trap::InvalidRead)));
}

#[test]
fn a_condition_that_is_literally_true_yields_the_pass_arm() {
    assert_eq!(value_of(cond(Expr::Bool(true), Expr::Int(11), Expr::Int(22))), 11);
    assert_eq!(value_of(Expr::Int(11)), 11);
}

#[test]
fn a_condition_that_is_literally_false_yields_the_fail_arm() {
    assert_eq!(value_of(cond(Expr::Bool(false), Expr::Int(11), Expr::Int(22))), 22);
}

#[test]
fn conditionals_nest_in_every_position() {
    let eq = |a: i64, b: i64| call(INT_EQ_I64, vec![(Expr::Int(a), int64()), (Expr::Int(b), int64())]);
    let inner = cond(eq(1, 1), Expr::Int(5), Expr::Int(6));
    let outer = cond(
        call(INT_EQ_I64, vec![(inner, int64()), (Expr::Int(5), int64())]),
        cond(eq(1, 2), Expr::Int(100), Expr::Int(200)),
        Expr::Int(300),
    );
    assert_eq!(value_of(outer), 200);
    let sum = call(
        NUM_ADD,
        vec![
            (cond(Expr::Bool(true), Expr::Int(1), Expr::Int(2)), int64()),
            (cond(Expr::Bool(false), Expr::Int(10), Expr::Int(20)), int64()),
        ],
    );
    assert_eq!(value_of(sum), 21);
}

#[test]
fn a_switch_yields_the_arm_of_the_matching_case_or_the_default() {
    let arms = || vec![(1u64, Expr::Int(10)), (5, Expr::Int(50)), (7, Expr::Int(70))];
    assert_eq!(value_of(switch(Expr::Int(1), arms(), Expr::Int(-1))), 10);
    assert_eq!(value_of(switch(Expr::Int(5), arms(), Expr::Int(-1))), 50);
    assert_eq!(value_of(switch(Expr::Int(7), arms(), Expr::Int(-1))), 70);
    assert_eq!(value_of(switch(Expr::Int(6), arms(), Expr::Int(-1))) as i64, -1);
    assert_eq!(value_of(switch(Expr::Int(0), vec![], Expr::Int(3))), 3);
}

#[test]
fn only_the_selected_arm_of_a_switch_runs() {
    // The arms that are not selected would trap: they read past what was written.
    let bad = || {
        call(LIST_GET_UNSAFE, vec![(int_array(&[1]), list_of_int()), (Expr::Int(9), int64())])
    };
    let body = switch(Expr::Int(2), vec![(1, bad()), (2, Expr::Int(8)), (3, bad())], bad());
    assert_eq!(value_of(body), 8);
    let body = switch(Expr::Int(4), vec![(1, bad()), (2, bad())], Expr::Int(9));
    assert_eq!(value_of(body), 9);
    let body = switch(Expr::Int(1), vec![(1, bad()), (2, Expr::Int(8))], Expr::Int(9));
    assert_eq!(lower_and_run(body, int64()), Ok(Err(Trap::InvalidRead)));
}

#[test]
fn a_switch_with_a_repeated_case_is_refused() {
    let body = switch(Expr::Int(1), vec![(1, Expr::Int(1)), (2, Expr::Int(2)), (1, Expr::Int(3))], Expr::Int(0));
    assert_eq!(error_of(body), LowerError::ShapeMismatch(Mismatch::DuplicateCase(1)));
}

fn record_layout() -> Layout {
    Layout::Struct(vec![("a".to_string(), int64()), ("b".to_string(), int64())])
}

fn lowered_insts(body: Expr, ret_layout: Layout) -> Vec<Inst> {
    let (mut module, env) = setup(&[(100, "main")]);
    let proc = Proc { args: vec![], body, ret_layout };
    let (fn_id, sig) = declare_proc(&env, &mut module, sym(100), &proc).unwrap();
    define_proc_body(&env, &mut module, fn_id, &Scope::new(), sig, proc).unwrap();
    module.declaration(fn_id).unwrap().body.as_ref().unwrap().insts.clone()
}

#[test]
fn records_are_stored_by_field_name_whatever_the_order_written() {
    let ba = Expr::Struct {
        layout: record_layout(),
        fields: vec![("b".to_string(), Expr::Int(2)), ("a".to_string(), Expr::Int(1))],
    };
    let ab = Expr::Struct {
        layout: record_layout(),
        fields: vec![("a".to_string(), Expr::Int(1)), ("b".to_string(), Expr::Int(2))],
    };
    let first = lowered_insts(ba, record_layout());
    let second = lowered_insts(ab, record_layout());
    assert_eq!(first, second);
    let stores: Vec<(usize, i32)> = first
        .iter()
        .filter_map(|inst| match inst {
            Inst::StackStore { value, offset, .. } => Some((value.index, *offset)),
            _ => None,
        })
        .collect();
    assert_eq!(stores, vec![(0, 0), (1, 8)]);
    assert_eq!(first[0], Inst::Iconst { dst: roc_gen::ir::Value { index: 0 }, ty: Type::I64, imm: 1 });
}

#[test]
fn record_fields_are_laid_out_by_the_sizes_of_their_layouts() {
    let layout = Layout::Struct(vec![
        ("flag".to_string(), boolean()),
        ("count".to_string(), int64()),
        ("byte".to_string(), Layout::Builtin(Builtin::Byte)),
    ]);
    let record = Expr::Struct {
        layout: Layout::Struct(vec![
            ("flag".to_string(), boolean()),
            ("count".to_string(), int64()),
            ("byte".to_string(), Layout::Builtin(Builtin::Byte)),
        ]),
        fields: vec![
            ("flag".to_string(), Expr::Bool(true)),
            ("count".to_string(), Expr::Int(3)),
            ("byte".to_string(), Expr::Byte(4)),
        ],
    };
    let insts = lowered_insts(record, layout);
    let offsets: Vec<i32> = insts
        .iter()
        .filter_map(|inst| match inst {
            Inst::StackStore { offset, .. } => Some(*offset),
            _ => None,
        })
        .collect();
    // byte, count, flag: 0, 1, 9
    assert_eq!(offsets, vec![0, 1, 9]);
}

#[test]
fn a_record_that_lacks_a_field_in_its_layout_is_refused() {
    let record = Expr::Struct {
        layout: record_layout(),
        fields: vec![("a".to_string(), Expr::Int(1)), ("c".to_string(), Expr::Int(2))],
    };
    assert_eq!(
        lower_and_run(record, record_layout()),
        Err(LowerError::ShapeMismatch(Mismatch::RecordLayout))
    );
}

#[test]
fn a_binding_cannot_refer_to_itself_or_to_a_later_binding() {
    let (x, y) = (sym(400), sym(401));
    let forward = Expr::Store(
        vec![(x, int64(), Expr::Load(y)), (y, int64(), Expr::Int(1))],
        Box::new(Expr::Load(x)),
    );
    assert_eq!(error_of(forward), LowerError::UnresolvedSymbol(y));
    let itself = Expr::Store(vec![(x, int64(), Expr::Load(x))], Box::new(Expr::Load(x)));
    assert_eq!(error_of(itself), LowerError::UnresolvedSymbol(x));
    let nested = Expr::Store(
        vec![
            (x, int64(), call(NUM_ADD, vec![(Expr::Int(1), int64()), (Expr::Load(y), int64())])),
            (y, int64(), Expr::Int(1)),
        ],
        Box::new(Expr::Load(x)),
    );
    assert_eq!(error_of(nested), LowerError::UnresolvedSymbol(y));
}

#[test]
fn a_later_binding_sees_the_earlier_ones_and_shadows_them() {
    let (x, y) = (sym(400), sym(401));
    let body = Expr::Store(
        vec![
            (x, int64(), Expr::Int(2)),
            (y, int64(), call(NUM_MUL, vec![(Expr::Load(x), int64()), (Expr::Int(10), int64())])),
            (x, int64(), call(NUM_ADD, vec![(Expr::Load(x), int64()), (Expr::Load(y), int64())])),
        ],
        Box::new(Expr::Load(x)),
    );
    assert_eq!(value_of(body), 22);
}

#[test]
fn arithmetic_wraps_at_the_width_of_its_type() {
    let add = call(NUM_ADD, vec![(Expr::Int(i64::MAX), int64()), (Expr::Int(1), int64())]);
    assert_eq!(value_of(add) as i64, i64::MIN);
    let sub = call(NUM_SUB, vec![(Expr::Int(3), int64()), (Expr::Int(5), int64())]);
    assert_eq!(value_of(sub) as i64, -2);
    let neg = call(NUM_NEG, vec![(Expr::Int(5), int64())]);
    assert_eq!(value_of(neg) as i64, -5);
    let byte = Layout::Builtin(Builtin::Byte);
    let bytes = call(NUM_ADD, vec![(Expr::Byte(250), Layout::Builtin(Builtin::Byte)), (Expr::Byte(10), Layout::Builtin(Builtin::Byte))]);
    assert_eq!(lower_and_run(bytes, byte), Ok(Ok(4)));
    let eq = call(INT_EQ_I8, vec![(Expr::Byte(3), Layout::Builtin(Builtin::Byte)), (Expr::Byte(3), Layout::Builtin(Builtin::Byte))]);
    assert_eq!(lower_and_run(eq, boolean()), Ok(Ok(1)));
}

#[test]
fn floating_point_arithmetic_traps_in_the_reference_machine() {
    let f = Layout::Builtin(Builtin::Float64);
    let add = call(
        FLOAT_ADD,
        vec![(Expr::Float(1.0f64.to_bits()), Layout::Builtin(Builtin::Float64)), (Expr::Float(2.0f64.to_bits()), Layout::Builtin(Builtin::Float64))],
    );
    assert_eq!(lower_and_run(add, f), Ok(Err(Trap::FloatArithmetic)));
}

#[test]
fn built_in_operations_check_the_number_of_their_arguments() {
    assert_eq!(
        error_of(call(NUM_ADD, vec![(Expr::Int(1), int64())])),
        LowerError::ShapeMismatch(Mismatch::Arity(sym(NUM_ADD)))
    );
    assert_eq!(
        error_of(call(NUM_NEG, vec![(Expr::Int(1), int64()), (Expr::Int(1), int64())])),
        LowerError::ShapeMismatch(Mismatch::Arity(sym(NUM_NEG)))
    );
    assert_eq!(
        error_of(call(LIST_SET, vec![(int_array(&[1]), list_of_int()), (Expr::Int(1), int64())])),
        LowerError::ShapeMismatch(Mismatch::Arity(sym(LIST_SET)))
    );
    assert_eq!(
        error_of(call(LIST_GET_UNSAFE, vec![(Expr::Int(1), int64()), (Expr::Int(1), int64())])),
        LowerError::ShapeMismatch(Mismatch::NotAList(sym(LIST_GET_UNSAFE)))
    );
}

#[test]
fn unknown_callables_and_loads_are_unresolved_symbols() {
    assert_eq!(error_of(Expr::Load(sym(999))), LowerError::UnresolvedSymbol(sym(999)));
    assert_eq!(error_of(Expr::CallByName(sym(999), vec![])), LowerError::UnresolvedSymbol(sym(999)));
    assert_eq!(error_of(Expr::FunctionPointer(sym(999))), LowerError::UnresolvedSymbol(sym(999)));
}

#[test]
fn a_condition_must_be_a_boolean() {
    let body = Expr::Cond {
        cond: Box::new(Expr::Int(1)),
        cond_layout: int64(),
        pass: Box::new(Expr::Int(1)),
        fail: Box::new(Expr::Int(2)),
        ret_layout: int64(),
    };
    assert_eq!(error_of(body), LowerError::ShapeMismatch(Mismatch::ConditionNotBool));
}

#[test]
fn empty_literals_are_not_supported() {
    assert_eq!(error_of(Expr::Str(String::new())), LowerError::Unsupported(Unsupported::EmptyString));
    assert_eq!(
        error_of(Expr::Array { elem_layout: int64(), elems: vec![] }),
        LowerError::Unsupported(Unsupported::EmptyArray)
    );
}

#[test]
fn a_string_literal_is_stored_byte_by_byte_with_a_sentinel() {
    let (mut module, env) = setup(&[(100, "main")]);
    let proc = Proc { args: vec![], body: Expr::Str("hi!".to_string()), ret_layout: Layout::Builtin(Builtin::Str) };
    let (fn_id, sig) = declare_proc(&env, &mut module, sym(100), &proc).unwrap();
    define_proc_body(&env, &mut module, fn_id, &Scope::new(), sig, proc).unwrap();
    let mut memory = Memory::new();
    let ptr = run(&module, env.malloc, fn_id, &vec![], &mut memory, DEPTH).unwrap();
    assert_eq!(memory.load(Type::I8, ptr), Ok(b'h' as u64));
    assert_eq!(memory.load(Type::I8, ptr + 1), Ok(b'i' as u64));
    assert_eq!(memory.load(Type::I8, ptr + 2), Ok(b'!' as u64));
    assert_eq!(memory.load(Type::I8, ptr + 3), Ok(0));
    assert_eq!(memory.load(Type::I8, ptr + 4), Err(Trap::InvalidRead));
}

#[test]
fn functions_are_called_through_their_address() {
    let (mut module, env) = setup(&[(100, "main"), (101, "double")]);
    let x = sym(300);
    let double = Proc {
        args: vec![(int64(), x)],
        body: call(NUM_ADD, vec![(Expr::Load(x), int64()), (Expr::Load(x), int64())]),
        ret_layout: int64(),
    };
    let (double_id, double_sig) = declare_proc(&env, &mut module, sym(101), &double).unwrap();
    let scope = Scope::new().extend(sym(101), ScopeEntry::Func { sig: double_sig.clone(), func_id: double_id });
    define_proc_body(&env, &mut module, double_id, &scope, double_sig, double).unwrap();
    let main = Proc {
        args: vec![],
        body: Expr::CallByPointer(
            Box::new(Expr::FunctionPointer(sym(101))),
            vec![Expr::Int(21)],
            Layout::FunctionPointer(vec![int64()], Box::new(int64())),
        ),
        ret_layout: int64(),
    };
    let (main_id, main_sig) = declare_proc(&env, &mut module, sym(100), &main).unwrap();
    define_proc_body(&env, &mut module, main_id, &scope, main_sig, main).unwrap();
    let mut memory = Memory::new();
    assert_eq!(run(&module, env.malloc, main_id, &vec![], &mut memory, DEPTH), Ok(42));
}

#[test]
fn loading_a_function_or_calling_a_value_is_refused() {
    let (mut module, env) = setup(&[(100, "main")]);
    let proc = Proc { args: vec![(int64(), sym(300))], body: Expr::Int(0), ret_layout: int64() };
    let (fn_id, sig) = declare_proc(&env, &mut module, sym(100), &proc).unwrap();
    let scope = Scope::new().extend(sym(100), ScopeEntry::Func { sig: sig.clone(), func_id: fn_id });
    let bad = Proc { args: vec![], body: Expr::Load(sym(100)), ret_layout: int64() };
    assert_eq!(
        define_proc_body(&env, &mut module, fn_id, &scope, sig.clone(), bad),
        Err(LowerError::Unsupported(Unsupported::FunctionAsValue(sym(100))))
    );
    let bad = Proc {
        args: vec![(int64(), sym(300))],
        body: Expr::CallByName(sym(300), vec![]),
        ret_layout: int64(),
    };
    assert_eq!(
        define_proc_body(&env, &mut module, fn_id, &scope, sig.clone(), bad),
        Err(LowerError::ShapeMismatch(Mismatch::NotAFunction(sym(300))))
    );
    let bad = Proc {
        args: vec![],
        body: Expr::CallByPointer(Box::new(Expr::Int(0)), vec![], int64()),
        ret_layout: int64(),
    };
    assert_eq!(
        define_proc_body(&env, &mut module, fn_id, &scope, sig, bad),
        Err(LowerError::ShapeMismatch(Mismatch::NotAFunctionPointer))
    );
}

#[test]
fn a_function_that_returns_two_values_cannot_be_called() {
    let (mut module, env) = setup(&[(100, "main")]);
    let two = Signature { params: vec![], returns: vec![Type::I64, Type::I64], call_conv: CallConv::SystemV };
    let pair = module.declare_function("pair", Linkage::Local, &two).unwrap();
    let scope = Scope::new().extend(sym(500), ScopeEntry::Func { sig: two, func_id: pair });
    let proc = Proc { args: vec![], body: Expr::CallByName(sym(500), vec![]), ret_layout: int64() };
    let (fn_id, sig) = declare_proc(&env, &mut module, sym(100), &proc).unwrap();
    assert_eq!(
        define_proc_body(&env, &mut module, fn_id, &scope, sig, proc),
        Err(LowerError::ShapeMismatch(Mismatch::ResultCount(sym(500))))
    );
}

#[test]
fn declaring_keeps_numbers_and_refuses_collisions() {
    let (mut module, env) = setup(&[(100, "main"), (101, "main"), (102, "other")]);
    let unary = Proc { args: vec![(int64(), sym(1000))], body: Expr::Int(0), ret_layout: int64() };
    let nullary = Proc { args: vec![], body: Expr::Int(0), ret_layout: int64() };
    let (first, _) = declare_proc(&env, &mut module, sym(100), &unary).unwrap();
    let (again, _) = declare_proc(&env, &mut module, sym(101), &unary).unwrap();
    assert_eq!(first, again);
    assert_eq!(declare_proc(&env, &mut module, sym(100), &nullary).unwrap_err(), LowerError::Collision(sym(100)));
    assert_eq!(declare_proc(&env, &mut module, sym(103), &nullary).unwrap_err(), LowerError::UnresolvedSymbol(sym(103)));
    let (other, _) = declare_proc(&env, &mut module, sym(102), &nullary).unwrap();
    assert_eq!(other, FuncId { index: 2 });
    assert_eq!(module.len(), 3);
}

#[test]
fn a_scope_that_was_extended_leaves_the_earlier_scope_as_it_was() {
    let entry = |index: usize| ScopeEntry::Arg { expr_type: Type::I64, param: roc_gen::ir::Value { index } };
    let empty = Scope::new();
    let one = empty.extend(sym(1), entry(10));
    let two = one.extend(sym(2), entry(20));
    let shadow = two.extend(sym(1), entry(30));
    assert!(empty.lookup(sym(1)).is_none());
    assert!(matches!(one.lookup(sym(1)), Some(ScopeEntry::Arg { param, .. }) if param.index == 10));
    assert!(one.lookup(sym(2)).is_none());
    assert!(matches!(two.lookup(sym(2)), Some(ScopeEntry::Arg { param, .. }) if param.index == 20));
    assert!(matches!(two.lookup(sym(1)), Some(ScopeEntry::Arg { param, .. }) if param.index == 10));
    assert!(matches!(shadow.lookup(sym(1)), Some(ScopeEntry::Arg { param, .. }) if param.index == 30));
    assert!(matches!(shadow.share().lookup(sym(2)), Some(ScopeEntry::Arg { param, .. }) if param.index == 20));
}

#[test]
fn recursion_runs_until_the_depth_is_used_up() {
    let (mut module, env) = setup(&[(100, "count")]);
    let n = sym(300);
    // count(n) = if n == 0 then 0 else 1 + count(n - 1)
    let body = cond(
        call(INT_EQ_I64, vec![(Expr::Load(n), int64()), (Expr::Int(0), int64())]),
        Expr::Int(0),
        call(
            NUM_ADD,
            vec![
                (Expr::Int(1), int64()),
                (
                    Expr::CallByName(
                        sym(100),
                        vec![(call(NUM_SUB, vec![(Expr::Load(n), int64()), (Expr::Int(1), int64())]), int64())],
                    ),
                    int64(),
                ),
            ],
        ),
    );
    let proc = Proc { args: vec![(int64(), n)], body, ret_layout: int64() };
    let (fn_id, sig) = declare_proc(&env, &mut module, sym(100), &proc).unwrap();
    let scope = Scope::new().extend(sym(100), ScopeEntry::Func { sig: sig.clone(), func_id: fn_id });
    define_proc_body(&env, &mut module, fn_id, &scope, sig, proc).unwrap();
    let mut memory = Memory::new();
    assert_eq!(run(&module, env.malloc, fn_id, &vec![5], &mut memory, DEPTH), Ok(5));
    assert_eq!(run(&module, env.malloc, fn_id, &vec![5], &mut memory, 6), Ok(5));
    assert_eq!(run(&module, env.malloc, fn_id, &vec![5], &mut memory, 5), Err(Trap::DepthExceeded));
    assert_eq!(run(&module, env.malloc, FuncId { index: 77 }, &vec![], &mut memory, 5), Err(Trap::BadFunction));
}
