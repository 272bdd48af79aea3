use roc_gen::builder::FunctionBuilder;
use roc_gen::expr::Expr;
use roc_gen::fields::{name_eq, name_le};
use roc_gen::interp::{cut, run, Memory};
use roc_gen::ir::{
    copy_types, Block, CallConv, FuncId, Inst, PoolRange, Signature, StackSlot, Type, Value,
    Variable,
};
use roc_gen::layout::{sig_from_layout, Builtin, Layout, PointerWidth, TargetConfig};
use roc_gen::lower::{build_expr, call_by_name, call_malloc, list_set_in_place, Env};
use roc_gen::lowered::{LowerError, Unsupported};
use roc_gen::machine::Trap;
use roc_gen::module::{signature_eq, Interns, Linkage, Module, ModuleError};
use roc_gen::scope::Scope;
use roc_gen::symbol::{BuiltinOp, Symbol, INT_ADD, LIST_SET_IN_PLACE, NUM_ADD, NUM_NEG};

fn cfg(pointer_width: PointerWidth) -> TargetConfig {
    TargetConfig { default_call_conv: CallConv::Fast, pointer_width }
}

fn sig(params: Vec<Type>, returns: Vec<Type>) -> Signature {
    Signature { params, returns, call_conv: CallConv::Fast }
}

fn env() -> Env {
    Env { cfg: cfg(PointerWidth::U64), interns: Interns { names: vec![] }, malloc: FuncId { index: 0 } }
}

fn started() -> FunctionBuilder {
    let mut builder = FunctionBuilder::new(sig(vec![], vec![Type::I64]));
    let block = builder.create_block();
    builder.switch_to_block(block);
    builder
}

fn finish(mut builder: FunctionBuilder, value: Value) -> roc_gen::ir::Function {
    builder.emit(Inst::Return { value });
    builder.seal_all_blocks();
    builder.finalize()
}

#[test]
fn layouts_have_the_sizes_and_types_of_the_target() {
    let wide = cfg(PointerWidth::U64);
    let narrow = cfg(PointerWidth::U32);
    let int = Layout::Builtin(Builtin::Int64);
    let list = Layout::Builtin(Builtin::List(Box::new(Layout::Builtin(Builtin::Byte))));
    assert_eq!(int.stack_size(8), Some(8));
    assert_eq!(Layout::Builtin(Builtin::Float64).stack_size(4), Some(8));
    assert_eq!(Layout::Builtin(Builtin::Bool).stack_size(8), Some(1));
    assert_eq!(Layout::Builtin(Builtin::Byte).stack_size(8), Some(1));
    assert_eq!(Layout::Builtin(Builtin::Str).stack_size(4), Some(4));
    assert_eq!(list.stack_size(8), Some(8));
    let record = Layout::Struct(vec![
        ("x".to_string(), Layout::Builtin(Builtin::Int64)),
        ("ok".to_string(), Layout::Builtin(Builtin::Bool)),
        ("name".to_string(), Layout::Builtin(Builtin::Str)),
    ]);
    assert_eq!(record.stack_size(8), Some(17));
    assert_eq!(record.stack_size(4), Some(13));
    assert_eq!(Layout::Struct(vec![]).stack_size(8), Some(0));
    assert_eq!(int.type_from_layout(wide), Type::I64);
    assert_eq!(Layout::Builtin(Builtin::Float64).type_from_layout(wide), Type::F64);
    assert_eq!(Layout::Builtin(Builtin::Bool).type_from_layout(wide), Type::B1);
    assert_eq!(Layout::Builtin(Builtin::Byte).type_from_layout(wide), Type::I8);
    assert_eq!(record.type_from_layout(wide), Type::I64);
    assert_eq!(record.type_from_layout(narrow), Type::I32);
    assert_eq!(wide.pointer_bytes(), 8);
    assert_eq!(narrow.pointer_bytes(), 4);
    assert_eq!(cfg(PointerWidth::U16).pointer_bytes(), 2);
    assert_eq!(cfg(PointerWidth::U16).pointer_type(), Type::I32);
}

#[test]
fn a_layout_that_is_too_large_has_no_size() {
    let pair = Layout::Struct(vec![
        ("a".to_string(), Layout::Builtin(Builtin::Str)),
        ("b".to_string(), Layout::Builtin(Builtin::Str)),
    ]);
    assert_eq!(pair.stack_size(0x7fff_ffff), Some(0xffff_fffe));
    assert_eq!(pair.stack_size(0x8000_0000), None);
    let outer = Layout::Struct(vec![
        ("inner".to_string(), Layout::Struct(vec![("a".to_string(), Layout::Builtin(Builtin::Str))])),
        ("one".to_string(), Layout::Builtin(Builtin::Byte)),
    ]);
    assert_eq!(outer.stack_size(u32::MAX), None);
    assert_eq!(outer.stack_size(u32::MAX - 1), Some(u32::MAX));
}

#[test]
fn a_literal_that_is_too_large_is_refused() {
    let big = Expr::Str("x".repeat(0x7fff_ffff));
    let mut builder = started();
    assert_eq!(
        build_expr(&env(), &Scope::new(), &mut builder, &big),
        Err(LowerError::Unsupported(Unsupported::TooLarge))
    );
}

#[test]
fn the_signature_of_a_function_pointer_lists_its_arguments() {
    let layout = Layout::FunctionPointer(
        vec![Layout::Builtin(Builtin::Int64), Layout::Builtin(Builtin::Bool)],
        Box::new(Layout::Builtin(Builtin::Str)),
    );
    let made = sig_from_layout(cfg(PointerWidth::U32), &layout).unwrap();
    assert_eq!(made.params, vec![Type::I64, Type::B1]);
    assert_eq!(made.returns, vec![Type::I32]);
    assert_eq!(made.call_conv, CallConv::Fast);
    assert!(sig_from_layout(cfg(PointerWidth::U32), &Layout::Builtin(Builtin::Int64)).is_none());
    assert_eq!(copy_types(&made.params), made.params);
    let copy = made.clone();
    assert!(signature_eq(&made, &copy));
    assert!(!signature_eq(&made, &sig(vec![Type::I64], vec![Type::I32])));
}

#[test]
fn names_are_ordered_byte_by_byte() {
    assert!(name_le("a", "b"));
    assert!(!name_le("b", "a"));
    assert!(name_le("a", "a"));
    assert!(name_le("", "a"));
    assert!(!name_le("a", ""));
    assert!(name_le("ab", "abc"));
    assert!(!name_le("abc", "ab"));
    assert!(name_le("Z", "a"));
    assert!(name_le("z", "é"));
    assert!(name_eq("field", "field"));
    assert!(!name_eq("field", "fiel"));
    assert!(!name_eq("field", "fielD"));
}

#[test]
fn the_table_of_built_in_operations() {
    assert_eq!(Symbol { id: INT_ADD }.lookup_builtin(), Some(BuiltinOp::IntAdd));
    assert_eq!(Symbol { id: NUM_ADD }.lookup_builtin(), Some(BuiltinOp::IntAdd));
    assert_eq!(Symbol { id: NUM_NEG }.lookup_builtin(), Some(BuiltinOp::IntNeg));
    assert_eq!(Symbol { id: LIST_SET_IN_PLACE }.lookup_builtin(), Some(BuiltinOp::ListSetInPlace));
    assert_eq!(Symbol { id: 0 }.lookup_builtin(), None);
    assert_eq!(Symbol { id: 16 }.lookup_builtin(), None);
    assert_eq!(BuiltinOp::IntNeg.expected_args(), 1);
    assert_eq!(BuiltinOp::IntAdd.expected_args(), 2);
    assert_eq!(BuiltinOp::ListGetUnsafe.expected_args(), 2);
    assert_eq!(BuiltinOp::ListSet.expected_args(), 3);
}

#[test]
fn the_builder_numbers_what_it_makes_in_order() {
    let mut builder = FunctionBuilder::new(sig(vec![Type::I64, Type::I8], vec![Type::I64]));
    let entry = builder.create_block();
    let other = builder.create_block();
    assert_eq!((entry, other), (Block { index: 0 }, Block { index: 1 }));
    builder.switch_to_block(entry);
    let params = builder.append_block_params_for_function_params();
    assert_eq!(params, vec![Value { index: 0 }, Value { index: 1 }]);
    assert_eq!(builder.new_value(Type::I64), Value { index: 2 });
    builder.emit(Inst::Iconst { dst: Value { index: 2 }, ty: Type::I64, imm: 7 });
    assert_eq!(builder.create_stack_slot(16), StackSlot { index: 0 });
    assert_eq!(builder.create_stack_slot(1), StackSlot { index: 1 });
    assert_eq!(builder.declare_var(Type::I64), Variable { index: 0 });
    assert_eq!(builder.import_function(FuncId { index: 5 }).index, 0);
    assert_eq!(builder.import_signature(sig(vec![], vec![Type::I64])).index, 0);
    assert_eq!(
        builder.add_values(&vec![Value { index: 0 }, Value { index: 2 }]),
        PoolRange { start: 0, len: 2 }
    );
    assert_eq!(builder.add_values(&vec![Value { index: 1 }]), PoolRange { start: 2, len: 1 });
    assert_eq!(builder.add_cases(&vec![(3, other)]), PoolRange { start: 0, len: 1 });
    builder.emit(Inst::Jump { target: other });
    builder.switch_to_block(other);
    let function = finish(builder, Value { index: 2 });
    assert_eq!(function.block_starts, vec![Some(0), Some(2)]);
    assert_eq!(function.insts.len(), 3);
    assert_eq!(function.params, 2);
    assert_eq!(function.value_types, vec![Type::I64, Type::I8, Type::I64]);
    assert_eq!(function.stack_slots, vec![16, 1]);
    assert_eq!(function.variables, vec![Type::I64]);
    assert_eq!(function.func_refs, vec![FuncId { index: 5 }]);
    assert_eq!(function.value_pool.len(), 3);
    assert_eq!(function.case_pool, vec![(3, other)]);
    assert!(Inst::Jump { target: other }.ends_block());
    assert!(!Inst::Brnz { cond: Value { index: 0 }, target: other }.ends_block());
}

#[test]
fn a_call_of_the_allocation_primitive_is_two_instructions() {
    let mut builder = started();
    let ptr = call_malloc(&env(), &mut builder, 24);
    assert_eq!(ptr, Value { index: 1 });
    let function = finish(builder, ptr);
    assert_eq!(
        function.insts[..2],
        [
            Inst::Iconst { dst: Value { index: 0 }, ty: Type::I64, imm: 24 },
            Inst::Call {
                dst: Value { index: 1 },
                func: roc_gen::ir::FuncRef { index: 0 },
                args: PoolRange { start: 0, len: 1 }
            },
        ]
    );
    assert_eq!(function.func_refs, vec![FuncId { index: 0 }]);
    assert_eq!(function.value_pool, vec![Value { index: 0 }]);
}

#[test]
fn a_store_into_a_list_scales_the_index_by_the_size_of_an_element() {
    let mut builder = started();
    let list = builder.new_value(Type::I64);
    builder.emit(Inst::Iconst { dst: list, ty: Type::I64, imm: 0x2000 });
    let index = builder.new_value(Type::I64);
    builder.emit(Inst::Iconst { dst: index, ty: Type::I64, imm: 3 });
    let elem = builder.new_value(Type::I64);
    builder.emit(Inst::Iconst { dst: elem, ty: Type::I64, imm: 5 });
    let result =
        list_set_in_place(&env(), list, index, elem, &Layout::Builtin(Builtin::Int64), &mut builder);
    assert_eq!(result, Ok(list));
    let function = finish(builder, list);
    assert_eq!(
        function.insts[3..6],
        [
            Inst::Iconst { dst: Value { index: 3 }, ty: Type::I64, imm: 8 },
            Inst::Binary {
                dst: Value { index: 4 },
                op: roc_gen::ir::BinaryOp::Imul,
                ty: Type::I64,
                lhs: index,
                rhs: Value { index: 3 }
            },
            Inst::StoreComplex { value: elem, base: list, index: Value { index: 4 }, offset: 0 },
        ]
    );
}

#[test]
fn a_call_by_name_of_a_built_in_operation_emits_no_call() {
    let mut builder = started();
    let int = || Layout::Builtin(Builtin::Int64);
    let args = vec![(Expr::Int(2), int()), (Expr::Int(3), int())];
    let sum = call_by_name(&env(), Symbol { id: NUM_ADD }, &args, &Scope::new(), &mut builder).unwrap();
    let function = finish(builder, sum);
    assert_eq!(
        function.insts[2],
        Inst::Binary {
            dst: sum,
            op: roc_gen::ir::BinaryOp::Iadd,
            ty: Type::I64,
            lhs: Value { index: 0 },
            rhs: Value { index: 1 }
        }
    );
    assert!(function.func_refs.is_empty());
}

#[test]
fn the_module_declares_and_defines() {
    let mut module = Module::new(cfg(PointerWidth::U64));
    assert_eq!(module.target_config(), cfg(PointerWidth::U64));
    assert_eq!(module.make_signature().call_conv, CallConv::Fast);
    assert!(module.make_signature().params.is_empty());
    let unary = sig(vec![Type::I64], vec![Type::I64]);
    let import = module.declare_function("host", Linkage::Import, &unary).unwrap();
    let local = module.declare_function("f", Linkage::Local, &unary).unwrap();
    assert_eq!((import.index, local.index), (0, 1));
    assert_eq!(module.declare_function("f", Linkage::Export, &unary), Ok(local));
    assert_eq!(module.declaration(local).unwrap().linkage, Linkage::Export);
    assert_eq!(
        module.declare_function("f", Linkage::Local, &sig(vec![], vec![Type::I64])),
        Err(ModuleError::IncompatibleSignature)
    );
    assert!(module.declaration(FuncId { index: 2 }).is_none());
    assert_eq!(Linkage::Import.merge(Linkage::Local), Linkage::Local);
    assert_eq!(Linkage::Local.merge(Linkage::Import), Linkage::Local);
    assert_eq!(Linkage::Export.merge(Linkage::Local), Linkage::Export);

    let body = |n: i64| {
        let mut builder = FunctionBuilder::new(sig(vec![Type::I64], vec![Type::I64]));
        let block = builder.create_block();
        builder.switch_to_block(block);
        builder.append_block_params_for_function_params();
        let v = builder.new_value(Type::I64);
        builder.emit(Inst::Iconst { dst: v, ty: Type::I64, imm: n });
        finish(builder, v)
    };
    assert_eq!(module.define_function(import, body(1)), Err(ModuleError::InvalidImportDefinition));
    assert_eq!(module.define_function(local, body(2)), Ok(()));
    assert_eq!(module.define_function(local, body(3)), Err(ModuleError::DuplicateDefinition));
    let mut memory = Memory::new();
    assert_eq!(run(&module, FuncId { index: 9 }, local, &vec![0], &mut memory, 1), Ok(2));
    assert_eq!(
        run(&module, FuncId { index: 9 }, import, &vec![0], &mut memory, 1),
        Err(Trap::UndefinedFunction)
    );
}

#[test]
fn names_of_symbols_are_looked_up_in_order() {
    let interns = Interns {
        names: vec![
            (Symbol { id: 20 }, "first".to_string()),
            (Symbol { id: 21 }, "second".to_string()),
            (Symbol { id: 20 }, "shadowed".to_string()),
        ],
    };
    assert_eq!(interns.ident_string(Symbol { id: 20 }), Some("first"));
    assert_eq!(interns.ident_string(Symbol { id: 21 }), Some("second"));
    assert_eq!(interns.ident_string(Symbol { id: 22 }), None);
}

#[test]
fn memory_is_allocated_in_order_and_written_only_where_allocated() {
    let mut memory = Memory::new();
    let first = memory.allocate(16).unwrap();
    let second = memory.allocate(8).unwrap();
    assert_eq!(second, first + 16);
    assert_eq!(memory.load(Type::I64, first), Err(Trap::InvalidRead));
    assert_eq!(memory.store(first + 8, 0x1_0000_01ff), Ok(()));
    assert_eq!(memory.load(Type::I64, first + 8), Ok(0x1_0000_01ff));
    assert_eq!(memory.load(Type::I32, first + 8), Ok(0x1ff));
    assert_eq!(memory.load(Type::I8, first + 8), Ok(0xff));
    assert_eq!(memory.load(Type::B1, first + 8), Ok(1));
    assert_eq!(memory.store(second + 8, 1), Err(Trap::InvalidWrite));
    assert_eq!(memory.store(first - 1, 1), Err(Trap::InvalidWrite));
    assert_eq!(memory.allocate(u64::MAX), Err(Trap::OutOfMemory));
    assert_eq!(cut(Type::I8, 0x1234), 0x34);
    assert_eq!(cut(Type::F64, u64::MAX), u64::MAX);
}

#[test]
fn the_machine_traps_on_bodies_that_are_not_well_formed() {
    let mut module = Module::new(cfg(PointerWidth::U64));
    let nullary = sig(vec![], vec![Type::I64]);
    let run_body = |module: &mut Module, name: &str, insts: Vec<Inst>, values: usize| {
        let id = module.declare_function(name, Linkage::Local, &nullary).unwrap();
        let mut builder = FunctionBuilder::new(sig(vec![], vec![Type::I64]));
        let entry = builder.create_block();
        let _unused = builder.create_block();
        builder.switch_to_block(entry);
        for _ in 0..values {
            builder.new_value(Type::I64);
        }
        builder.declare_var(Type::I64);
        let mut open = true;
        for inst in insts {
            if open {
                open = !inst.ends_block();
                builder.emit(inst);
            }
        }
        if open {
            builder.emit(Inst::Jump { target: Block { index: 1 } });
        }
        builder.seal_all_blocks();
        module.define_function(id, builder.finalize()).unwrap();
        let mut memory = Memory::new();
        run(module, FuncId { index: 99 }, id, &vec![], &mut memory, 4)
    };
    let v = |index| Value { index };
    assert_eq!(
        run_body(&mut module, "a", vec![Inst::Return { value: v(0) }], 1),
        Err(Trap::UndefinedValue)
    );
    assert_eq!(run_body(&mut module, "b", vec![], 0), Err(Trap::BadBlock));
    assert_eq!(
        run_body(&mut module, "c", vec![Inst::UseVar { dst: v(0), var: Variable { index: 0 } }], 1),
        Err(Trap::UndefinedVariable)
    );
    assert_eq!(
        run_body(
            &mut module,
            "d",
            vec![Inst::StackLoad { dst: v(0), ty: Type::I64, slot: StackSlot { index: 0 }, offset: 0 }],
            1
        ),
        Err(Trap::InvalidRead)
    );
    assert_eq!(
        run_body(
            &mut module,
            "e",
            vec![
                Inst::Iconst { dst: v(0), ty: Type::I64, imm: 1 },
                Inst::StackStore { value: v(0), slot: StackSlot { index: 0 }, offset: 0 },
            ],
            1
        ),
        Err(Trap::InvalidWrite)
    );
    assert_eq!(
        run_body(
            &mut module,
            "f",
            vec![
                Inst::Iconst { dst: v(0), ty: Type::I64, imm: 1 },
                Inst::Switch { cond: v(0), cases: PoolRange { start: 0, len: 1 }, default: Block { index: 0 } },
            ],
            1
        ),
        Err(Trap::BadOperands)
    );
    // A body that jumps back to its own start runs out of steps.
    assert_eq!(
        run_body(
            &mut module,
            "g",
            vec![
                Inst::Iconst { dst: v(0), ty: Type::I64, imm: 1 },
                Inst::Jump { target: Block { index: 0 } },
            ],
            1
        ),
        Err(Trap::StepLimit)
    );
    assert_eq!(
        run_body(
            &mut module,
            "h",
            vec![
                Inst::Iconst { dst: v(0), ty: Type::I64, imm: 77 },
                Inst::CallIndirect {
                    dst: v(1),
                    sig: roc_gen::ir::SigRef { index: 0 },
                    callee: v(0),
                    args: PoolRange { start: 0, len: 0 },
                },
                Inst::Return { value: v(1) },
            ],
            2
        ),
        Err(Trap::BadFunction)
    );
}
