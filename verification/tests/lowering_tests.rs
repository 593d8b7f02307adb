use cranelift_codegen::ir::immediates::Imm64;
use cranelift_codegen::ir::{
    types, AbiParam, ExtFuncData, ExternalName, FuncRef, Function as ClifFunction, GlobalValue, GlobalValueData,
    Signature, Type, UserFuncName, Value,
};
use cranelift_codegen::entity::EntityRef;
use cranelift_codegen::isa::CallConv;
use cranelift_frontend::{FunctionBuilder, FunctionBuilderContext, Variable};

use sarif_codegen::clif::ClifType;
use sarif_codegen::kinds::KindMap;
use sarif_codegen::lowering::{
    branch_jump_args, float_cc, lower_insts, native_type, HeaderCache, NativeHelpers, NativeLowering, NativeValueRepr,
    ValueMap,
};
use sarif_codegen::clif::{FloatCond, IntCond};
use sarif_codegen::mir::{CodegenValueKind, ContractKind, Function, Inst, LocalSlotId, MutableLocal, Span, ValueId};
use sarif_codegen::native::{NativeEnum, NativeEnumVariant, NativeRecord, NativeRecordField};
use sarif_codegen::trusted::{PairSet, TrustedListAccesses};

fn mir_function(insts: Vec<Inst>) -> Function {
    Function {
        name: "main".to_string(),
        params: vec![],
        return_type: None,
        effects: vec![],
        mutable_locals: vec![MutableLocal {
            slot: LocalSlotId(0),
            name: "x".to_string(),
            ty: "I32".to_string(),
            mutable: true,
        }],
        instructions: insts,
        result: None,
        span: Span { start: 0, end: 0 },
        value_count: 16,
        slot_count: 1,
    }
}

fn import(builder: &mut FunctionBuilder, name: &str, params: usize, returns: usize) -> FuncRef {
    let mut sig = Signature::new(CallConv::SystemV);
    for _ in 0..params {
        sig.params.push(AbiParam::new(types::I64));
    }
    for _ in 0..returns {
        sig.returns.push(AbiParam::new(types::I64));
    }
    let sig = builder.import_signature(sig);
    builder.import_function(ExtFuncData {
        name: ExternalName::testcase(name),
        signature: sig,
        colocated: false,
        patchable: false,
    })
}

fn helpers(builder: &mut FunctionBuilder, builder_new_results: usize) -> NativeHelpers {
    NativeHelpers {
        allocator: import(builder, "alloc", 1, 1),
        text_builder_new: import(builder, "tb_new", 0, builder_new_results),
        text_builder_append: import(builder, "tb_append", 2, 1),
        text_builder_append_codepoint: import(builder, "tb_cp", 2, 1),
        text_builder_finish: import(builder, "tb_finish", 1, 1),
        list_new: import(builder, "list_new", 2, 1),
        text_concat: import(builder, "concat", 2, 1),
        text_slice: import(builder, "slice", 3, 1),
        text_from_f64_fixed: import(builder, "fixed", 2, 1),
        parse_i32: import(builder, "parse_i32", 1, 1),
        parse_f64: import(builder, "parse_f64", 1, 1),
        arg_count: import(builder, "argc", 0, 1),
        arg_text: import(builder, "argv", 1, 1),
        stdin_text: import(builder, "stdin", 0, 1),
        stdout_write: import(builder, "stdout", 1, 0),
        text_eq: import(builder, "text_eq", 2, 1),
    }
}

fn text_global(builder: &mut FunctionBuilder) -> GlobalValue {
    builder.create_global_value(GlobalValueData::Symbol {
        name: ExternalName::testcase("hello"),
        offset: Imm64::new(0),
        colocated: false,
        tls: false,
    })
}

struct Outcome {
    result: Result<bool, String>,
    values: ValueMap,
    text: String,
    opcodes: Vec<String>,
    placed: Vec<Option<u32>>,
}

/// Lowers `insts` into a fresh function with two I64 entry parameters, one
/// I32 local (slot 0), the given kinds, a callee `twice` returning `returns`
/// values, and the text `hello`.
fn lower(
    insts: Vec<Inst>,
    kinds: &KindMap,
    records: &[NativeRecord],
    enums: &[(String, NativeEnum)],
    builder_new_results: usize,
    callee_returns: usize,
) -> Outcome {
    let mut func = ClifFunction::with_name_signature(UserFuncName::user(0, 0), Signature::new(CallConv::SystemV));
    let mut ctx = FunctionBuilderContext::new();
    let mut builder = FunctionBuilder::new(&mut func, &mut ctx);
    let entry = builder.create_block();
    let p0 = builder.append_block_param(entry, types::I64);
    let p1 = builder.append_block_param(entry, types::I64);
    builder.switch_to_block(entry);
    builder.seal_block(entry);
    let var: Variable = builder.declare_var(types::I32);
    let h = helpers(&mut builder, builder_new_results);
    let twice = import(&mut builder, "twice", 1, callee_returns);
    let hello = text_global(&mut builder);
    let mir = mir_function(insts);
    let callees = vec![("twice".to_string(), twice)];
    let texts = vec![("hello".to_string(), hello)];
    let params: Vec<Value> = vec![p0, p1];
    let slot_vars = vec![(LocalSlotId(0), var)];
    let slot_types: Vec<(LocalSlotId, Type)> = vec![(LocalSlotId(0), types::I32)];
    let env = NativeLowering {
        helpers: h,
        callees: &callees,
        texts: &texts,
        records,
        enums,
        kinds,
        function: &mir,
        block_params: &params,
        slot_vars: &slot_vars,
        slot_types: &slot_types,
        backend: "test",
    };
    let mut values = ValueMap::new();
    let mut headers = HeaderCache::new();
    let trusted = TrustedListAccesses { pairs: PairSet::new() };
    let result = lower_insts(&env, &mut builder, &mut values, &mut headers, &trusted, &mir.instructions);
    let text = format!("{}", builder.func.display());
    let dfg = &builder.func.dfg;
    let opcodes = (0..dfg.num_insts())
        .map(|i| format!("{}", dfg.insts[cranelift_codegen::ir::Inst::new(i)].opcode()))
        .collect();
    let placed = (0..dfg.num_insts())
        .map(|i| builder.func.layout.inst_block(cranelift_codegen::ir::Inst::new(i)).map(|b| b.as_u32()))
        .collect();
    Outcome { result, values, text, opcodes, placed }
}

fn v(n: u32) -> ValueId {
    ValueId(n)
}

fn kinds(entries: &[(u32, CodegenValueKind)]) -> KindMap {
    let mut k = KindMap::new();
    for (id, kind) in entries {
        k.insert(ValueId(*id), clone_kind(kind));
    }
    k
}

fn clone_kind(k: &CodegenValueKind) -> CodegenValueKind {
    sarif_codegen::native::clone_kind(k)
}

fn is_native(values: &ValueMap, id: u32) -> bool {
    matches!(values.get(ValueId(id)), Some(NativeValueRepr::Native(_)))
}

#[test]
fn lowers_integer_add_of_parameters() {
    let insts = vec![
        Inst::LoadParam { dest: v(0), index: 0 },
        Inst::LoadParam { dest: v(1), index: 1 },
        Inst::Add { dest: v(2), left: v(0), right: v(1) },
    ];
    let out = lower(insts, &kinds(&[(0, CodegenValueKind::I32)]), &[], &[], 1, 1);
    assert_eq!(out.result, Ok(true));
    assert!(is_native(&out.values, 2));
    assert!(out.text.contains("iadd"));
    assert!(!out.text.contains("fadd"));
}

#[test]
fn lowers_float_arithmetic_by_left_kind() {
    let insts = vec![
        Inst::ConstF64 { dest: v(0), bits: 0x4000_0000_0000_0000 },
        Inst::ConstF64 { dest: v(1), bits: 0x3ff0_0000_0000_0000 },
        Inst::Sub { dest: v(2), left: v(0), right: v(1) },
        Inst::Sqrt { dest: v(3), value: v(2) },
    ];
    let out = lower(insts, &kinds(&[(0, CodegenValueKind::F64)]), &[], &[], 1, 1);
    assert_eq!(out.result, Ok(true));
    assert!(out.text.contains("f64const"));
    assert!(out.text.contains("fsub"));
    assert!(out.text.contains("sqrt"));
}

#[test]
fn arithmetic_without_left_kind_is_an_error() {
    let insts = vec![
        Inst::ConstInt { dest: v(0), value: 1 },
        Inst::ConstInt { dest: v(1), value: 2 },
        Inst::Mul { dest: v(2), left: v(0), right: v(1) },
    ];
    let out = lower(insts, &KindMap::new(), &[], &[], 1, 1);
    assert_eq!(out.result, Err("test could not resolve mul left operand kind for `main`".to_string()));
}

#[test]
fn unresolved_operand_is_named_in_the_error() {
    let insts = vec![Inst::ConstInt { dest: v(1), value: 2 }, Inst::And { dest: v(2), left: v(7), right: v(1) }];
    let out = lower(insts, &KindMap::new(), &[], &[], 1, 1);
    assert_eq!(out.result, Err("test could not resolve and left operand %7 in `main`".to_string()));
}

#[test]
fn parameter_load_out_of_bounds_is_an_error() {
    let out = lower(vec![Inst::LoadParam { dest: v(0), index: 5 }], &KindMap::new(), &[], &[], 1, 1);
    assert_eq!(out.result, Err("test parameter load out of bounds in `main` at index 5".to_string()));
}

#[test]
fn missing_text_data_is_an_error() {
    let out = lower(vec![Inst::ConstText { dest: v(0), value: "hi".to_string() }], &KindMap::new(), &[], &[], 1, 1);
    assert_eq!(out.result, Err("test is missing text data for \"hi\" in `main`".to_string()));
}

#[test]
fn known_text_loads_its_symbol() {
    let out = lower(vec![Inst::ConstText { dest: v(0), value: "hello".to_string() }], &KindMap::new(), &[], &[], 1, 1);
    assert_eq!(out.result, Ok(true));
    assert!(out.text.contains("symbol_value"));
}

#[test]
fn store_local_reduces_a_wide_integer() {
    let insts = vec![
        Inst::ConstInt { dest: v(0), value: 7 },
        Inst::StoreLocal { slot: LocalSlotId(0), src: v(0) },
        Inst::LoadLocal { dest: v(1), slot: LocalSlotId(0) },
    ];
    let out = lower(insts, &KindMap::new(), &[], &[], 1, 1);
    assert_eq!(out.result, Ok(true));
    assert!(out.text.contains("ireduce.i32"));
    assert!(is_native(&out.values, 1));
}

#[test]
fn store_local_of_a_float_is_an_error() {
    let insts = vec![
        Inst::ConstF64 { dest: v(0), bits: 0 },
        Inst::StoreLocal { slot: LocalSlotId(0), src: v(0) },
    ];
    let out = lower(insts, &KindMap::new(), &[], &[], 1, 1);
    assert_eq!(
        out.result,
        Err("test cannot store `f64` into mutable local declared as `i32` in `main`".to_string())
    );
}

#[test]
fn missing_local_is_an_error() {
    let insts = vec![Inst::LoadLocal { dest: v(0), slot: LocalSlotId(3) }];
    let out = lower(insts, &KindMap::new(), &[], &[], 1, 1);
    assert_eq!(out.result, Err("test mutable local slot3 is unavailable in `main`".to_string()));
}

#[test]
fn helper_call_traps_on_null() {
    let out = lower(vec![Inst::TextBuilderNew { dest: v(0) }], &KindMap::new(), &[], &[], 1, 1);
    assert_eq!(out.result, Ok(true));
    assert!(out.text.contains("call fn"));
    assert!(out.text.contains("trapnz"));
    assert!(is_native(&out.values, 0));
}

#[test]
fn helper_with_wrong_result_shape_is_an_error() {
    let out = lower(vec![Inst::TextBuilderNew { dest: v(0) }], &KindMap::new(), &[], &[], 0, 1);
    assert_eq!(out.result, Err("test text builder new helper returned an unexpected result shape in `main`".to_string()));
}

#[test]
fn call_results_give_the_value_or_the_unit() {
    let insts = vec![Inst::ConstInt { dest: v(0), value: 1 }, Inst::Call { dest: v(1), callee: "twice".to_string(), args: vec![v(0)] }];
    let one = lower(insts, &KindMap::new(), &[], &[], 1, 1);
    assert_eq!(one.result, Ok(true));
    assert!(is_native(&one.values, 1));
    let insts = vec![Inst::ConstInt { dest: v(0), value: 1 }, Inst::Call { dest: v(1), callee: "twice".to_string(), args: vec![v(0)] }];
    let none = lower(insts, &KindMap::new(), &[], &[], 1, 0);
    assert_eq!(none.result, Ok(true));
    assert!(matches!(none.values.get(v(1)), Some(NativeValueRepr::Unit)));
    let insts = vec![Inst::ConstInt { dest: v(0), value: 1 }, Inst::Call { dest: v(1), callee: "twice".to_string(), args: vec![v(0)] }];
    let two = lower(insts, &KindMap::new(), &[], &[], 1, 2);
    assert_eq!(two.result, Err("test does not support multi-value returns in `main`".to_string()));
}

#[test]
fn unknown_callee_is_an_error() {
    let insts = vec![Inst::Call { dest: v(1), callee: "nope".to_string(), args: vec![] }];
    let out = lower(insts, &KindMap::new(), &[], &[], 1, 1);
    assert_eq!(out.result, Err("test lowering could not find callee `nope` in `main`".to_string()));
}

#[test]
fn effect_handlers_are_not_supported() {
    let insts = vec![Inst::Perform { dest: v(0), effect: "io".to_string(), operation: "read".to_string(), args: vec![] }];
    let out = lower(insts, &KindMap::new(), &[], &[], 1, 1);
    assert_eq!(out.result, Err("test does not yet support effect handlers in `main`".to_string()));
}

#[test]
fn contract_check_traps_with_its_code() {
    let insts = vec![Inst::ConstBool { dest: v(0), value: true }, Inst::Assert { condition: v(0), kind: ContractKind::Ensures }];
    let out = lower(insts, &KindMap::new(), &[], &[], 1, 1);
    assert_eq!(out.result, Ok(true));
    assert!(out.text.contains("trapz"));
    assert!(out.text.contains("user2"));
}

#[test]
fn list_get_checks_bounds_and_loads_by_element_kind() {
    let insts = vec![
        Inst::LoadParam { dest: v(0), index: 0 },
        Inst::LoadParam { dest: v(1), index: 1 },
        Inst::ListGet { dest: v(2), list: v(0), index: v(1) },
        Inst::ListLen { dest: v(3), list: v(0) },
    ];
    let k = kinds(&[(0, CodegenValueKind::List(Box::new(CodegenValueKind::F64)))]);
    let out = lower(insts, &k, &[], &[], 1, 1);
    assert_eq!(out.result, Ok(true));
    assert!(out.text.contains("icmp uge"));
    assert!(out.text.contains("load.f64"));
    assert!(out.text.matches("load.i64").count() >= 2);
}

#[test]
fn list_get_of_a_non_list_is_an_error() {
    let insts = vec![
        Inst::LoadParam { dest: v(0), index: 0 },
        Inst::LoadParam { dest: v(1), index: 1 },
        Inst::ListGet { dest: v(2), list: v(0), index: v(1) },
    ];
    let out = lower(insts, &kinds(&[(0, CodegenValueKind::I32)]), &[], &[], 1, 1);
    assert_eq!(out.result, Err("native list_get input is not a list in `main`".to_string()));
}

fn point_record() -> NativeRecord {
    NativeRecord {
        name: "Point".to_string(),
        fields: vec![
            NativeRecordField { name: "x".to_string(), kind: CodegenValueKind::I32, offset: 0 },
            NativeRecordField { name: "label".to_string(), kind: CodegenValueKind::Text, offset: 8 },
        ],
        size: 16,
    }
}

#[test]
fn record_construction_and_field_load() {
    let insts = vec![
        Inst::ConstInt { dest: v(0), value: 3 },
        Inst::ConstText { dest: v(1), value: "hello".to_string() },
        Inst::MakeRecord {
            dest: v(2),
            name: "Point".to_string(),
            fields: vec![("label".to_string(), v(1)), ("x".to_string(), v(0))],
        },
        Inst::Field { dest: v(3), base: v(2), name: "label".to_string() },
    ];
    let k = kinds(&[(2, CodegenValueKind::Record("Point".to_string()))]);
    let out = lower(insts, &k, &[point_record()], &[], 1, 1);
    assert_eq!(out.result, Ok(true));
    assert!(out.text.contains("store"));
    assert!(is_native(&out.values, 3));
}

#[test]
fn record_with_a_missing_field_is_an_error() {
    let insts = vec![
        Inst::ConstInt { dest: v(0), value: 3 },
        Inst::MakeRecord { dest: v(2), name: "Point".to_string(), fields: vec![("x".to_string(), v(0))] },
    ];
    let out = lower(insts, &KindMap::new(), &[point_record()], &[], 1, 1);
    assert_eq!(out.result, Err("record instruction is missing field `label` in `main`".to_string()));
}

#[test]
fn unknown_record_and_field_are_errors() {
    let insts = vec![Inst::MakeRecord { dest: v(2), name: "Pair".to_string(), fields: vec![] }];
    let out = lower(insts, &KindMap::new(), &[point_record()], &[], 1, 1);
    assert_eq!(out.result, Err("missing native record metadata for `Pair`".to_string()));
    let insts = vec![Inst::LoadParam { dest: v(0), index: 0 }, Inst::Field { dest: v(1), base: v(0), name: "y".to_string() }];
    let k = kinds(&[(0, CodegenValueKind::Record("Point".to_string()))]);
    let out = lower(insts, &k, &[point_record()], &[], 1, 1);
    assert_eq!(out.result, Err("record `Point` has no native field `y` in `main`".to_string()));
}

fn shape_enum() -> (String, NativeEnum) {
    (
        "Shape".to_string(),
        NativeEnum {
            variants: vec![
                NativeEnumVariant { name: "Dot".to_string(), payload_type: None },
                NativeEnumVariant { name: "Circle".to_string(), payload_type: Some("F64".to_string()) },
            ],
        },
    )
}

#[test]
fn payload_enum_construction_and_tag_test() {
    let insts = vec![
        Inst::ConstF64 { dest: v(0), bits: 0 },
        Inst::MakeEnum { dest: v(1), name: "Shape".to_string(), variant: "Circle".to_string(), payload: Some(v(0)) },
        Inst::EnumTagEq { dest: v(2), value: v(1), tag: 1 },
        Inst::EnumPayload { dest: v(3), value: v(1), payload_type: "F64".to_string() },
    ];
    let k = kinds(&[(1, CodegenValueKind::Enum("Shape".to_string()))]);
    let out = lower(insts, &k, &[], &[shape_enum()], 1, 1);
    assert_eq!(out.result, Ok(true));
    assert!(out.text.contains("iconst.i64 16"));
    assert!(out.text.contains("load.f64"));
    assert!(is_native(&out.values, 2));
}

#[test]
fn unknown_enum_variant_is_an_error() {
    let insts = vec![Inst::MakeEnum { dest: v(1), name: "Shape".to_string(), variant: "Square".to_string(), payload: None }];
    let out = lower(insts, &KindMap::new(), &[], &[shape_enum()], 1, 1);
    assert_eq!(out.result, Err("enum `Shape` has no variant `Square` in `main`".to_string()));
}

#[test]
fn comparisons_of_texts_use_text_equality() {
    let insts = vec![
        Inst::ConstText { dest: v(0), value: "hello".to_string() },
        Inst::ConstText { dest: v(1), value: "hello".to_string() },
        Inst::Ne { dest: v(2), left: v(0), right: v(1) },
    ];
    let k = kinds(&[(0, CodegenValueKind::Text)]);
    let out = lower(insts, &k, &[], &[], 1, 1);
    assert_eq!(out.result, Ok(true));
    assert!(out.text.contains("call fn15("));
    assert!(out.text.contains("icmp eq"));
    assert!(is_native(&out.values, 2));
}

#[test]
fn comparing_unit_with_a_value_is_an_error() {
    let insts = vec![
        Inst::Call { dest: v(0), callee: "twice".to_string(), args: vec![] },
        Inst::ConstInt { dest: v(1), value: 1 },
        Inst::Lt { dest: v(2), left: v(0), right: v(1) },
    ];
    let out = lower(insts, &KindMap::new(), &[], &[], 1, 0);
    assert_eq!(out.result, Err("test cannot compare unit and non-unit values in `main`".to_string()));
}

#[test]
fn if_merges_branch_results() {
    let insts = vec![
        Inst::ConstBool { dest: v(0), value: true },
        Inst::If {
            dest: v(3),
            condition: v(0),
            then_insts: vec![Inst::ConstInt { dest: v(1), value: 20 }],
            then_result: Some(v(1)),
            else_insts: vec![Inst::ConstInt { dest: v(2), value: 22 }],
            else_result: Some(v(2)),
        },
    ];
    let out = lower(insts, &kinds(&[(3, CodegenValueKind::I32)]), &[], &[], 1, 1);
    assert_eq!(out.result, Ok(true));
    assert!(out.text.contains("brif"));
    assert!(is_native(&out.values, 3));
    assert!(out.values.get(v(1)).is_none());
}

#[test]
fn if_branches_that_disagree_are_an_error() {
    let insts = vec![
        Inst::ConstBool { dest: v(0), value: true },
        Inst::If {
            dest: v(3),
            condition: v(0),
            then_insts: vec![Inst::ConstInt { dest: v(1), value: 20 }],
            then_result: None,
            else_insts: vec![],
            else_result: None,
        },
    ];
    let out = lower(insts, &kinds(&[(3, CodegenValueKind::I32)]), &[], &[], 1, 1);
    assert_eq!(
        out.result,
        Err("test conditional branches in `main` do not agree on whether they produce a value".to_string())
    );
}

#[test]
fn while_and_repeat_give_the_unit() {
    let insts = vec![
        Inst::ConstInt { dest: v(0), value: 3 },
        Inst::While {
            dest: v(2),
            condition_insts: vec![Inst::ConstBool { dest: v(1), value: false }],
            condition: v(1),
            body_insts: vec![],
        },
        Inst::Repeat { dest: v(3), count: v(0), index_slot: Some(LocalSlotId(0)), body_insts: vec![] },
    ];
    let out = lower(insts, &KindMap::new(), &[], &[], 1, 1);
    assert_eq!(out.result, Ok(true));
    assert!(matches!(out.values.get(v(2)), Some(NativeValueRepr::Unit)));
    assert!(matches!(out.values.get(v(3)), Some(NativeValueRepr::Unit)));
    assert!(out.text.contains("isub"));
}

#[test]
fn native_type_of_names() {
    assert_eq!(native_type("Unit", &[], &[]), Ok(ClifType::Invalid));
    assert_eq!(native_type("F64", &[], &[]), Ok(ClifType::F64));
    assert_eq!(native_type("Text", &[], &[]), Ok(ClifType::I64));
    assert_eq!(
        native_type("Bytes", &[], &[]),
        Err("native backend does not support values of type `Bytes` in stage-0".to_string())
    );
}

#[test]
fn float_conditions_of_integer_conditions() {
    assert_eq!(float_cc(IntCond::SignedLessThan), Some(FloatCond::LessThan));
    assert_eq!(float_cc(IntCond::NotEqual), Some(FloatCond::NotEqual));
    assert_eq!(float_cc(IntCond::UnsignedGreaterThan), None);
}

#[test]
fn branch_arguments_follow_the_destination() {
    let mut values = ValueMap::new();
    let mir = mir_function(vec![]);
    assert_eq!(branch_jump_args(&values, None, false, &mir, "then", "test").map(|a| a.len()), Ok(0));
    assert_eq!(
        branch_jump_args(&values, Some(v(4)), true, &mir, "else", "test").map(|a| a.len()),
        Err("test could not resolve else branch result %4 in `main`".to_string())
    );
    values.insert(v(4), NativeValueRepr::Unit);
    assert_eq!(
        branch_jump_args(&values, Some(v(4)), true, &mir, "else", "test").map(|a| a.len()),
        Err("test expected a native value for else branch result in `main`".to_string())
    );
}

#[test]
fn record_equality_compares_field_by_field() {
    let insts = vec![
        Inst::LoadParam { dest: v(0), index: 0 },
        Inst::LoadParam { dest: v(1), index: 1 },
        Inst::Eq { dest: v(2), left: v(0), right: v(1) },
    ];
    let k = kinds(&[(0, CodegenValueKind::Record("Point".to_string()))]);
    let out = lower(insts, &k, &[point_record()], &[], 1, 1);
    assert_eq!(out.result, Ok(true));
    assert!(out.text.contains("call fn15("));
    assert!(out.text.contains("band"));
    assert!(is_native(&out.values, 2));
}

fn empty_env_check(insts: &[Inst], kinds: &KindMap, records: &[NativeRecord]) -> bool {
    let f = FuncRef::new(0);
    let mir = mir_function(vec![]);
    let h = NativeHelpers {
        allocator: f,
        text_builder_new: f,
        text_builder_append: f,
        text_builder_append_codepoint: f,
        text_builder_finish: f,
        list_new: f,
        text_concat: f,
        text_slice: f,
        text_from_f64_fixed: f,
        parse_i32: f,
        parse_f64: f,
        arg_count: f,
        arg_text: f,
        stdin_text: f,
        stdout_write: f,
        text_eq: f,
    };
    let env = NativeLowering {
        helpers: h,
        callees: &[],
        texts: &[],
        records,
        enums: &[],
        kinds,
        function: &mir,
        block_params: &[],
        slot_vars: &[],
        slot_types: &[],
        backend: "test",
    };
    sarif_codegen::lowering::all_native_lowerable(&env, insts)
}

#[test]
fn lowerable_instructions_are_recognised() {
    let plain = vec![Inst::ConstInt { dest: v(0), value: 1 }];
    assert!(empty_env_check(&plain, &KindMap::new(), &[]));
    let text_cmp = vec![Inst::If {
        dest: v(3),
        condition: v(0),
        then_insts: vec![Inst::TextCmp { dest: v(1), left: v(0), right: v(0) }],
        then_result: None,
        else_insts: vec![],
        else_result: None,
    }];
    assert!(!empty_env_check(&text_cmp, &KindMap::new(), &[]));
    let node = NativeRecord {
        name: "Node".to_string(),
        fields: vec![NativeRecordField { name: "next".to_string(), kind: CodegenValueKind::Record("Node".to_string()), offset: 0 }],
        size: 8,
    };
    let compare = vec![Inst::Eq { dest: v(2), left: v(0), right: v(1) }];
    let k = kinds(&[(0, CodegenValueKind::Record("Node".to_string()))]);
    assert!(!empty_env_check(&compare, &k, &[node]));
    let k = kinds(&[(0, CodegenValueKind::Record("Point".to_string()))]);
    assert!(empty_env_check(&compare, &k, &[point_record()]));
}

#[test]
fn text_byte_makes_the_instructions_in_order() {
    let insts = vec![
        Inst::LoadParam { dest: v(0), index: 0 },
        Inst::LoadParam { dest: v(1), index: 1 },
        Inst::TextByte { dest: v(2), text: v(0), index: v(1) },
    ];
    let out = lower(insts, &KindMap::new(), &[], &[], 1, 1);
    assert_eq!(out.result, Ok(true));
    assert_eq!(out.opcodes, vec!["iconst", "iadd", "iadd", "load", "uextend"]);
}

#[test]
fn if_branches_to_then_block_first() {
    let insts = vec![
        Inst::ConstBool { dest: v(0), value: true },
        Inst::If {
            dest: v(1),
            condition: v(0),
            then_insts: vec![],
            then_result: None,
            else_insts: vec![],
            else_result: None,
        },
    ];
    let out = lower(insts, &KindMap::new(), &[], &[], 1, 1);
    assert_eq!(out.result, Ok(true));
    assert_eq!(out.opcodes, vec!["iconst", "iconst", "icmp", "brif", "jump", "jump"]);
    assert!(out.text.contains("brif v") && out.text.contains("block1, block2"));
}

#[test]
fn if_branches_are_lowered_into_their_own_blocks() {
    let insts = vec![
        Inst::ConstBool { dest: v(0), value: true },
        Inst::If {
            dest: v(1),
            condition: v(0),
            then_insts: vec![Inst::ConstInt { dest: v(2), value: 7 }],
            then_result: None,
            else_insts: vec![Inst::ConstInt { dest: v(3), value: 9 }, Inst::ConstInt { dest: v(4), value: 11 }],
            else_result: None,
        },
    ];
    let out = lower(insts, &KindMap::new(), &[], &[], 1, 1);
    assert_eq!(out.result, Ok(true));
    assert_eq!(out.opcodes, vec!["iconst", "iconst", "icmp", "brif", "iconst", "jump", "iconst", "iconst", "jump"]);
    assert_eq!(
        out.placed,
        vec![Some(0), Some(0), Some(0), Some(0), Some(1), Some(1), Some(2), Some(2), Some(2)]
    );
}

#[test]
fn while_condition_and_body_are_lowered_into_their_blocks() {
    let insts = vec![Inst::While {
        dest: v(0),
        condition_insts: vec![Inst::ConstBool { dest: v(1), value: false }],
        condition: v(1),
        body_insts: vec![Inst::ConstInt { dest: v(2), value: 3 }],
    }];
    let out = lower(insts, &KindMap::new(), &[], &[], 1, 1);
    assert_eq!(out.result, Ok(true));
    assert_eq!(out.opcodes, vec!["jump", "iconst", "brif", "iconst", "jump"]);
    assert_eq!(out.placed, vec![Some(0), Some(1), Some(1), Some(2), Some(2)]);
}
