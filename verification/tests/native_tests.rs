use sarif_codegen::infer::{infer_value_kinds, kind_debug_text, kind_eq};
use sarif_codegen::kinds::KindMap;
use sarif_codegen::mir::{
    CodegenValueKind, ContractKind, EnumType, EnumVariantType, Function, Inst, Param, Program, Span, StructField,
    StructType, ValueId,
};
use sarif_codegen::native::{
    collect_native_enums, collect_native_records, contract_trap_code, encode_text_blob, native_enum_is_payload_free,
    native_enum_variant_index, native_value_kind, record_offset, NativeEnum, NativeEnumVariant,
};

fn shapes() -> EnumType {
    EnumType {
        name: "Shape".to_string(),
        variants: vec![
            EnumVariantType { name: "Dot".to_string(), payload_type: None },
            EnumVariantType { name: "Circle".to_string(), payload_type: Some("F64".to_string()) },
        ],
    }
}

fn point() -> StructType {
    StructType {
        name: "Point".to_string(),
        fields: vec![
            StructField { name: "x".to_string(), ty: "I32".to_string() },
            StructField { name: "label".to_string(), ty: "Text".to_string() },
        ],
    }
}

fn program(functions: Vec<Function>) -> Program {
    Program { enums: vec![shapes()], structs: vec![point()], functions, externs: vec![] }
}

fn function(name: &str, params: &[&str], ret: Option<&str>, insts: Vec<Inst>) -> Function {
    Function {
        name: name.to_string(),
        params: params.iter().enumerate().map(|(i, t)| Param { name: format!("p{i}"), ty: t.to_string() }).collect(),
        return_type: ret.map(|r| r.to_string()),
        effects: vec![],
        mutable_locals: vec![],
        instructions: insts,
        result: None,
        span: Span { start: 0, end: 0 },
        value_count: 16,
        slot_count: 0,
    }
}

#[test]
fn trap_codes_per_contract_kind() {
    assert_eq!(contract_trap_code(ContractKind::Requires), 1);
    assert_eq!(contract_trap_code(ContractKind::Ensures), 2);
    assert_eq!(contract_trap_code(ContractKind::Bounds), 3);
}

#[test]
fn text_blob_is_length_then_bytes() {
    assert_eq!(encode_text_blob("hi"), vec![2, 0, 0, 0, 0, 0, 0, 0, b'h', b'i']);
    assert_eq!(encode_text_blob(""), vec![0; 8]);
    let long = "x".repeat(300);
    let blob = encode_text_blob(&long);
    assert_eq!(&blob[..8], &[44, 1, 0, 0, 0, 0, 0, 0]);
    assert_eq!(blob.len(), 308);
}

#[test]
fn record_offsets_are_eight_bytes_apart() {
    assert_eq!(record_offset(0), Ok(0));
    assert_eq!(record_offset(2), Ok(16));
    assert_eq!(record_offset(536870911), Ok(4294967288));
    assert_eq!(record_offset(536870912), Err("record offset exceeds stage-0 limits".to_string()));
    assert_eq!(record_offset(4294967296), Err("record index exceeds stage-0 limits".to_string()));
}

#[test]
fn native_enum_queries() {
    let free = NativeEnum {
        variants: vec![
            NativeEnumVariant { name: "A".to_string(), payload_type: None },
            NativeEnumVariant { name: "B".to_string(), payload_type: None },
        ],
    };
    let payload = NativeEnum {
        variants: vec![NativeEnumVariant { name: "C".to_string(), payload_type: Some("I32".to_string()) }],
    };
    assert!(native_enum_is_payload_free(&free));
    assert!(!native_enum_is_payload_free(&payload));
    assert_eq!(native_enum_variant_index(&free, "B"), Some(1));
    assert_eq!(native_enum_variant_index(&free, "Z"), None);
}

#[test]
fn native_kinds_of_type_names() {
    let p = program(vec![]);
    let records = collect_native_records(&p).unwrap();
    let enums = collect_native_enums(&p);
    assert_eq!(native_value_kind("I32", &records, &enums), Ok(CodegenValueKind::I32));
    assert_eq!(
        native_value_kind("List[List[Text]]", &records, &enums),
        Ok(CodegenValueKind::List(Box::new(CodegenValueKind::List(Box::new(CodegenValueKind::Text)))))
    );
    assert_eq!(native_value_kind("List", &records, &enums), Ok(CodegenValueKind::List(Box::new(CodegenValueKind::F64))));
    assert_eq!(native_value_kind("Shape", &records, &enums), Ok(CodegenValueKind::Enum("Shape".to_string())));
    assert_eq!(native_value_kind("Point", &records, &enums), Ok(CodegenValueKind::Record("Point".to_string())));
    assert_eq!(
        native_value_kind("Unit", &records, &enums),
        Err("unit should be represented as an omitted native value type".to_string())
    );
    assert_eq!(
        native_value_kind("Bytes", &records, &enums),
        Err("native backend does not support values of type `Bytes` in stage-0".to_string())
    );
}

#[test]
fn native_record_layout() {
    let records = collect_native_records(&program(vec![])).unwrap();
    assert_eq!(records.len(), 1);
    assert_eq!(records[0].name, "Point");
    assert_eq!(records[0].fields.len(), 2);
    assert_eq!(records[0].fields[1].name, "label");
    assert_eq!(records[0].fields[1].offset, 8);
    assert_eq!(records[0].fields[1].kind, CodegenValueKind::Text);
    assert_eq!(records[0].size, 16);
    let bad = Program {
        enums: vec![],
        structs: vec![StructType {
            name: "Bad".to_string(),
            fields: vec![StructField { name: "u".to_string(), ty: "Unit".to_string() }],
        }],
        functions: vec![],
        externs: vec![],
    };
    assert_eq!(
        collect_native_records(&bad).map(|r| r.len()),
        Err("unit should be represented as an omitted native value type".to_string())
    );
}

#[test]
fn native_enum_table() {
    let enums = collect_native_enums(&program(vec![]));
    assert_eq!(enums.len(), 1);
    assert_eq!(enums[0].0, "Shape");
    assert_eq!(enums[0].1.variants[1].payload_type, Some("F64".to_string()));
}

fn kinds_of(f: &Function, p: &Program) -> Result<KindMap, String> {
    let records = collect_native_records(p).unwrap();
    let enums = collect_native_enums(p);
    infer_value_kinds(f, &records, &enums, &p.functions)
}

#[test]
fn native_kind_inference_follows_instructions() {
    let callee = function("len_of", &["Text"], Some("I32"), vec![]);
    let main = function(
        "main",
        &["Text"],
        Some("I32"),
        vec![
            Inst::LoadParam { dest: ValueId(0), index: 0 },
            Inst::ConstInt { dest: ValueId(1), value: 3 },
            Inst::ListNew { dest: ValueId(2), len: ValueId(1), value: ValueId(0) },
            Inst::ListGet { dest: ValueId(3), list: ValueId(2), index: ValueId(1) },
            Inst::Call { dest: ValueId(4), callee: "len_of".to_string(), args: vec![ValueId(3)] },
            Inst::Add { dest: ValueId(5), left: ValueId(4), right: ValueId(1) },
            Inst::MakeRecord { dest: ValueId(6), name: "Point".to_string(), fields: vec![] },
            Inst::Field { dest: ValueId(7), base: ValueId(6), name: "label".to_string() },
        ],
    );
    let p = program(vec![callee, main]);
    let kinds = kinds_of(&p.functions[1], &p).unwrap();
    assert_eq!(kinds.get(ValueId(0)), Some(&CodegenValueKind::Text));
    assert_eq!(kinds.get(ValueId(2)), Some(&CodegenValueKind::List(Box::new(CodegenValueKind::Text))));
    assert_eq!(kinds.get(ValueId(3)), Some(&CodegenValueKind::Text));
    assert_eq!(kinds.get(ValueId(4)), Some(&CodegenValueKind::I32));
    assert_eq!(kinds.get(ValueId(5)), Some(&CodegenValueKind::I32));
    assert_eq!(kinds.get(ValueId(7)), Some(&CodegenValueKind::Text));
    assert_eq!(kinds.get(ValueId(9)), None);
}

#[test]
fn native_kind_inference_errors() {
    let not_list = function(
        "f",
        &[],
        None,
        vec![
            Inst::ConstInt { dest: ValueId(0), value: 1 },
            Inst::ListGet { dest: ValueId(1), list: ValueId(0), index: ValueId(0) },
        ],
    );
    let p = program(vec![not_list]);
    assert_eq!(
        kinds_of(&p.functions[0], &p).map(|_| ()),
        Err("native list_get input %0 is not a list in `f`".to_string())
    );
    let text_math = function(
        "g",
        &[],
        None,
        vec![
            Inst::ConstText { dest: ValueId(0), value: "a".to_string() },
            Inst::Add { dest: ValueId(1), left: ValueId(0), right: ValueId(0) },
        ],
    );
    let p = program(vec![text_math]);
    assert_eq!(
        kinds_of(&p.functions[0], &p).map(|_| ()),
        Err("native arithmetic in `g` only supports numeric kinds, found `Text`".to_string())
    );
    let bad_param = function("h", &[], None, vec![Inst::LoadParam { dest: ValueId(0), index: 2 }]);
    let p = program(vec![bad_param]);
    assert_eq!(
        kinds_of(&p.functions[0], &p).map(|_| ()),
        Err("native parameter load out of bounds in `h` at index 2".to_string())
    );
    let branches = function(
        "k",
        &[],
        None,
        vec![
            Inst::ConstBool { dest: ValueId(0), value: true },
            Inst::If {
                dest: ValueId(1),
                condition: ValueId(0),
                then_insts: vec![Inst::ConstInt { dest: ValueId(2), value: 1 }],
                then_result: Some(ValueId(2)),
                else_insts: vec![Inst::MakeEnum {
                    dest: ValueId(3),
                    name: "Shape".to_string(),
                    variant: "Dot".to_string(),
                    payload: None,
                }],
                else_result: Some(ValueId(3)),
            },
        ],
    );
    let p = program(vec![branches]);
    assert_eq!(
        kinds_of(&p.functions[0], &p).map(|_| ()),
        Err("native conditional branches in `k` produce incompatible kinds `I32` and `Enum(\"Shape\")`".to_string())
    );
}

#[test]
fn kind_debug_text_matches_debug_format() {
    let k = CodegenValueKind::List(Box::new(CodegenValueKind::Record("P\"q".to_string())));
    assert_eq!(kind_debug_text(&k), format!("{k:?}"));
    assert!(kind_eq(&k, &CodegenValueKind::List(Box::new(CodegenValueKind::Record("P\"q".to_string())))));
    assert!(!kind_eq(&k, &CodegenValueKind::List(Box::new(CodegenValueKind::Text))));
}

#[test]
fn kind_map_keeps_the_latest_kind() {
    let mut m = KindMap::new();
    m.insert(ValueId(1), CodegenValueKind::I32);
    m.insert(ValueId(1), CodegenValueKind::Text);
    assert_eq!(m.get(ValueId(1)), Some(&CodegenValueKind::Text));
    assert_eq!(m.get_cloned(ValueId(2)), None);
}

#[test]
fn object_errors_carry_their_message() {
    let e = sarif_codegen::object::ObjectError::new("no backend".to_string());
    assert_eq!(e.message, "no backend");
}
